//! The download plan: one task for each library, in the order of the
//! libraries.

use super::download::{DownloadTask, DownloadTaskModel};
use super::path::{destination, destination_of};
use crate::minecraft::metadata::library::{Library, LibraryModel};
use crate::minecraft::metadata::rule::{active_features, chain_allows, Environment, Features};
use vstd::prelude::*;

verus! {

/// The task for one library: its artifact's url as it stands, and its
/// artifact's path taken from the base directory.
pub open spec fn task_for(library: LibraryModel, base: Seq<char>) -> DownloadTaskModel {
    DownloadTaskModel {
        dest: destination_of(base, library.downloads.artifact.path),
        url: library.downloads.artifact.url,
    }
}

/// The plan for a list of libraries: the task for each, in the same order.
/// Two libraries with the same destination give two tasks.
pub open spec fn planned(libraries: Seq<LibraryModel>, base: Seq<char>) -> Seq<DownloadTaskModel> {
    libraries.map_values(|library: LibraryModel| task_for(library, base))
}

/// The environment that a plan is restricted to, if it is restricted.
pub open spec fn restriction(only_for: Option<&Environment>) -> Option<Environment> {
    match only_for {
        Some(environment) => Some(*environment),
        None => None,
    }
}

/// Whether a library belongs to the plan: always where the plan is not
/// restricted; otherwise where the library's chain allows the environment
/// under last match wins.
pub open spec fn is_selected(library: LibraryModel, only_for: Option<Environment>, active: Features) -> bool {
    match only_for {
        Some(environment) => chain_allows(library.rules, environment, active),
        None => true,
    }
}

/// The test that picks the libraries of a plan.
pub open spec fn selection_test(only_for: Option<Environment>, active: Features) -> spec_fn(
    LibraryModel,
) -> bool {
    |library: LibraryModel| is_selected(library, only_for, active)
}

/// The libraries that belong to the plan, in order.
pub open spec fn selected(
    libraries: Seq<LibraryModel>,
    only_for: Option<Environment>,
    active: Features,
) -> Seq<LibraryModel> {
    libraries.filter(selection_test(only_for, active))
}

/// Plans the downloads for the libraries under the directory `base_path`.
/// With `only_for` absent every library is planned, whatever its rules;
/// with an environment given, only the libraries whose chain allows it
/// under last match wins, on the features supplied.
pub fn plan_libraries(
    libraries: &[Library],
    base_path: &str,
    only_for: Option<&Environment>,
    features: Option<&Features>,
) -> (tasks: Vec<DownloadTask>)
    ensures
        tasks.deep_view() == planned(
            selected(libraries.deep_view(), restriction(only_for), active_features(features)),
            base_path@,
        ),
{
    let ghost list = libraries.deep_view();
    let ghost test = selection_test(restriction(only_for), active_features(features));
    let mut tasks: Vec<DownloadTask> = Vec::new();
    let mut i: usize = 0;
    assert(list.take(0).filter(test) =~= Seq::<LibraryModel>::empty()) by {
        reveal(Seq::filter);
    }
    assert(tasks.deep_view() =~= planned(list.take(0).filter(test), base_path@));
    while i < libraries.len()
        invariant
            i <= libraries.len(),
            list == libraries.deep_view(),
            test == selection_test(restriction(only_for), active_features(features)),
            tasks.deep_view() == planned(list.take(i as int).filter(test), base_path@),
        decreases libraries.len() - i,
    {
        let library = &libraries[i];
        let ghost before = tasks.deep_view();
        proof {
            assert(list.take(i + 1) =~= list.take(i as int).push(library.deep_view()));
            list.take(i as int).lemma_filter_push(library.deep_view(), test);
        }
        let wanted = match only_for {
            Some(environment) => library.targets(environment, features),
            None => true,
        };
        if wanted {
            let task = DownloadTask {
                dest: destination(base_path, library.downloads.artifact.path.as_str()),
                url: library.downloads.artifact.url.clone(),
            };
            tasks.push(task);
            assert(tasks.deep_view() =~= before.push(task_for(library.deep_view(), base_path@)));
            assert(tasks.deep_view() =~= planned(list.take(i + 1).filter(test), base_path@));
        }
        i += 1;
    }
    assert(list.take(i as int) =~= list);
    tasks
}

/// Where a plan is not restricted, every library belongs to it.
pub proof fn lemma_unrestricted_selects_all(libraries: Seq<LibraryModel>, active: Features)
    ensures
        selected(libraries, None, active) == libraries,
    decreases libraries.len(),
{
    reveal(Seq::filter);
    if libraries.len() > 0 {
        lemma_unrestricted_selects_all(libraries.drop_last(), active);
        assert(libraries.drop_last().push(libraries.last()) =~= libraries);
    }
}

/// Plans the download of every library under the directory `base_path`,
/// whatever the rules of the library say. The plan has one task for each
/// library, in the order of the libraries.
pub fn resolve_libraries(libraries: &[Library], base_path: &str) -> (tasks: Vec<DownloadTask>)
    ensures
        tasks.deep_view() == planned(libraries.deep_view(), base_path@),
{
    proof {
        lemma_unrestricted_selects_all(libraries.deep_view(), active_features(None));
    }
    plan_libraries(libraries, base_path, None, None)
}

/// A plan is a function of the libraries and the base directory: two plans
/// for the same input have the same tasks in the same order.
pub proof fn lemma_plan_is_deterministic(
    libraries: Seq<LibraryModel>,
    base: Seq<char>,
    first: Seq<DownloadTaskModel>,
    second: Seq<DownloadTaskModel>,
)
    requires
        first == planned(libraries, base),
        second == planned(libraries, base),
    ensures
        first.len() == second.len(),
        forall|i: int| 0 <= i < first.len() ==> first[i] == second[i],
        first == second,
{
}

/// A plan keeps the order of the libraries: task `i` is the task for
/// library `i`, and there are as many tasks as libraries.
pub proof fn lemma_plan_keeps_order(libraries: Seq<LibraryModel>, base: Seq<char>)
    ensures
        planned(libraries, base).len() == libraries.len(),
        forall|i: int|
            0 <= i < libraries.len() ==> (#[trigger] planned(libraries, base)[i]) == task_for(
                libraries[i],
                base,
            ),
{
}

} // verus!
