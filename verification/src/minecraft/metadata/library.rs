//! Libraries of a description: what to download for each, which operating
//! systems they are meant for, and which ones their rules name.

pub use super::rule::{OperatingSystem, Rule, OS};
use super::rule::{
    active_features, chain_allows, last_match_allows, rules_allow, Arch, Environment, Features,
};
use crate::text::{append_decimal, decimal, joined};
use std::collections::HashMap;
use vstd::prelude::*;

verus! {

broadcast use vstd::std_specs::hash::group_hash_axioms;

/// One file to download.
#[derive(Debug, Clone, PartialEq, Eq)]
pub struct Artifact {
    /// Where the file goes, relative to the directory of the libraries.
    pub path: String,
    pub url: String,
    pub sha1: String,
    pub size: Option<u64>,
}

/// The downloads of a library.
#[derive(Debug, Clone, PartialEq, Eq)]
pub struct Downloads {
    pub artifact: Artifact,
}

/// One library of a description.
#[derive(Debug, Clone, PartialEq, Eq)]
pub struct Library {
    pub name: String,
    pub downloads: Downloads,
    /// The chain that restricts the library to some platforms; empty where
    /// it is meant for all.
    pub rules: Vec<Rule>,
}

/// What an `Artifact` holds.
pub struct ArtifactModel {
    pub path: Seq<char>,
    pub url: Seq<char>,
    pub sha1: Seq<char>,
    pub size: Option<u64>,
}

/// What a `Downloads` holds.
pub struct DownloadsModel {
    pub artifact: ArtifactModel,
}

/// What a `Library` holds.
pub struct LibraryModel {
    pub name: Seq<char>,
    pub downloads: DownloadsModel,
    pub rules: Seq<Rule>,
}

impl DeepView for Artifact {
    type V = ArtifactModel;

    open spec fn deep_view(&self) -> ArtifactModel {
        ArtifactModel { path: self.path@, url: self.url@, sha1: self.sha1@, size: self.size }
    }
}

impl DeepView for Downloads {
    type V = DownloadsModel;

    open spec fn deep_view(&self) -> DownloadsModel {
        DownloadsModel { artifact: self.artifact.deep_view() }
    }
}

impl DeepView for Library {
    type V = LibraryModel;

    open spec fn deep_view(&self) -> LibraryModel {
        LibraryModel {
            name: self.name@,
            downloads: self.downloads.deep_view(),
            rules: self.rules@,
        }
    }
}

/// Whether a chain allows an operating system when no further environment
/// is given: it allows the system under last match wins on at least one
/// architecture, with no feature active.
pub open spec fn allows_system(rules: Seq<Rule>, os: OS) -> bool {
    ||| chain_allows(rules, Environment { os, arch: Arch::X86 }, Features::none())
    ||| chain_allows(rules, Environment { os, arch: Arch::X64 }, Features::none())
    ||| chain_allows(rules, Environment { os, arch: Arch::Arm64 }, Features::none())
}

/// The operating system, where the chain allows it.
pub open spec fn system_if_allowed(rules: Seq<Rule>, os: OS) -> Seq<OS> {
    if allows_system(rules, os) {
        seq![os]
    } else {
        Seq::empty()
    }
}

/// The operating systems that a chain allows, each once, in the order
/// Windows, macOS, Linux.
pub open spec fn targeted_systems(rules: Seq<Rule>) -> Seq<OS> {
    system_if_allowed(rules, OS::Windows) + system_if_allowed(rules, OS::MacOS)
        + system_if_allowed(rules, OS::Linux)
}

/// The place of an operating system in the order Windows, macOS, Linux.
pub open spec fn system_order(os: OS) -> nat {
    match os {
        OS::Windows => 0,
        OS::MacOS => 1,
        OS::Linux => 2,
    }
}

/// No rule of the chain has an architecture part or a features part: each
/// either names an operating system or has no predicate at all.
pub open spec fn names_systems_only(rules: Seq<Rule>) -> bool {
    forall|i: int|
        0 <= i < rules.len() ==> (#[trigger] rules[i]).features is None && (rules[i].os matches Some(
            os,
        ) ==> os.arch is None)
}

impl Library {
    /// Whether the library is meant for the environment: its chain allows
    /// the environment under last match wins, on the features supplied. A
    /// library without rules is meant for every environment.
    pub fn targets(&self, environment: &Environment, features: Option<&Features>) -> (meant: bool)
        ensures
            meant == chain_allows(self.rules@, *environment, active_features(features)),
    {
        rules_allow(self.rules.as_slice(), environment, features)
    }

    /// Whether the library is meant for an operating system, on at least
    /// one architecture and with no feature active.
    fn targets_system(&self, os: OS) -> (meant: bool)
        ensures
            meant == allows_system(self.rules@, os),
    {
        self.targets(&Environment { os, arch: Arch::X86 }, None) || self.targets(
            &Environment { os, arch: Arch::X64 },
            None,
        ) || self.targets(&Environment { os, arch: Arch::Arm64 }, None)
    }

    /// The operating systems that the library is meant for: those that its
    /// chain allows under last match wins, each once, in the order Windows,
    /// macOS, Linux. A library without rules is meant for all three. No
    /// environment is given here, so a rule's further parts are read thus:
    /// a system counts where the chain allows it on at least one
    /// architecture, and no feature counts as active.
    pub fn target_os(&self) -> (targets: Vec<OS>)
        ensures
            targets@ == targeted_systems(self.rules@),
    {
        let mut targets: Vec<OS> = Vec::new();
        if self.targets_system(OS::Windows) {
            targets.push(OS::Windows);
        }
        if self.targets_system(OS::MacOS) {
            targets.push(OS::MacOS);
        }
        if self.targets_system(OS::Linux) {
            targets.push(OS::Linux);
        }
        assert(targets@ =~= targeted_systems(self.rules@));
        targets
    }
}

/// The targeted systems are exactly those that the chain allows, each once
/// and in the order Windows, macOS, Linux.
pub proof fn lemma_targeted_systems_are_exact(rules: Seq<Rule>)
    ensures
        forall|os: OS| targeted_systems(rules).contains(os) <==> allows_system(rules, os),
        forall|i: int, j: int|
            0 <= i < j < targeted_systems(rules).len() ==> system_order(
                #[trigger] targeted_systems(rules)[i],
            ) < system_order(#[trigger] targeted_systems(rules)[j]),
        targeted_systems(rules).no_duplicates(),
{
    let listed = targeted_systems(rules);
    let windows = system_if_allowed(rules, OS::Windows);
    let macos = system_if_allowed(rules, OS::MacOS);
    assert forall|os: OS| listed.contains(os) <==> allows_system(rules, os) by {
        if allows_system(rules, os) {
            let at: int = match os {
                OS::Windows => 0,
                OS::MacOS => windows.len() as int,
                OS::Linux => (windows.len() + macos.len()) as int,
            };
            assert(listed[at] == os);
        }
    }
}

/// A chain without rules allows every operating system.
pub proof fn lemma_no_rules_target_all()
    ensures
        targeted_systems(Seq::<Rule>::empty()) == seq![OS::Windows, OS::MacOS, OS::Linux],
{
    assert(targeted_systems(Seq::<Rule>::empty()) =~= seq![OS::Windows, OS::MacOS, OS::Linux]);
}

/// Where the rules of a chain only name operating systems, neither the
/// architecture nor the features play a part: the chain allows a system
/// exactly when it allows every environment with that system.
pub proof fn lemma_named_systems_decide(
    rules: Seq<Rule>,
    os: OS,
    arch: Arch,
    active: Features,
)
    requires
        names_systems_only(rules),
    ensures
        chain_allows(rules, Environment { os, arch }, active) == allows_system(rules, os),
{
    lemma_last_match_reads_system_only(rules, os, arch, active, Arch::X86, Features::none());
    lemma_last_match_reads_system_only(rules, os, arch, active, Arch::X64, Features::none());
    lemma_last_match_reads_system_only(rules, os, arch, active, Arch::Arm64, Features::none());
}

/// Where the rules of a chain only name operating systems, the last match
/// is the same on any two architectures and any two sets of features.
proof fn lemma_last_match_reads_system_only(
    rules: Seq<Rule>,
    os: OS,
    arch: Arch,
    active: Features,
    other_arch: Arch,
    other_active: Features,
)
    requires
        names_systems_only(rules),
    ensures
        last_match_allows(rules, Environment { os, arch }, active) == last_match_allows(
            rules,
            Environment { os, arch: other_arch },
            other_active,
        ),
    decreases rules.len(),
{
    if rules.len() > 0 {
        let front = rules.drop_last();
        assert(rules[rules.len() - 1].features is None);
        assert forall|i: int| 0 <= i < front.len() implies (#[trigger] front[i]).features is None && (
        front[i].os matches Some(os) ==> os.arch is None) by {
            assert(front[i] == rules[i]);
        }
        lemma_last_match_reads_system_only(front, os, arch, active, other_arch, other_active);
    }
}

/// How many of the libraries are meant for an operating system.
pub open spec fn mentions(libraries: Seq<LibraryModel>, os: OS) -> nat
    decreases libraries.len(),
{
    if libraries.len() == 0 {
        0
    } else {
        mentions(libraries.drop_last(), os) + if allows_system(libraries.last().rules, os) {
            1nat
        } else {
            0nat
        }
    }
}

/// For each operating system, how many libraries are meant for it.
pub struct Tally {
    pub windows: nat,
    pub macos: nat,
    pub linux: nat,
}

impl Tally {
    /// The tally of a list of libraries.
    pub open spec fn of(libraries: Seq<LibraryModel>) -> Tally {
        Tally {
            windows: mentions(libraries, OS::Windows),
            macos: mentions(libraries, OS::MacOS),
            linux: mentions(libraries, OS::Linux),
        }
    }

    /// How many libraries are meant for an operating system.
    pub open spec fn count(self, os: OS) -> nat {
        match os {
            OS::Windows => self.windows,
            OS::MacOS => self.macos,
            OS::Linux => self.linux,
        }
    }

    /// `a` is listed before `b`: more libraries are meant for it, or as
    /// many and its name comes first.
    pub open spec fn outranks(self, a: OS, b: OS) -> bool {
        self.count(a) > self.count(b) || (self.count(a) == self.count(b) && name_order(a)
            < name_order(b))
    }

    /// How many operating systems are listed before `os`.
    pub open spec fn place(self, os: OS) -> nat {
        (if self.outranks(OS::Linux, os) {
            1nat
        } else {
            0nat
        }) + (if self.outranks(OS::MacOS, os) {
            1nat
        } else {
            0nat
        }) + (if self.outranks(OS::Windows, os) {
            1nat
        } else {
            0nat
        })
    }

    /// The operating system at a place.
    pub open spec fn at_place(self, place: nat) -> OS {
        if self.place(OS::Linux) == place {
            OS::Linux
        } else if self.place(OS::MacOS) == place {
            OS::MacOS
        } else {
            OS::Windows
        }
    }

    /// The operating system at a place, if any library is meant for it.
    pub open spec fn listed_at(self, place: nat) -> Seq<OS> {
        if self.count(self.at_place(place)) > 0 {
            seq![self.at_place(place)]
        } else {
            Seq::empty()
        }
    }

    /// The operating systems that at least one library is meant for, the
    /// one with the most libraries first; of two with as many, the one
    /// whose name comes first.
    pub open spec fn ranking(self) -> Seq<OS> {
        self.listed_at(0) + self.listed_at(1) + self.listed_at(2)
    }

    /// One part of the summary: name, colon, space, count.
    pub open spec fn entry(self, os: OS) -> Seq<char> {
        display_name(os) + seq![':', ' '] + decimal(self.count(os))
    }

    /// The summary: the entries of the ranking, separated by a comma and a
    /// space.
    pub open spec fn summary(self) -> Seq<char> {
        joined(self.ranking().map_values(|os: OS| self.entry(os)), seq![',', ' '])
    }
}

/// The place of a name among the names, in the order of their characters:
/// `linux`, then `macOS`, then `windows`.
pub open spec fn name_order(os: OS) -> nat {
    match os {
        OS::Linux => 0,
        OS::MacOS => 1,
        OS::Windows => 2,
    }
}

/// The name under which the summary lists an operating system.
pub open spec fn display_name(os: OS) -> Seq<char> {
    match os {
        OS::Windows => seq!['w', 'i', 'n', 'd', 'o', 'w', 's'],
        OS::MacOS => seq!['m', 'a', 'c', 'O', 'S'],
        OS::Linux => seq!['l', 'i', 'n', 'u', 'x'],
    }
}

/// The ranking lists exactly the operating systems that at least one
/// library is meant for, each of them once, and every one of them outranks
/// those after it.
pub proof fn lemma_ranking_is_sorted(tally: Tally)
    ensures
        forall|os: OS| tally.ranking().contains(os) <==> tally.count(os) > 0,
        forall|i: int, j: int|
            0 <= i < j < tally.ranking().len() ==> tally.outranks(
                #[trigger] tally.ranking()[i],
                #[trigger] tally.ranking()[j],
            ),
{
    let ranking = tally.ranking();
    let first = tally.listed_at(0);
    let second = tally.listed_at(1);
    let third = tally.listed_at(2);
    assert(ranking =~= first + second + third);
    assert(tally.place(OS::Linux) <= 2 && tally.place(OS::MacOS) <= 2 && tally.place(OS::Windows) <= 2);
    assert forall|os: OS| ranking.contains(os) <==> tally.count(os) > 0 by {
        if tally.count(os) > 0 {
            let place = tally.place(os);
            assert(tally.at_place(place) == os);
            let at: int = if place == 0 {
                0
            } else if place == 1 {
                first.len() as int
            } else {
                (first.len() + second.len()) as int
            };
            assert(ranking[at] == os);
        }
    }
}

/// The key under which the count of an operating system is kept: the place
/// of its name among the names.
spec fn key_of(os: OS) -> u8 {
    name_order(os) as u8
}

/// The count that is kept for an operating system; none kept is zero.
spec fn kept_count(counts: Map<u8, u128>, os: OS) -> nat {
    if counts.contains_key(key_of(os)) {
        counts[key_of(os)] as nat
    } else {
        0
    }
}

/// The tally that the kept counts make.
spec fn kept_tally(counts: Map<u8, u128>) -> Tally {
    Tally {
        windows: kept_count(counts, OS::Windows),
        macos: kept_count(counts, OS::MacOS),
        linux: kept_count(counts, OS::Linux),
    }
}

/// How often an operating system occurs in a list.
spec fn occurrences(list: Seq<OS>, os: OS) -> nat
    decreases list.len(),
{
    if list.len() == 0 {
        0
    } else {
        occurrences(list.drop_last(), os) + if list.last() == os {
            1nat
        } else {
            0nat
        }
    }
}

/// An operating system occurs once among the targeted systems of a chain
/// that allows it, and not at all among those of any other.
proof fn lemma_occurs_once_if_allowed(rules: Seq<Rule>, os: OS)
    ensures
        occurrences(targeted_systems(rules), os) == if allows_system(rules, os) {
            1nat
        } else {
            0nat
        },
{
    let windows = system_if_allowed(rules, OS::Windows);
    let macos = system_if_allowed(rules, OS::MacOS);
    let linux = system_if_allowed(rules, OS::Linux);
    lemma_occurrences_add(windows, macos, os);
    lemma_occurrences_add(windows + macos, linux, os);
    reveal_with_fuel(occurrences, 2);
    assert(windows.len() <= 1 && macos.len() <= 1 && linux.len() <= 1);
    assert(seq![OS::Windows].drop_last() =~= Seq::<OS>::empty());
    assert(seq![OS::MacOS].drop_last() =~= Seq::<OS>::empty());
    assert(seq![OS::Linux].drop_last() =~= Seq::<OS>::empty());
}

/// The occurrences in two lists add up in the list that the two make.
proof fn lemma_occurrences_add(first: Seq<OS>, second: Seq<OS>, os: OS)
    ensures
        occurrences(first + second, os) == occurrences(first, os) + occurrences(second, os),
    decreases second.len(),
{
    if second.len() == 0 {
        assert(first + second =~= first);
    } else {
        assert((first + second).drop_last() =~= first + second.drop_last());
        lemma_occurrences_add(first, second.drop_last(), os);
    }
}

fn name_place(os: OS) -> (place: u8)
    ensures
        place == name_order(os),
        place == key_of(os),
{
    match os {
        OS::Linux => 0,
        OS::MacOS => 1,
        OS::Windows => 2,
    }
}

fn name_of(os: OS) -> (name: &'static str)
    ensures
        name@ == display_name(os),
{
    proof {
        reveal_strlit("windows");
        reveal_strlit("macOS");
        reveal_strlit("linux");
    }
    let name = match os {
        OS::Windows => "windows",
        OS::MacOS => "macOS",
        OS::Linux => "linux",
    };
    assert(name@ =~= display_name(os));
    name
}

/// The count that is kept for an operating system.
fn count_of(counts: &HashMap<u8, u128>, os: OS) -> (count: u128)
    ensures
        count == kept_count(counts@, os),
{
    let key: u8 = name_place(os);
    match counts.get(&key) {
        Some(count) => *count,
        None => 0,
    }
}

fn outranks(counts: &HashMap<u8, u128>, a: OS, b: OS) -> (before: bool)
    ensures
        before == kept_tally(counts@).outranks(a, b),
{
    let a_count: u128 = count_of(counts, a);
    let b_count: u128 = count_of(counts, b);
    a_count > b_count || (a_count == b_count && name_place(a) < name_place(b))
}

fn place_of(counts: &HashMap<u8, u128>, os: OS) -> (place: u8)
    ensures
        place == kept_tally(counts@).place(os),
{
    let mut place: u8 = 0;
    if outranks(counts, OS::Linux, os) {
        place += 1;
    }
    if outranks(counts, OS::MacOS, os) {
        place += 1;
    }
    if outranks(counts, OS::Windows, os) {
        place += 1;
    }
    place
}

fn at_place(counts: &HashMap<u8, u128>, place: u8) -> (os: OS)
    ensures
        os == kept_tally(counts@).at_place(place as nat),
{
    if place_of(counts, OS::Linux) == place {
        OS::Linux
    } else if place_of(counts, OS::MacOS) == place {
        OS::MacOS
    } else {
        OS::Windows
    }
}

/// Counts for each operating system the libraries that are meant for it.
fn count_targets(libraries: &[Library]) -> (counts: HashMap<u8, u128>)
    ensures
        kept_tally(counts@) == Tally::of(libraries.deep_view()),
{
    let mut counts: HashMap<u8, u128> = HashMap::new();
    let mut i: usize = 0;
    while i < libraries.len()
        invariant
            i <= libraries.len(),
            kept_tally(counts@) == Tally::of(libraries.deep_view().take(i as int)),
            kept_count(counts@, OS::Windows) <= i * 0xffff_ffff_ffff_ffff,
            kept_count(counts@, OS::MacOS) <= i * 0xffff_ffff_ffff_ffff,
            kept_count(counts@, OS::Linux) <= i * 0xffff_ffff_ffff_ffff,
        decreases libraries.len() - i,
    {
        let targets = libraries[i].target_os();
        let ghost before = kept_tally(counts@);
        let mut j: usize = 0;
        while j < targets.len()
            invariant
                j <= targets.len(),
                i < libraries.len(),
                kept_count(counts@, OS::Windows) == before.windows + occurrences(
                    targets@.take(j as int),
                    OS::Windows,
                ),
                kept_count(counts@, OS::MacOS) == before.macos + occurrences(
                    targets@.take(j as int),
                    OS::MacOS,
                ),
                kept_count(counts@, OS::Linux) == before.linux + occurrences(
                    targets@.take(j as int),
                    OS::Linux,
                ),
                kept_count(counts@, OS::Windows) <= i * 0xffff_ffff_ffff_ffff + j,
                kept_count(counts@, OS::MacOS) <= i * 0xffff_ffff_ffff_ffff + j,
                kept_count(counts@, OS::Linux) <= i * 0xffff_ffff_ffff_ffff + j,
            decreases targets.len() - j,
        {
            assert(targets@.take(j + 1).drop_last() =~= targets@.take(j as int));
            let os = targets[j];
            let so_far: u128 = count_of(&counts, os);
            counts.insert(name_place(os), so_far + 1);
            j += 1;
        }
        proof {
            assert(targets@.take(j as int) =~= targets@);
            let seen = libraries.deep_view().take(i + 1);
            assert(seen.drop_last() =~= libraries.deep_view().take(i as int));
            assert(seen.last().rules == libraries@[i as int].rules@);
            lemma_occurs_once_if_allowed(seen.last().rules, OS::Windows);
            lemma_occurs_once_if_allowed(seen.last().rules, OS::MacOS);
            lemma_occurs_once_if_allowed(seen.last().rules, OS::Linux);
        }
        i += 1;
    }
    assert(libraries.deep_view().take(i as int) =~= libraries.deep_view());
    counts
}

/// Appends one entry of the summary, after a separator unless it is the
/// first.
fn append_entry(out: &mut String, counts: &HashMap<u8, u128>, os: OS, first: bool)
    ensures
        final(out)@ == old(out)@ + (if first {
            Seq::<char>::empty()
        } else {
            seq![',', ' ']
        }) + kept_tally(counts@).entry(os),
{
    proof {
        reveal_strlit(", ");
        reveal_strlit(": ");
    }
    if !first {
        out.append(", ");
    }
    let ghost start = out@;
    assert(start =~= old(out)@ + (if first {
        Seq::<char>::empty()
    } else {
        seq![',', ' ']
    }));
    out.append(name_of(os));
    out.append(": ");
    append_decimal(out, count_of(counts, os));
    assert(out@ =~= start + kept_tally(counts@).entry(os));
}

/// Summarises which operating systems the libraries are meant for: for
/// each system that at least one library is meant for, `name: count` with
/// the number of those libraries, separated by a comma and a space, the
/// system with the most libraries first; of two with as many, the one whose
/// name comes first. The names are `linux`, `macOS` and `windows`. A
/// library is meant for the systems that `Library::target_os` gives.
/// Without libraries the summary is empty.
pub fn summarize_libraries(libraries: &[Library]) -> (summary: String)
    ensures
        summary@ == Tally::of(libraries.deep_view()).summary(),
{
    let counts = count_targets(libraries);
    let ghost tally = kept_tally(counts@);
    let ghost separator = seq![',', ' '];
    let ghost mut listed: Seq<OS> = Seq::empty();
    let mut summary = String::new();
    let mut any: bool = false;
    let mut place: u8 = 0;
    assert(listed.map_values(|os: OS| tally.entry(os)) =~= Seq::<Seq<char>>::empty());
    while place < 3
        invariant
            place <= 3,
            tally == kept_tally(counts@),
            separator == seq![',', ' '],
            any == (listed.len() > 0),
            listed == (if place >= 1 {
                tally.listed_at(0)
            } else {
                Seq::empty()
            }) + (if place >= 2 {
                tally.listed_at(1)
            } else {
                Seq::empty()
            }) + (if place >= 3 {
                tally.listed_at(2)
            } else {
                Seq::empty()
            }),
            summary@ == joined(listed.map_values(|os: OS| tally.entry(os)), separator),
        decreases 3 - place,
    {
        let os = at_place(&counts, place);
        let ghost before = listed;
        if count_of(&counts, os) > 0 {
            append_entry(&mut summary, &counts, os, !any);
            proof {
                listed = before.push(os);
                let parts = listed.map_values(|os: OS| tally.entry(os));
                assert(parts.drop_last() =~= before.map_values(|os: OS| tally.entry(os)));
                assert(parts.last() == tally.entry(os));
                assert(summary@ =~= joined(parts, separator));
            }
            any = true;
        }
        assert(listed =~= before + tally.listed_at(place as nat));
        place += 1;
        assert(listed =~= (if place >= 1 {
            tally.listed_at(0)
        } else {
            Seq::empty()
        }) + (if place >= 2 {
            tally.listed_at(1)
        } else {
            Seq::empty()
        }) + (if place >= 3 {
            tally.listed_at(2)
        } else {
            Seq::empty()
        }));
    }
    summary
}

} // verus!
