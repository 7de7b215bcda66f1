//! Download tasks, and the order of the steps by which they are carried
//! out.

use vstd::prelude::*;

verus! {

/// One file to fetch: from where, and to where.
#[derive(Debug, Clone, PartialEq, Eq)]
pub struct DownloadTask {
    pub dest: String,
    pub url: String,
}

/// What a `DownloadTask` holds.
pub struct DownloadTaskModel {
    pub dest: Seq<char>,
    pub url: Seq<char>,
}

impl DeepView for DownloadTask {
    type V = DownloadTaskModel;

    open spec fn deep_view(&self) -> DownloadTaskModel {
        DownloadTaskModel { dest: self.dest@, url: self.url@ }
    }
}

/// What the executor waits for.
#[derive(Debug, Clone, Copy, PartialEq, Eq, Structural)]
pub enum Stage {
    /// Whether the destination of the task exists.
    Checking,
    /// The directories above the destination.
    CreatingDirs,
    /// The content behind the url.
    Fetching,
    /// The content to be written to the destination.
    Writing,
    /// Nothing: the batch is done or was given up.
    Stopped,
}

/// How far the executor has come: the task it is at, and what it waits for.
#[derive(Debug, Clone, Copy, PartialEq, Eq, Structural)]
pub struct Progress {
    pub position: usize,
    pub stage: Stage,
}

/// The step at which a batch was given up.
#[derive(Debug, Clone, Copy, PartialEq, Eq, Structural)]
pub enum FailedStep {
    CreateDirs,
    Fetch,
    Write,
    /// An event arrived that the executor was not waiting for.
    OutOfTurn,
}

/// Why a batch was given up: the first failure, with the task it befell.
#[derive(Debug, Clone, PartialEq, Eq)]
pub struct DownloadFailure {
    pub task: usize,
    pub step: FailedStep,
    pub message: String,
}

/// What the surroundings report back to the executor.
#[derive(Debug, Clone, PartialEq, Eq)]
pub enum Event {
    /// Whether a file exists at the path that was asked about.
    Exists(bool),
    /// The directories above the destination exist now.
    DirsCreated,
    /// The content behind the url.
    Fetched(Vec<u8>),
    /// The content was written.
    Written,
    /// What was asked for could not be done.
    Failed(String),
}

/// What the executor asks of its surroundings.
#[derive(Debug, Clone, PartialEq, Eq)]
pub enum Action {
    /// Report whether a file exists at `path`.
    CheckExists { path: String },
    /// Make sure that the directories above `path` exist.
    CreateParentDirs { path: String },
    /// Fetch the content behind `url`.
    Fetch { url: String },
    /// Write `bytes` to `path`, all of them in one write.
    Write { path: String, bytes: Vec<u8> },
    /// Every task was carried out or skipped.
    Done,
    /// The batch is given up; the tasks that are left are not touched.
    Abort(DownloadFailure),
}

/// What a `DownloadFailure` holds.
pub struct DownloadFailureModel {
    pub task: usize,
    pub step: FailedStep,
    pub message: Seq<char>,
}

/// What an `Event` holds.
pub enum EventModel {
    Exists(bool),
    DirsCreated,
    Fetched(Seq<u8>),
    Written,
    Failed(Seq<char>),
}

/// What an `Action` holds.
pub enum ActionModel {
    CheckExists { path: Seq<char> },
    CreateParentDirs { path: Seq<char> },
    Fetch { url: Seq<char> },
    Write { path: Seq<char>, bytes: Seq<u8> },
    Done,
    Abort(DownloadFailureModel),
}

impl DeepView for DownloadFailure {
    type V = DownloadFailureModel;

    open spec fn deep_view(&self) -> DownloadFailureModel {
        DownloadFailureModel { task: self.task, step: self.step, message: self.message@ }
    }
}

impl DeepView for Event {
    type V = EventModel;

    open spec fn deep_view(&self) -> EventModel {
        match self {
            Event::Exists(present) => EventModel::Exists(*present),
            Event::DirsCreated => EventModel::DirsCreated,
            Event::Fetched(bytes) => EventModel::Fetched(bytes@),
            Event::Written => EventModel::Written,
            Event::Failed(message) => EventModel::Failed(message@),
        }
    }
}

impl DeepView for Action {
    type V = ActionModel;

    open spec fn deep_view(&self) -> ActionModel {
        match self {
            Action::CheckExists { path } => ActionModel::CheckExists { path: path@ },
            Action::CreateParentDirs { path } => ActionModel::CreateParentDirs { path: path@ },
            Action::Fetch { url } => ActionModel::Fetch { url: url@ },
            Action::Write { path, bytes } => ActionModel::Write { path: path@, bytes: bytes@ },
            Action::Done => ActionModel::Done,
            Action::Abort(failure) => ActionModel::Abort(failure.deep_view()),
        }
    }
}

impl ActionModel {
    /// The action ends the run.
    pub open spec fn is_final(self) -> bool {
        self is Done || self is Abort
    }
}

/// The executor at the end of its run.
pub open spec fn stopped(position: usize) -> Progress {
    Progress { position, stage: Stage::Stopped }
}

/// Turning to task `position`: where there is such a task, the executor
/// asks whether its destination exists; where the tasks are used up, it is
/// done.
pub open spec fn turn_to(tasks: Seq<DownloadTaskModel>, position: usize) -> (Progress, ActionModel) {
    if position < tasks.len() {
        (
            Progress { position, stage: Stage::Checking },
            ActionModel::CheckExists { path: tasks[position as int].dest },
        )
    } else {
        (stopped(position), ActionModel::Done)
    }
}

/// Giving the batch up at the task the executor is at.
pub open spec fn give_up(progress: Progress, step: FailedStep, message: Seq<char>) -> (
    Progress,
    ActionModel,
) {
    (
        stopped(progress.position),
        ActionModel::Abort(DownloadFailureModel { task: progress.position, step, message }),
    )
}

/// The first step of a run.
pub open spec fn first_step(tasks: Seq<DownloadTaskModel>) -> (Progress, ActionModel) {
    turn_to(tasks, 0)
}

/// What the executor does on an event. For each task in order: a
/// destination that exists is skipped; for any other the directories above
/// it are created, the content is fetched, and the content is written. The
/// first failure gives the batch up, and so does an event that the executor
/// was not waiting for.
pub open spec fn next_step(tasks: Seq<DownloadTaskModel>, progress: Progress, event: EventModel) -> (
    Progress,
    ActionModel,
) {
    let position = progress.position;
    if position >= tasks.len() {
        give_up(progress, FailedStep::OutOfTurn, Seq::empty())
    } else {
        let task = tasks[position as int];
        match (progress.stage, event) {
            (Stage::Checking, EventModel::Exists(true)) => turn_to(tasks, (position + 1) as usize),
            (Stage::Checking, EventModel::Exists(false)) => (
                Progress { position, stage: Stage::CreatingDirs },
                ActionModel::CreateParentDirs { path: task.dest },
            ),
            (Stage::CreatingDirs, EventModel::DirsCreated) => (
                Progress { position, stage: Stage::Fetching },
                ActionModel::Fetch { url: task.url },
            ),
            (Stage::CreatingDirs, EventModel::Failed(message)) => give_up(
                progress,
                FailedStep::CreateDirs,
                message,
            ),
            (Stage::Fetching, EventModel::Fetched(bytes)) => (
                Progress { position, stage: Stage::Writing },
                ActionModel::Write { path: task.dest, bytes },
            ),
            (Stage::Fetching, EventModel::Failed(message)) => give_up(
                progress,
                FailedStep::Fetch,
                message,
            ),
            (Stage::Writing, EventModel::Written) => turn_to(tasks, (position + 1) as usize),
            (Stage::Writing, EventModel::Failed(message)) => give_up(
                progress,
                FailedStep::Write,
                message,
            ),
            _ => give_up(progress, FailedStep::OutOfTurn, Seq::empty()),
        }
    }
}

fn turn(tasks: &[DownloadTask], position: usize) -> (step: (Progress, Action))
    ensures
        (step.0, step.1.deep_view()) == turn_to(tasks.deep_view(), position),
{
    if position < tasks.len() {
        (
            Progress { position, stage: Stage::Checking },
            Action::CheckExists { path: tasks[position].dest.clone() },
        )
    } else {
        (Progress { position, stage: Stage::Stopped }, Action::Done)
    }
}

fn abandon(progress: Progress, step: FailedStep, message: String) -> (end: (Progress, Action))
    ensures
        (end.0, end.1.deep_view()) == give_up(progress, step, message@),
{
    (
        Progress { position: progress.position, stage: Stage::Stopped },
        Action::Abort(DownloadFailure { task: progress.position, step, message }),
    )
}

/// Begins a run over the tasks: says what to do first.
pub fn begin(tasks: &[DownloadTask]) -> (step: (Progress, Action))
    ensures
        (step.0, step.1.deep_view()) == first_step(tasks.deep_view()),
{
    turn(tasks, 0)
}

/// Takes the event that answers the last action, and says what to do next.
pub fn advance(tasks: &[DownloadTask], progress: Progress, event: Event) -> (step: (Progress, Action))
    ensures
        (step.0, step.1.deep_view()) == next_step(tasks.deep_view(), progress, event.deep_view()),
{
    let position: usize = progress.position;
    if position >= tasks.len() {
        return abandon(progress, FailedStep::OutOfTurn, String::new());
    }
    let task = &tasks[position];
    assert(task.deep_view() == tasks.deep_view()[position as int]);
    match progress.stage {
        Stage::Checking => match event {
            Event::Exists(true) => turn(tasks, position + 1),
            Event::Exists(false) => (
                Progress { position, stage: Stage::CreatingDirs },
                Action::CreateParentDirs { path: task.dest.clone() },
            ),
            _ => abandon(progress, FailedStep::OutOfTurn, String::new()),
        },
        Stage::CreatingDirs => match event {
            Event::DirsCreated => (
                Progress { position, stage: Stage::Fetching },
                Action::Fetch { url: task.url.clone() },
            ),
            Event::Failed(message) => abandon(progress, FailedStep::CreateDirs, message),
            _ => abandon(progress, FailedStep::OutOfTurn, String::new()),
        },
        Stage::Fetching => match event {
            Event::Fetched(bytes) => (
                Progress { position, stage: Stage::Writing },
                Action::Write { path: task.dest.clone(), bytes },
            ),
            Event::Failed(message) => abandon(progress, FailedStep::Fetch, message),
            _ => abandon(progress, FailedStep::OutOfTurn, String::new()),
        },
        Stage::Writing => match event {
            Event::Written => turn(tasks, position + 1),
            Event::Failed(message) => abandon(progress, FailedStep::Write, message),
            _ => abandon(progress, FailedStep::OutOfTurn, String::new()),
        },
        Stage::Stopped => abandon(progress, FailedStep::OutOfTurn, String::new()),
    }
}

/// Surroundings in which nothing fails: the files that exist, with their
/// content, and the content that is served behind each url.
pub struct World {
    pub files: Map<Seq<char>, Seq<u8>>,
    pub served: spec_fn(Seq<char>) -> Seq<u8>,
}

impl World {
    /// A file exists at the path.
    pub open spec fn has(self, path: Seq<char>) -> bool {
        self.files.dom().contains(path)
    }

    /// The event with which these surroundings answer an action, and what
    /// they are afterwards. An action that ends the run is not answered;
    /// what stands for it here is never used.
    pub open spec fn answer(self, action: ActionModel) -> (World, EventModel) {
        match action {
            ActionModel::CheckExists { path } => (self, EventModel::Exists(self.has(path))),
            ActionModel::CreateParentDirs { path } => (self, EventModel::DirsCreated),
            ActionModel::Fetch { url } => (self, EventModel::Fetched((self.served)(url))),
            ActionModel::Write { path, bytes } => (
                World { files: self.files.insert(path, bytes), served: self.served },
                EventModel::Written,
            ),
            ActionModel::Done => (self, EventModel::Written),
            ActionModel::Abort(failure) => (self, EventModel::Written),
        }
    }
}

/// How a run ended.
pub struct Outcome {
    /// The surroundings after the run.
    pub world: World,
    /// The urls that were fetched, in the order of the fetches.
    pub fetched: Seq<Seq<char>>,
    /// The paths that were written, in the order of the writes.
    pub written: Seq<Seq<char>>,
    /// The action that ended the run.
    pub last: ActionModel,
}

/// The urls that an action fetches: its own, where it is a fetch.
pub open spec fn fetch_of(action: ActionModel) -> Seq<Seq<char>> {
    match action {
        ActionModel::Fetch { url } => seq![url],
        _ => Seq::empty(),
    }
}

/// The paths that an action writes: its own, where it is a write.
pub open spec fn write_of(action: ActionModel) -> Seq<Seq<char>> {
    match action {
        ActionModel::Write { path, bytes } => seq![path],
        _ => Seq::empty(),
    }
}

/// A bound on the actions that are still to come.
pub open spec fn steps_left(tasks: Seq<DownloadTaskModel>, progress: Progress, action: ActionModel) -> nat {
    if action.is_final() {
        0
    } else if progress.position >= tasks.len() {
        1
    } else {
        let ahead = 4 * (tasks.len() - progress.position);
        (match progress.stage {
            Stage::Checking => ahead + 1,
            Stage::CreatingDirs => ahead,
            Stage::Fetching => ahead - 1,
            Stage::Writing => ahead - 2,
            Stage::Stopped => 1,
        }) as nat
    }
}

/// The run that is left when the executor, at `progress`, has asked for
/// `action`: the surroundings answer, the executor takes its next step, and
/// so on until an action ends the run.
pub open spec fn run_from(
    tasks: Seq<DownloadTaskModel>,
    progress: Progress,
    action: ActionModel,
    world: World,
) -> Outcome
    decreases steps_left(tasks, progress, action),
    when tasks.len() <= usize::MAX
{
    if action.is_final() {
        Outcome { world, fetched: Seq::empty(), written: Seq::empty(), last: action }
    } else {
        let (after, event) = world.answer(action);
        let (then, asked) = next_step(tasks, progress, event);
        let rest = run_from(tasks, then, asked, after);
        Outcome {
            world: rest.world,
            fetched: fetch_of(action) + rest.fetched,
            written: write_of(action) + rest.written,
            last: rest.last,
        }
    }
}

/// A whole run over the tasks.
pub open spec fn run(tasks: Seq<DownloadTaskModel>, world: World) -> Outcome {
    run_from(tasks, first_step(tasks).0, first_step(tasks).1, world)
}

/// Every task from `position` on has a file at its destination.
pub open spec fn all_present_from(tasks: Seq<DownloadTaskModel>, position: int, world: World) -> bool {
    forall|i: int| position <= i < tasks.len() ==> world.has((#[trigger] tasks[i]).dest)
}

/// Every file of `before` is in `after`, with the content it had.
pub open spec fn keeps_files(before: World, after: World) -> bool {
    forall|path: Seq<char>| #[trigger]
        before.has(path) ==> after.has(path) && after.files[path] == before.files[path]
}

/// What holds of the rest of a run that turns to task `position`, where
/// nothing fails: it ends with `Done`; it leaves a file at the destination
/// of every task that was still to come; it changes no file that was there;
/// it writes as often as it fetches, no path twice and none at which a file
/// was; and where all those destinations had a file already, it fetches
/// nothing and leaves the surroundings as they were.
pub proof fn lemma_rest_of_run(tasks: Seq<DownloadTaskModel>, position: usize, world: World)
    requires
        tasks.len() <= usize::MAX,
        position <= tasks.len(),
    ensures
        ({
            let out = run_from(
                tasks,
                turn_to(tasks, position).0,
                turn_to(tasks, position).1,
                world,
            );
            &&& out.last is Done
            &&& out.world.served == world.served
            &&& all_present_from(tasks, position as int, out.world)
            &&& keeps_files(world, out.world)
            &&& out.written.len() == out.fetched.len()
            &&& out.written.no_duplicates()
            &&& forall|k: int| 0 <= k < out.written.len() ==> !world.has(#[trigger] out.written[k])
            &&& all_present_from(tasks, position as int, world) ==> out.fetched == Seq::<
                Seq<char>,
            >::empty() && out.world == world
        }),
    decreases tasks.len() - position,
{
    let (progress, check) = turn_to(tasks, position);
    let out = run_from(tasks, progress, check, world);
    if position < tasks.len() {
        let task = tasks[position as int];
        let following = (position + 1) as usize;
        let (then, asked) = turn_to(tasks, following);
        if world.has(task.dest) {
            assert(next_step(tasks, progress, EventModel::Exists(true)) == (then, asked));
            lemma_rest_of_run(tasks, following, world);
            let rest = run_from(tasks, then, asked, world);
            assert(out.fetched =~= rest.fetched);
            assert(out.written =~= rest.written);
            assert(out.world == rest.world);
            assert(out.last == rest.last);
            assert forall|i: int| position <= i < tasks.len() implies out.world.has(
                (#[trigger] tasks[i]).dest,
            ) by {
                if i == position {
                    assert(world.has(tasks[i].dest));
                }
            }
            if all_present_from(tasks, position as int, world) {
                assert(all_present_from(tasks, following as int, world));
            }
        } else {
            let dirs = Progress { position, stage: Stage::CreatingDirs };
            let make = ActionModel::CreateParentDirs { path: task.dest };
            let fetching = Progress { position, stage: Stage::Fetching };
            let fetch = ActionModel::Fetch { url: task.url };
            let writing = Progress { position, stage: Stage::Writing };
            let bytes = (world.served)(task.url);
            let write = ActionModel::Write { path: task.dest, bytes };
            let written = World { files: world.files.insert(task.dest, bytes), served: world.served };
            assert(next_step(tasks, progress, EventModel::Exists(false)) == (dirs, make));
            assert(next_step(tasks, dirs, EventModel::DirsCreated) == (fetching, fetch));
            assert(next_step(tasks, fetching, EventModel::Fetched(bytes)) == (writing, write));
            assert(next_step(tasks, writing, EventModel::Written) == (then, asked));
            let rest = run_from(tasks, then, asked, written);
            let at_write = run_from(tasks, writing, write, world);
            let at_fetch = run_from(tasks, fetching, fetch, world);
            let at_dirs = run_from(tasks, dirs, make, world);
            assert(at_write.world == rest.world && at_write.last == rest.last);
            assert(at_write.fetched =~= rest.fetched);
            assert(at_write.written =~= seq![task.dest] + rest.written);
            assert(at_fetch.world == rest.world && at_fetch.last == rest.last);
            assert(at_fetch.fetched =~= seq![task.url] + rest.fetched);
            assert(at_fetch.written =~= at_write.written);
            assert(at_dirs.world == rest.world && at_dirs.last == rest.last);
            assert(at_dirs.fetched =~= at_fetch.fetched);
            assert(at_dirs.written =~= at_fetch.written);
            assert(out.world == rest.world && out.last == rest.last);
            assert(out.fetched =~= at_dirs.fetched);
            assert(out.written =~= at_dirs.written);
            lemma_rest_of_run(tasks, following, written);
            assert(written.has(task.dest));
            assert forall|i: int| position <= i < tasks.len() implies out.world.has(
                (#[trigger] tasks[i]).dest,
            ) by {
                if i == position {
                    assert(written.has(tasks[i].dest));
                }
            }
            assert forall|path: Seq<char>| #[trigger] world.has(path) implies out.world.has(path)
                && out.world.files[path] == world.files[path] by {
                assert(written.has(path));
            }
            assert forall|k: int| 0 <= k < out.written.len() implies !world.has(
                #[trigger] out.written[k],
            ) by {
                if k > 0 {
                    assert(out.written[k] == rest.written[k - 1]);
                    assert(!written.has(rest.written[k - 1]));
                }
            }
            assert forall|j: int, k: int|
                0 <= j < out.written.len() && 0 <= k < out.written.len() && j != k implies out.written[j]
                != out.written[k] by {
                if j > 0 {
                    assert(out.written[j] == rest.written[j - 1]);
                    assert(!written.has(rest.written[j - 1]));
                }
                if k > 0 {
                    assert(out.written[k] == rest.written[k - 1]);
                    assert(!written.has(rest.written[k - 1]));
                }
            }
            assert(!all_present_from(tasks, position as int, world));
        }
    }
}

/// A run in which nothing fails ends with `Done`, leaves a file at the
/// destination of every task, and changes no file that was there before. It
/// writes once for each fetch, and no path twice.
pub proof fn lemma_run_completes(tasks: Seq<DownloadTaskModel>, world: World)
    requires
        tasks.len() <= usize::MAX,
    ensures
        run(tasks, world).last is Done,
        all_present_from(tasks, 0, run(tasks, world).world),
        keeps_files(world, run(tasks, world).world),
        run(tasks, world).written.len() == run(tasks, world).fetched.len(),
        run(tasks, world).written.no_duplicates(),
{
    lemma_rest_of_run(tasks, 0, world);
}

/// A run over tasks whose destinations all exist fetches nothing, writes
/// nothing and ends with `Done`, whatever the files hold.
pub proof fn lemma_nothing_fetched_when_present(tasks: Seq<DownloadTaskModel>, world: World)
    requires
        tasks.len() <= usize::MAX,
        all_present_from(tasks, 0, world),
    ensures
        run(tasks, world).fetched == Seq::<Seq<char>>::empty(),
        run(tasks, world).written == Seq::<Seq<char>>::empty(),
        run(tasks, world).world == world,
        run(tasks, world).last is Done,
{
    lemma_rest_of_run(tasks, 0, world);
    assert(run(tasks, world).written =~= Seq::<Seq<char>>::empty());
}

/// Running the same plan a second time fetches nothing: after a first run
/// in which nothing failed every destination exists, and the second run
/// skips them all.
pub proof fn lemma_second_run_fetches_nothing(tasks: Seq<DownloadTaskModel>, world: World)
    requires
        tasks.len() <= usize::MAX,
    ensures
        run(tasks, run(tasks, world).world).fetched == Seq::<Seq<char>>::empty(),
        run(tasks, run(tasks, world).world).written == Seq::<Seq<char>>::empty(),
        run(tasks, run(tasks, world).world).world == run(tasks, world).world,
        run(tasks, run(tasks, world).world).last is Done,
{
    lemma_run_completes(tasks, world);
    lemma_nothing_fetched_when_present(tasks, run(tasks, world).world);
}

/// The first failure ends the batch: on a failure the executor stops and
/// gives the batch up, and whatever is reported to it afterwards, it asks
/// for nothing more.
pub proof fn lemma_failure_ends_the_batch(
    tasks: Seq<DownloadTaskModel>,
    progress: Progress,
    message: Seq<char>,
    later: EventModel,
)
    ensures
        next_step(tasks, progress, EventModel::Failed(message)).0.stage == Stage::Stopped,
        next_step(tasks, progress, EventModel::Failed(message)).1 is Abort,
        next_step(tasks, stopped(progress.position), later).0 == stopped(progress.position),
        next_step(tasks, stopped(progress.position), later).1 is Abort,
{
}

} // verus!
