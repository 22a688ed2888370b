//! The synchronizer as a state machine: what it does next, given what came
//! back from what it asked for last.
//!
//! An operation walks the jobs of the catalog in up to three phases. Pulling
//! pulls each job's image and stops at the first pull that fails. Pushing
//! resolves the listing of each job's image through the cache, asking the
//! registry only for an image that the cache does not hold, and then
//! retags, pushes and removes each target; a failure is recorded and the
//! work goes on. Cleaning removes each job's image, and goes on after a
//! failure too.

use crate::error::ErrorKind;
use crate::plan::{push_script, Activity, CommandView, JobView};
use crate::registry::ListingView;
use vstd::prelude::*;

verus! {

/// What an operation is at.
#[derive(Clone, Copy, Debug, PartialEq, Eq, Structural)]
pub enum Phase {
    Pull,
    Push,
    Clean,
    Finished,
}

/// What the engine is asked to do.
pub enum OperationView {
    Pull,
    Push { registry: Seq<char>, clean: bool },
    Clean,
    Sync { registry: Seq<char>, clean: bool },
}

/// What the engine has asked for and waits to hear of.
pub enum PendingView {
    /// Nothing.
    Nothing,
    /// How a command ended.
    Exit { activity: Activity, context: Seq<char> },
    /// The tag listing of the image of this name.
    Listing(Seq<char>),
}

/// A failure and what it occurred for.
pub struct FailureModel {
    pub activity: Activity,
    pub context: Seq<char>,
    pub kind: ErrorKind,
}

/// What came back from the outside.
pub enum ReplyView {
    /// Nothing was asked for yet.
    Begin,
    /// The command could not be started.
    NotLaunched,
    /// The command ran and exited with this code, if it had one.
    Exited(Option<i32>),
    /// The fetch of a listing ended so.
    Listing(ListingView),
}

/// What the engine asks for next.
pub enum ActionView {
    /// Run this command.
    Run(CommandView),
    /// Fetch the tag listing of this image.
    Fetch { library: Option<Seq<char>>, repo: Seq<char> },
    /// Nothing: the operation is over.
    Finished,
}

/// The state of an operation.
pub struct EngineView {
    /// The declared tags, in the order of the catalog.
    pub jobs: Seq<JobView>,
    /// The registry that is pushed to.
    pub registry: Seq<char>,
    /// Whether a push follows the pull.
    pub push_after_pull: bool,
    /// Whether a clean follows the push.
    pub clean_after_push: bool,
    pub phase: Phase,
    /// The first job of the phase that is not dealt with yet.
    pub job: nat,
    /// The commands of the push under way that are not issued yet.
    pub queue: Seq<CommandView>,
    pub pending: PendingView,
    /// What the registry said of each image asked for in this run.
    pub cache: Map<Seq<char>, ListingView>,
    /// The failures that did not end the operation.
    pub failures: Seq<FailureModel>,
    /// The failure that ended the operation, if one did.
    pub fatal: Option<FailureModel>,
}

/// The state in which an operation on these jobs starts.
pub open spec fn initial(jobs: Seq<JobView>, operation: OperationView) -> EngineView {
    EngineView {
        jobs,
        registry: match operation {
            OperationView::Push { registry, .. } => registry,
            OperationView::Sync { registry, .. } => registry,
            _ => Seq::empty(),
        },
        push_after_pull: operation is Sync,
        clean_after_push: match operation {
            OperationView::Push { clean, .. } => clean,
            OperationView::Sync { clean, .. } => clean,
            _ => false,
        },
        phase: match operation {
            OperationView::Pull => Phase::Pull,
            OperationView::Sync { .. } => Phase::Pull,
            OperationView::Push { .. } => Phase::Push,
            OperationView::Clean => Phase::Clean,
        },
        job: 0,
        queue: Seq::empty(),
        pending: PendingView::Nothing,
        cache: Map::empty(),
        failures: Seq::empty(),
        fatal: None,
    }
}

/// A command succeeded when it ran and exited with code zero.
pub open spec fn succeeded(reply: ReplyView) -> bool {
    reply == ReplyView::Exited(Some(0i32))
}

/// The outcome of a fetch that a reply reports. A reply that is none to a
/// fetch counts as no answer from the registry.
pub open spec fn listing_in(reply: ReplyView) -> ListingView {
    match reply {
        ReplyView::Listing(r) => r,
        _ => Err(ErrorKind::RegistryUnreachable),
    }
}

/// A cache after an outcome was handed to it: what it holds stays, and what
/// it lacks is added.
pub open spec fn kept(cache: Map<Seq<char>, ListingView>, image: Seq<char>, outcome: ListingView) -> Map<
    Seq<char>,
    ListingView,
> {
    if cache.contains_key(image) {
        cache
    } else {
        cache.insert(image, outcome)
    }
}

/// Takes in the reply to what was asked for last. A failed pull ends the
/// operation; any other failed command is recorded; the outcome of a fetch
/// goes to the cache.
pub open spec fn settle(s: EngineView, reply: ReplyView) -> EngineView {
    match s.pending {
        PendingView::Nothing => s,
        PendingView::Exit { activity, context } => {
            if succeeded(reply) {
                EngineView { pending: PendingView::Nothing, ..s }
            } else {
                let failure = FailureModel {
                    activity,
                    context,
                    kind: ErrorKind::RuntimeInvocationFailed,
                };
                if s.phase == Phase::Pull {
                    EngineView {
                        pending: PendingView::Nothing,
                        phase: Phase::Finished,
                        fatal: Some(failure),
                        ..s
                    }
                } else {
                    EngineView {
                        pending: PendingView::Nothing,
                        failures: s.failures.push(failure),
                        ..s
                    }
                }
            }
        },
        PendingView::Listing(image) => EngineView {
            pending: PendingView::Nothing,
            cache: kept(s.cache, image, listing_in(reply)),
            ..s
        },
    }
}

/// How far a phase is from the end of the operation.
pub open spec fn phase_rank(phase: Phase) -> nat {
    match phase {
        Phase::Pull => 3,
        Phase::Push => 2,
        Phase::Clean => 1,
        Phase::Finished => 0,
    }
}

/// The phase that follows a phase whose jobs are done.
pub open spec fn next_phase(s: EngineView) -> Phase {
    match s.phase {
        Phase::Pull => if s.push_after_pull {
            Phase::Push
        } else {
            Phase::Finished
        },
        Phase::Push => if s.clean_after_push {
            Phase::Clean
        } else {
            Phase::Finished
        },
        _ => Phase::Finished,
    }
}

/// The state after a command was issued.
pub open spec fn awaiting(s: EngineView, command: CommandView) -> EngineView {
    EngineView {
        pending: PendingView::Exit { activity: command.activity(), context: command.subject() },
        ..s
    }
}

/// Finds what to ask for next, and the state in which the answer is awaited.
pub open spec fn advance(s: EngineView) -> (EngineView, ActionView)
    decreases phase_rank(s.phase), s.jobs.len() - s.job,
{
    if s.phase == Phase::Finished {
        (s, ActionView::Finished)
    } else if s.phase == Phase::Push && s.queue.len() > 0 {
        let command = s.queue[0];
        (awaiting(EngineView { queue: s.queue.drop_first(), ..s }, command), ActionView::Run(command))
    } else if s.job >= s.jobs.len() {
        advance(EngineView { phase: next_phase(s), job: 0, ..s })
    } else {
        let job = s.jobs[s.job as int];
        let done = EngineView { job: s.job + 1, ..s };
        match s.phase {
            Phase::Pull => {
                let command = CommandView::Pull(job.source());
                (awaiting(done, command), ActionView::Run(command))
            },
            Phase::Clean => {
                let command = CommandView::RemoveImage(job.source());
                (awaiting(done, command), ActionView::Run(command))
            },
            _ => {
                if !s.cache.contains_key(job.image()) {
                    (
                        EngineView { pending: PendingView::Listing(job.image()), ..s },
                        ActionView::Fetch { library: job.library, repo: job.repo },
                    )
                } else {
                    match s.cache[job.image()] {
                        Ok(listing) => advance(
                            EngineView { queue: push_script(s.registry, job, listing), ..done },
                        ),
                        Err(kind) => advance(
                            EngineView {
                                failures: s.failures.push(
                                    FailureModel {
                                        activity: Activity::Fetch,
                                        context: job.source(),
                                        kind,
                                    },
                                ),
                                ..done
                            },
                        ),
                    }
                }
            },
        }
    }
}

/// One step of the engine: the reply to what was asked for last is taken
/// in, and what to ask for next is found.
pub open spec fn step(s: EngineView, reply: ReplyView) -> (EngineView, ActionView) {
    advance(settle(s, reply))
}

} // verus!
