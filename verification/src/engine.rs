//! The image synchronizer: it decides, and its caller acts. Each call of
//! [`Engine::step`] takes what came back from the last action and hands out
//! the next one, until the operation is finished.

use crate::cache::TagCache;
use crate::error::ErrorKind;
use crate::machine::{
    advance, awaiting, initial, phase_rank, settle, step, ActionView, EngineView, FailureModel,
    OperationView, PendingView, Phase, ReplyView,
};
use crate::plan::{jobs, jobs_of, push_commands, Activity, Command, Job};
use crate::registry::{outcome_view, TagDescriptor};
use crate::store::ProfileStore;
use vstd::prelude::*;
use vstd::string::StringExecFns;

verus! {

/// What the engine is asked to do.
#[derive(Clone, Debug, PartialEq, Eq)]
pub enum Operation {
    /// Pull every declared tag.
    Pull,
    /// Push every declared tag and its aliases to `registry`, and clean
    /// afterwards if `clean` is set.
    Push { registry: String, clean: bool },
    /// Remove the local image of every declared tag.
    Clean,
    /// Pull, then push.
    Sync { registry: String, clean: bool },
}

impl DeepView for Operation {
    type V = OperationView;

    open spec fn deep_view(&self) -> OperationView {
        match self {
            Operation::Pull => OperationView::Pull,
            Operation::Push { registry, clean } => OperationView::Push {
                registry: registry@,
                clean: *clean,
            },
            Operation::Clean => OperationView::Clean,
            Operation::Sync { registry, clean } => OperationView::Sync {
                registry: registry@,
                clean: *clean,
            },
        }
    }
}

/// What came back from the outside.
#[derive(Debug, PartialEq, Eq)]
pub enum Reply {
    /// Nothing was asked for yet.
    Begin,
    /// The command could not be started.
    NotLaunched,
    /// The command ran and exited with this code, if it had one.
    Exited(Option<i32>),
    /// The fetch of a listing ended so.
    Listing(Result<Vec<TagDescriptor>, ErrorKind>),
}

impl DeepView for Reply {
    type V = ReplyView;

    open spec fn deep_view(&self) -> ReplyView {
        match self {
            Reply::Begin => ReplyView::Begin,
            Reply::NotLaunched => ReplyView::NotLaunched,
            Reply::Exited(code) => ReplyView::Exited(*code),
            Reply::Listing(r) => ReplyView::Listing(outcome_view(*r)),
        }
    }
}

/// What the engine asks for next.
#[derive(Clone, Debug, PartialEq, Eq)]
pub enum Action {
    /// Run this command, and report how it ended.
    Run(Command),
    /// Fetch the tag listing of this image, and report the outcome.
    Fetch { library: Option<String>, repo: String },
    /// Nothing: the operation is over.
    Finished,
}

impl DeepView for Action {
    type V = ActionView;

    open spec fn deep_view(&self) -> ActionView {
        match self {
            Action::Run(c) => ActionView::Run(c.deep_view()),
            Action::Fetch { library, repo } => ActionView::Fetch {
                library: library.deep_view(),
                repo: repo@,
            },
            Action::Finished => ActionView::Finished,
        }
    }
}

/// A failure and what it occurred for.
#[derive(Clone, Debug, PartialEq, Eq)]
pub struct Failure {
    pub activity: Activity,
    pub context: String,
    pub kind: ErrorKind,
}

impl DeepView for Failure {
    type V = FailureModel;

    open spec fn deep_view(&self) -> FailureModel {
        FailureModel { activity: self.activity, context: self.context@, kind: self.kind }
    }
}

/// What the engine has asked for and waits to hear of.
#[derive(Clone, Debug, PartialEq, Eq)]
enum Pending {
    Nothing,
    Exit { activity: Activity, context: String },
    Listing(String),
}

impl DeepView for Pending {
    type V = PendingView;

    closed spec fn deep_view(&self) -> PendingView {
        match self {
            Pending::Nothing => PendingView::Nothing,
            Pending::Exit { activity, context } => PendingView::Exit {
                activity: *activity,
                context: context@,
            },
            Pending::Listing(image) => PendingView::Listing(image@),
        }
    }
}

/// One operation under way.
#[derive(Debug, PartialEq, Eq)]
pub struct Engine {
    jobs: Vec<Job>,
    registry: String,
    push_after_pull: bool,
    clean_after_push: bool,
    phase: Phase,
    job: usize,
    queue: Vec<Command>,
    pending: Pending,
    cache: TagCache,
    failures: Vec<Failure>,
    fatal: Option<Failure>,
}

impl View for Engine {
    type V = EngineView;

    closed spec fn view(&self) -> EngineView {
        EngineView {
            jobs: self.jobs.deep_view(),
            registry: self.registry@,
            push_after_pull: self.push_after_pull,
            clean_after_push: self.clean_after_push,
            phase: self.phase,
            job: self.job as nat,
            queue: self.queue.deep_view(),
            pending: self.pending.deep_view(),
            cache: self.cache@,
            failures: self.failures.deep_view(),
            fatal: self.fatal.deep_view(),
        }
    }
}

impl Engine {
    /// Starts an operation on what the store declares. Nothing is asked for
    /// before the first step.
    pub fn new(store: &ProfileStore, operation: Operation) -> (e: Engine)
        ensures
            e@ == initial(jobs_of(store@), operation.deep_view()),
    {
        let ghost op = operation.deep_view();
        let (phase, registry, push_after_pull, clean_after_push) = match operation {
            Operation::Pull => (Phase::Pull, String::from_str(""), false, false),
            Operation::Push { registry, clean } => (Phase::Push, registry, false, clean),
            Operation::Clean => (Phase::Clean, String::from_str(""), false, false),
            Operation::Sync { registry, clean } => (Phase::Pull, registry, true, clean),
        };
        proof {
            reveal_strlit("");
            assert(""@ =~= Seq::<char>::empty());
        }
        let e = Engine {
            jobs: jobs(store),
            registry,
            push_after_pull,
            clean_after_push,
            phase,
            job: 0,
            queue: Vec::new(),
            pending: Pending::Nothing,
            cache: TagCache::new(),
            failures: Vec::new(),
            fatal: None,
        };
        assert(e.queue.deep_view() =~= Seq::empty());
        assert(e.failures.deep_view() =~= Seq::empty());
        e
    }

    /// Takes in the reply to the action handed out last, and hands out the
    /// next one. The first call takes [`Reply::Begin`].
    pub fn step(&mut self, reply: Reply) -> (action: Action)
        ensures
            (final(self)@, action.deep_view()) == step(old(self)@, reply.deep_view()),
    {
        self.settle(reply);
        self.advance()
    }

    /// Whether the operation is over.
    pub fn is_finished(&self) -> (b: bool)
        ensures
            b == (self@.phase == Phase::Finished),
    {
        match self.phase {
            Phase::Finished => true,
            _ => false,
        }
    }

    /// The failure that ended the operation, if one did.
    pub fn fatal(&self) -> (f: &Option<Failure>)
        ensures
            f.deep_view() == self@.fatal,
    {
        &self.fatal
    }

    /// The failures that did not end the operation, in the order in which
    /// they occurred.
    pub fn failures(&self) -> (f: &Vec<Failure>)
        ensures
            f.deep_view() == self@.failures,
    {
        &self.failures
    }

    /// What the registry said of each image asked for so far.
    pub fn cache(&self) -> (c: &TagCache)
        ensures
            c@ == self@.cache,
    {
        &self.cache
    }

    fn settle(&mut self, reply: Reply)
        ensures
            final(self)@ == settle(old(self)@, reply.deep_view()),
    {
        let mut pending = Pending::Nothing;
        std::mem::swap(&mut pending, &mut self.pending);
        match pending {
            Pending::Nothing => {},
            Pending::Exit { activity, context } => {
                let ok = match &reply {
                    Reply::Exited(Some(code)) => *code == 0,
                    _ => false,
                };
                if !ok {
                    let failure = Failure {
                        activity,
                        context,
                        kind: ErrorKind::RuntimeInvocationFailed,
                    };
                    match self.phase {
                        Phase::Pull => {
                            self.phase = Phase::Finished;
                            self.fatal = Some(failure);
                        },
                        _ => {
                            let ghost before = self.failures.deep_view();
                            let ghost f = failure.deep_view();
                            self.failures.push(failure);
                            assert(self.failures.deep_view() =~= before.push(f));
                        },
                    }
                }
            },
            Pending::Listing(image) => {
                let outcome = match reply {
                    Reply::Listing(r) => r,
                    _ => Err(ErrorKind::RegistryUnreachable),
                };
                self.cache.insert(image, outcome);
            },
        }
    }

    fn issue(&mut self, command: Command) -> (action: Action)
        ensures
            final(self)@ == awaiting(old(self)@, command.deep_view()),
            action.deep_view() == ActionView::Run(command.deep_view()),
    {
        self.pending =
        Pending::Exit {
            activity: command.activity(),
            context: String::from_str(command.subject()),
        };
        Action::Run(command)
    }

    fn advance(&mut self) -> (action: Action)
        ensures
            (final(self)@, action.deep_view()) == advance(old(self)@),
    {
        let ghost start = self@;
        loop
            invariant
                start == old(self)@,
                advance(self@) == advance(start),
            decreases phase_rank(self@.phase), self@.jobs.len() - self@.job,
        {
            match self.phase {
                Phase::Finished => {
                    return Action::Finished;
                },
                _ => {},
            }
            let pushing = match self.phase {
                Phase::Push => true,
                _ => false,
            };
            if pushing && self.queue.len() > 0 {
                let ghost before = self.queue.deep_view();
                let command = self.queue.remove(0);
                assert(self.queue.deep_view() =~= before.drop_first());
                assert(command.deep_view() == before[0]);
                return self.issue(command);
            }
            if self.job >= self.jobs.len() {
                self.phase =
                match self.phase {
                    Phase::Pull => if self.push_after_pull {
                        Phase::Push
                    } else {
                        Phase::Finished
                    },
                    Phase::Push => if self.clean_after_push {
                        Phase::Clean
                    } else {
                        Phase::Finished
                    },
                    _ => Phase::Finished,
                };
                self.job = 0;
                continue ;
            }
            let ghost job = self.jobs.deep_view()[self.job as int];
            assert(job == self.jobs[self.job as int].deep_view());
            match self.phase {
                Phase::Pull => {
                    let command = Command::Pull(self.jobs[self.job].source());
                    self.job += 1;
                    return self.issue(command);
                },
                Phase::Clean => {
                    let command = Command::RemoveImage(self.jobs[self.job].source());
                    self.job += 1;
                    return self.issue(command);
                },
                _ => {
                    let image = self.jobs[self.job].image();
                    match self.cache.get(image.as_str()) {
                        None => {
                            let library = match &self.jobs[self.job].library {
                                Some(l) => Some(l.clone()),
                                None => None,
                            };
                            let repo = self.jobs[self.job].repo.clone();
                            self.pending = Pending::Listing(image);
                            return Action::Fetch { library, repo };
                        },
                        Some(Ok(listing)) => {
                            self.queue =
                            push_commands(self.registry.as_str(), &self.jobs[self.job], listing);
                            self.job += 1;
                        },
                        Some(Err(kind)) => {
                            let failure = Failure {
                                activity: Activity::Fetch,
                                context: self.jobs[self.job].source(),
                                kind: *kind,
                            };
                            let ghost before = self.failures.deep_view();
                            let ghost f = failure.deep_view();
                            self.failures.push(failure);
                            assert(self.failures.deep_view() =~= before.push(f));
                            self.job += 1;
                        },
                    }
                },
            }
        }
    }
}

} // verus!
