//! What holds of every run of the synchronizer, whatever comes back from
//! the registry and the container runtime.

use crate::alias::{lemma_targets, push_targets_text};
use crate::error::ErrorKind;
use crate::machine::{
    advance, initial, next_phase, phase_rank, settle, step, succeeded, ActionView, EngineView,
    FailureModel, OperationView, PendingView, Phase, ReplyView,
};
use crate::naming::image_name_text;
use crate::plan::{lemma_targets_script_len, push_script, Activity, CommandView, JobView};
use crate::registry::TagView;
use vstd::prelude::*;

verus! {

/// The actions that the engine hands out from state `s` as `replies` come
/// in, one for each reply.
pub open spec fn run(s: EngineView, replies: Seq<ReplyView>) -> Seq<ActionView>
    decreases replies.len(),
{
    if replies.len() == 0 {
        Seq::empty()
    } else {
        seq![step(s, replies[0]).1] + run(step(s, replies[0]).0, replies.drop_first())
    }
}

/// The image whose listing an action asks for, if it asks for one.
pub open spec fn fetched_image(action: ActionView) -> Option<Seq<char>> {
    match action {
        ActionView::Fetch { library, repo } => Some(image_name_text(library, repo)),
        _ => None,
    }
}

/// The images that the registry was asked for: those in the cache, and the
/// one whose listing is awaited.
pub open spec fn asked(s: EngineView) -> Set<Seq<char>> {
    match s.pending {
        PendingView::Listing(image) => s.cache.dom().insert(image),
        _ => s.cache.dom(),
    }
}

/// A run hands out one action for each reply.
pub proof fn lemma_run_len(s: EngineView, replies: Seq<ReplyView>)
    ensures
        run(s, replies).len() == replies.len(),
    decreases replies.len(),
{
    if replies.len() > 0 {
        lemma_run_len(step(s, replies[0]).0, replies.drop_first());
    }
}

/// Finding the next action leaves the cache alone, and asks the registry
/// only for an image that the cache does not hold.
pub proof fn lemma_advance_asks_anew(s: EngineView)
    requires
        !(s.pending is Listing),
    ensures
        advance(s).0.cache == s.cache,
        match fetched_image(advance(s).1) {
            Some(image) => !s.cache.contains_key(image) && advance(s).0.pending
                == PendingView::Listing(image),
            None => !(advance(s).0.pending is Listing),
        },
    decreases phase_rank(s.phase), s.jobs.len() - s.job,
{
    if s.phase == Phase::Finished {
    } else if s.phase == Phase::Push && s.queue.len() > 0 {
    } else if s.job >= s.jobs.len() {
        lemma_advance_asks_anew(EngineView { phase: next_phase(s), job: 0, ..s });
    } else {
        let job = s.jobs[s.job as int];
        let done = EngineView { job: s.job + 1, ..s };
        if s.phase == Phase::Push && s.cache.contains_key(job.image()) {
            match s.cache[job.image()] {
                Ok(listing) => {
                    lemma_advance_asks_anew(
                        EngineView {
                            queue: push_script(s.registry, job, listing),
                            ..done
                        },
                    );
                },
                Err(kind) => {
                    lemma_advance_asks_anew(
                        EngineView {
                            failures: s.failures.push(
                                FailureModel {
                                    activity: Activity::Fetch,
                                    context: job.source(),
                                    kind,
                                },
                            ),
                            ..done
                        },
                    );
                },
            }
        }
    }
}

/// A step forgets no image that was asked for, and asks only for an image
/// that was not asked for before.
pub proof fn lemma_step_asks_anew(s: EngineView, reply: ReplyView)
    ensures
        asked(s).subset_of(asked(step(s, reply).0)),
        fetched_image(step(s, reply).1) matches Some(image) ==> !asked(s).contains(image) && asked(
            step(s, reply).0,
        ).contains(image),
{
    let settled = settle(s, reply);
    assert(!(settled.pending is Listing));
    assert(asked(s).subset_of(settled.cache.dom()));
    lemma_advance_asks_anew(settled);
}

/// An image that was asked for is not asked for again, however the run
/// goes on.
pub proof fn lemma_no_second_fetch(
    s: EngineView,
    replies: Seq<ReplyView>,
    image: Seq<char>,
    k: int,
)
    requires
        asked(s).contains(image),
        0 <= k < replies.len(),
    ensures
        fetched_image(run(s, replies)[k]) != Some(image),
    decreases replies.len(),
{
    lemma_step_asks_anew(s, replies[0]);
    if k > 0 {
        let next = step(s, replies[0]).0;
        lemma_run_len(next, replies.drop_first());
        lemma_no_second_fetch(next, replies.drop_first(), image, k - 1);
    }
}

/// The registry is asked at most once for each image: in any run, from any
/// state and whatever comes back, two actions that fetch a listing are for
/// different images.
pub proof fn lemma_single_fetch(s: EngineView, replies: Seq<ReplyView>, i: int, j: int)
    requires
        0 <= i < j < replies.len(),
        fetched_image(run(s, replies)[i]) is Some,
    ensures
        fetched_image(run(s, replies)[i]) != fetched_image(run(s, replies)[j]),
    decreases replies.len(),
{
    let next = step(s, replies[0]).0;
    let rest = replies.drop_first();
    lemma_run_len(next, rest);
    if i == 0 {
        lemma_step_asks_anew(s, replies[0]);
        let image = fetched_image(step(s, replies[0]).1)->0;
        lemma_no_second_fetch(next, rest, image, j - 1);
    } else {
        lemma_single_fetch(next, rest, i - 1, j - 1);
    }
}

/// The state that the engine is in after `replies` came in, from state `s`.
pub open spec fn state_after(s: EngineView, replies: Seq<ReplyView>) -> EngineView
    decreases replies.len(),
{
    if replies.len() == 0 {
        s
    } else {
        state_after(step(s, replies[0]).0, replies.drop_first())
    }
}

/// The cache holds an outcome for the image of each of the first `n` jobs.
pub open spec fn resolved_below(s: EngineView, n: int) -> bool {
    forall|k: int| 0 <= k < n && k < s.jobs.len() ==> s.cache.contains_key((#[trigger] s.jobs[k]).image())
}

/// What holds of every state of an operation that pushes: the jobs that the
/// push has passed are resolved, and once the push is over, all are, unless
/// a pull ended the operation before.
pub open spec fn push_progress(s: EngineView) -> bool {
    &&& s.phase == Phase::Pull ==> s.push_after_pull
    &&& s.phase == Phase::Push ==> resolved_below(s, s.job as int)
    &&& (s.phase == Phase::Clean || s.phase == Phase::Finished) && s.fatal is None
        ==> resolved_below(s, s.jobs.len() as int)
}

/// Finding the next action keeps the progress of the push.
pub proof fn lemma_advance_keeps_progress(s: EngineView)
    requires
        push_progress(s),
    ensures
        push_progress(advance(s).0),
        advance(s).0.jobs == s.jobs,
    decreases phase_rank(s.phase), s.jobs.len() - s.job,
{
    if s.phase == Phase::Finished {
    } else if s.phase == Phase::Push && s.queue.len() > 0 {
    } else if s.job >= s.jobs.len() {
        lemma_advance_keeps_progress(EngineView { phase: next_phase(s), job: 0, ..s });
    } else {
        let job = s.jobs[s.job as int];
        let done = EngineView { job: s.job + 1, ..s };
        if s.phase == Phase::Push && s.cache.contains_key(job.image()) {
            match s.cache[job.image()] {
                Ok(listing) => {
                    lemma_advance_keeps_progress(
                        EngineView {
                            queue: push_script(s.registry, job, listing),
                            ..done
                        },
                    );
                },
                Err(kind) => {
                    lemma_advance_keeps_progress(
                        EngineView {
                            failures: s.failures.push(
                                FailureModel {
                                    activity: Activity::Fetch,
                                    context: job.source(),
                                    kind,
                                },
                            ),
                            ..done
                        },
                    );
                },
            }
        }
    }
}

/// A run keeps the progress of the push, and the jobs.
pub proof fn lemma_run_keeps_progress(s: EngineView, replies: Seq<ReplyView>)
    requires
        push_progress(s),
    ensures
        push_progress(state_after(s, replies)),
        state_after(s, replies).jobs == s.jobs,
    decreases replies.len(),
{
    if replies.len() > 0 {
        let settled = settle(s, replies[0]);
        assert(push_progress(settled));
        lemma_advance_keeps_progress(settled);
        lemma_run_keeps_progress(step(s, replies[0]).0, replies.drop_first());
    }
}

/// Whatever the registry was asked for at the end of a run, it was asked
/// for before the run or by one of its actions.
pub proof fn lemma_run_fetches_what_it_asks(
    s: EngineView,
    replies: Seq<ReplyView>,
    image: Seq<char>,
) -> (i: int)
    requires
        asked(state_after(s, replies)).contains(image),
        !asked(s).contains(image),
    ensures
        0 <= i < replies.len(),
        fetched_image(run(s, replies)[i]) == Some(image),
    decreases replies.len(),
{
    let next = step(s, replies[0]).0;
    let rest = replies.drop_first();
    lemma_run_len(next, rest);
    if asked(next).contains(image) {
        let settled = settle(s, replies[0]);
        assert(settled.cache.dom() =~= asked(s));
        lemma_advance_asks_anew(settled);
        0
    } else {
        lemma_run_fetches_what_it_asks(next, rest, image) + 1
    }
}

/// A push asks the registry exactly once for the image of each declared
/// tag: when an operation that pushes has finished without a fatal failure,
/// then for each job one action of the run, and only one, fetched the
/// listing of the job's image.
pub proof fn lemma_each_image_fetched_once(
    jobs: Seq<JobView>,
    operation: OperationView,
    replies: Seq<ReplyView>,
    k: int,
) -> (i: int)
    requires
        operation is Push || operation is Sync,
        state_after(initial(jobs, operation), replies).phase == Phase::Finished,
        state_after(initial(jobs, operation), replies).fatal is None,
        0 <= k < jobs.len(),
    ensures
        0 <= i < replies.len(),
        fetched_image(run(initial(jobs, operation), replies)[i]) == Some(
            jobs[k].image(),
        ),
        forall|j: int|
            0 <= j < replies.len() && j != i ==> fetched_image(
                #[trigger] run(initial(jobs, operation), replies)[j],
            ) != Some(jobs[k].image()),
{
    let start = initial(jobs, operation);
    let end = state_after(start, replies);
    lemma_run_keeps_progress(start, replies);
    assert(end.jobs[k] == jobs[k]);
    assert(end.cache.contains_key(jobs[k].image()));
    let i = lemma_run_fetches_what_it_asks(start, replies, jobs[k].image());
    lemma_run_len(start, replies);
    assert forall|j: int| 0 <= j < replies.len() && j != i implies fetched_image(
        #[trigger] run(start, replies)[j],
    ) != Some(jobs[k].image()) by {
        lemma_run_len(start, replies);
        if fetched_image(run(start, replies)[j]) == Some(jobs[k].image()) {
            if j < i {
                lemma_single_fetch(start, replies, j, i);
            } else {
                lemma_single_fetch(start, replies, i, j);
            }
        }
    }
    i
}

/// The first action of a run is that of its first step, and the others are
/// the run from the next state.
pub proof fn lemma_run_index(s: EngineView, replies: Seq<ReplyView>, i: int)
    requires
        0 <= i < replies.len(),
    ensures
        run(s, replies)[i] == if i == 0 {
            step(s, replies[0]).1
        } else {
            run(step(s, replies[0]).0, replies.drop_first())[i - 1]
        },
{
    lemma_run_len(step(s, replies[0]).0, replies.drop_first());
}

/// Every reply but the first reports a command that succeeded.
pub open spec fn later_succeed(replies: Seq<ReplyView>) -> bool {
    forall|i: int| 1 <= i < replies.len() ==> succeeded(#[trigger] replies[i])
}

/// While pulls succeed, a pull asks for the image of each job, in the
/// order of the jobs.
pub proof fn lemma_pull_issues_jobs(s: EngineView, replies: Seq<ReplyView>, i: int)
    requires
        s.phase == Phase::Pull,
        !(s.pending is Listing),
        s.pending is Exit ==> replies.len() > 0 && succeeded(replies[0]),
        later_succeed(replies),
        0 <= i < replies.len(),
        s.job + i < s.jobs.len(),
    ensures
        run(s, replies)[i] == ActionView::Run(CommandView::Pull(s.jobs[s.job + i].source())),
    decreases replies.len(),
{
    lemma_run_index(s, replies, i);
    if i > 0 {
        let next = step(s, replies[0]).0;
        let rest = replies.drop_first();
        assert(rest[0] == replies[1]);
        assert forall|j: int| 1 <= j < rest.len() implies succeeded(#[trigger] rest[j]) by {
            assert(rest[j] == replies[j + 1]);
        }
        lemma_pull_issues_jobs(next, rest, i - 1);
    }
}

/// A clean asks for the removal of the image of each job, in the order of
/// the jobs, however the removals end.
pub proof fn lemma_clean_issues_jobs(s: EngineView, replies: Seq<ReplyView>, i: int)
    requires
        s.phase == Phase::Clean,
        !(s.pending is Listing),
        0 <= i < replies.len(),
        s.job + i < s.jobs.len(),
    ensures
        run(s, replies)[i] == ActionView::Run(
            CommandView::RemoveImage(s.jobs[s.job + i].source()),
        ),
    decreases replies.len(),
{
    lemma_run_index(s, replies, i);
    if i > 0 {
        lemma_clean_issues_jobs(step(s, replies[0]).0, replies.drop_first(), i - 1);
    }
}

/// During a push the commands that are queued are issued in their order,
/// however they end.
pub proof fn lemma_push_issues_queue(s: EngineView, replies: Seq<ReplyView>, i: int)
    requires
        s.phase == Phase::Push,
        !(s.pending is Listing),
        0 <= i < replies.len(),
        i < s.queue.len(),
    ensures
        run(s, replies)[i] == ActionView::Run(s.queue[i]),
    decreases replies.len(),
{
    lemma_run_index(s, replies, i);
    if i > 0 {
        lemma_push_issues_queue(step(s, replies[0]).0, replies.drop_first(), i - 1);
    }
}

/// The push of a job whose image has a listing in the cache is the job's
/// script: for the job's tag and each of its aliases the pulled image is
/// retagged, pushed and removed, however these commands end.
pub proof fn lemma_push_issues_script(
    s: EngineView,
    replies: Seq<ReplyView>,
    listing: Seq<TagView>,
    i: int,
)
    requires
        s.phase == Phase::Push,
        !(s.pending is Listing),
        s.queue.len() == 0,
        s.job < s.jobs.len(),
        s.cache.contains_key(s.jobs[s.job as int].image()),
        s.cache[s.jobs[s.job as int].image()] == Ok::<Seq<TagView>, ErrorKind>(
            listing,
        ),
        0 <= i < replies.len(),
        i < push_script(s.registry, s.jobs[s.job as int], listing).len(),
    ensures
        run(s, replies)[i] == ActionView::Run(
            push_script(s.registry, s.jobs[s.job as int], listing)[i],
        ),
{
    let job = s.jobs[s.job as int];
    let script = push_script(s.registry, job, listing);
    let settled = settle(s, replies[0]);
    let filled = EngineView { queue: script, job: s.job + 1, ..settled };
    assert(advance(settled) == advance(filled));
    lemma_run_index(s, replies, i);
    if i > 0 {
        let next = step(s, replies[0]).0;
        assert(next.queue == script.drop_first());
        lemma_push_issues_queue(next, replies.drop_first(), i - 1);
    }
}

/// The script of a push is never empty: the requested tag itself is always
/// published.
pub proof fn lemma_push_script_len(
    registry: Seq<char>,
    job: JobView,
    listing: Seq<TagView>,
)
    ensures
        push_script(registry, job, listing).len() == 3 * push_targets_text(
            listing,
            job.tag,
        ).len(),
        push_script(registry, job, listing).len() >= 3,
{
    lemma_targets(listing, job.tag);
    lemma_targets_script_len(
        registry,
        job,
        push_targets_text(listing, job.tag),
    );
}

/// A pull that fails ends the operation at once: the failure is kept as
/// the fatal one, and nothing more is asked for.
pub proof fn lemma_failed_pull_is_fatal(s: EngineView, reply: ReplyView)
    requires
        s.phase == Phase::Pull,
        s.pending is Exit,
        !succeeded(reply),
    ensures
        step(s, reply).1 == ActionView::Finished,
        step(s, reply).0.phase == Phase::Finished,
        step(s, reply).0.fatal == Some(
            FailureModel {
                activity: s.pending->activity,
                context: s.pending->context,
                kind: ErrorKind::RuntimeInvocationFailed,
            },
        ),
{
}

/// An operation that is over stays over: nothing more is asked for, and no
/// fatal failure appears or disappears.
pub proof fn lemma_finished_stays(s: EngineView, reply: ReplyView)
    requires
        s.phase == Phase::Finished,
    ensures
        step(s, reply).1 == ActionView::Finished,
        step(s, reply).0.phase == Phase::Finished,
        step(s, reply).0.fatal == s.fatal,
{
}

/// Two states that differ at most in the failures recorded.
pub open spec fn same_work(s: EngineView, t: EngineView) -> bool {
    s == EngineView { failures: s.failures, ..t }
}

/// What is asked for next does not depend on the failures recorded.
pub proof fn lemma_advance_ignores_failures(s: EngineView, t: EngineView)
    requires
        same_work(s, t),
    ensures
        advance(s).1 == advance(t).1,
        same_work(advance(s).0, advance(t).0),
    decreases phase_rank(s.phase), s.jobs.len() - s.job,
{
    if s.phase == Phase::Finished {
    } else if s.phase == Phase::Push && s.queue.len() > 0 {
    } else if s.job >= s.jobs.len() {
        lemma_advance_ignores_failures(
            EngineView { phase: next_phase(s), job: 0, ..s },
            EngineView { phase: next_phase(t), job: 0, ..t },
        );
    } else {
        let job = s.jobs[s.job as int];
        let s_done = EngineView { job: s.job + 1, ..s };
        let t_done = EngineView { job: t.job + 1, ..t };
        if s.phase == Phase::Push && s.cache.contains_key(job.image()) {
            match s.cache[job.image()] {
                Ok(listing) => {
                    let queue = push_script(s.registry, job, listing);
                    lemma_advance_ignores_failures(
                        EngineView { queue, ..s_done },
                        EngineView { queue, ..t_done },
                    );
                },
                Err(kind) => {
                    let failure = FailureModel {
                        activity: Activity::Fetch,
                        context: job.source(),
                        kind,
                    };
                    lemma_advance_ignores_failures(
                        EngineView { failures: s.failures.push(failure), ..s_done },
                        EngineView { failures: t.failures.push(failure), ..t_done },
                    );
                },
            }
        }
    }
}

/// After the pull phase a failed command stops nothing: whether a command
/// of a push or of a clean succeeded or not, the same action comes next,
/// and the work that is left is the same.
pub proof fn lemma_failure_does_not_stop(s: EngineView, one: ReplyView, other: ReplyView)
    requires
        s.phase != Phase::Pull,
        s.pending is Exit,
    ensures
        step(s, one).1 == step(s, other).1,
        same_work(step(s, one).0, step(s, other).0),
{
    lemma_advance_ignores_failures(settle(s, one), settle(s, other));
}

/// A command that fails after the pull phase is recorded, with what it was
/// for.
pub proof fn lemma_failure_is_recorded(s: EngineView, reply: ReplyView)
    requires
        s.phase != Phase::Pull,
        s.pending is Exit,
        !succeeded(reply),
    ensures
        settle(s, reply).failures == s.failures.push(
            FailureModel {
                activity: s.pending->activity,
                context: s.pending->context,
                kind: ErrorKind::RuntimeInvocationFailed,
            },
        ),
        settle(s, reply).fatal == s.fatal,
{
}

} // verus!
