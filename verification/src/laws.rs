//! What holds of every run of the driver, proved over its model.

use crate::driver::{verdict_of, Verdict};
use crate::task::{ErrorPolicy, Task};
use crate::model::{macrotasks_of, microtasks_of, DriverModel, Phase, Reaction};
use vstd::prelude::*;

verus! {

/// Enqueuing jobs changes neither policy, phase nor the open batch, and only
/// appends to the two queues.
pub proof fn lemma_enqueue_all_appends<M, T>(s: DriverModel<M, T>, jobs: Seq<Task<M, T>>)
    ensures
        s.enqueue_all(jobs).policy == s.policy,
        s.enqueue_all(jobs).phase == s.phase,
        s.enqueue_all(jobs).batch == s.batch,
        s.enqueue_all(jobs).wf() == s.wf(),
        s.micro.is_prefix_of(s.enqueue_all(jobs).micro),
        s.mac.is_prefix_of(s.enqueue_all(jobs).mac),
        s.upcoming().is_prefix_of(s.enqueue_all(jobs).upcoming()),
    decreases jobs.len(),
{
    if jobs.len() > 0 {
        lemma_enqueue_all_appends(s.enqueue(jobs[0]), jobs.drop_first());
    }
}

/// The place that the job handed out next has among the pending jobs: a
/// microtask is the first of them, a macrotask the first behind every
/// microtask.
pub open spec fn place_of_next<M, T>(s: DriverModel<M, T>) -> int {
    match s.step().1 {
        Some(Task::Macrotask(_)) => (s.batch.len() + s.micro.len()) as int,
        _ => 0,
    }
}

/// Each call for the next job removes exactly the job it hands out and
/// leaves every other pending job in place: the driver never runs a job
/// twice, never drops one and never puts one back. It hands out nothing
/// exactly when it holds nothing, and then keeps what it has.
pub proof fn law_step_removes_the_job_it_hands_out<M, T>(s: DriverModel<M, T>)
    requires
        s.wf(),
    ensures
        s.step().0.wf(),
        s.step().0.policy == s.policy,
        s.step().1 is None <==> s.is_idle(),
        s.step().1 is None ==> s.step().0.pending() == s.pending(),
        s.step().1 is Some ==> {
            &&& 0 <= place_of_next(s) < s.pending().len()
            &&& s.pending()[place_of_next(s)] == s.step().1->0
            &&& s.step().0.pending() == s.pending().remove(place_of_next(s))
            &&& s.step().0.pending().to_multiset() == s.pending().to_multiset().remove(
                s.step().1->0,
            )
        },
{
    let (next, job) = s.step();
    if job is None {
        assert(next.pending() =~= s.pending());
    } else {
        let k = place_of_next(s);
        assert(0 <= k < s.pending().len());
        assert(s.pending()[k] == job->0);
        assert(next.pending() =~= s.pending().remove(k));
        vstd::seq_lib::to_multiset_remove(s.pending(), k);
    }
}

/// Macrotasks leave in the order in which they were enqueued: the one that
/// is handed out is the oldest, and handing out a microtask leaves the
/// macrotask queue as it was.
pub proof fn law_macrotasks_run_in_enqueue_order<M, T>(s: DriverModel<M, T>)
    requires
        s.wf(),
    ensures
        match s.step().1 {
            Some(Task::Macrotask(t)) => s.mac.len() > 0 && t == s.mac[0] && s.step().0.mac
                == s.mac.drop_first(),
            _ => s.step().0.mac == s.mac,
        },
{
}

/// Ordering law. In any state, the microtasks in `s.upcoming()` are the next
/// jobs to execute, in that order, whatever the executed jobs enqueue in the
/// meantime, as long as no failure aborts the run first. No macrotask runs
/// before they are exhausted.
pub proof fn law_upcoming_microtasks_run_first<M, T>(
    s: DriverModel<M, T>,
    u: Seq<M>,
    reactions: Seq<Reaction<M, T>>,
    i: int,
)
    requires
        s.wf(),
        u.is_prefix_of(s.upcoming()),
        0 <= i < u.len(),
        i < reactions.len(),
        s.no_abort_within(reactions, i),
    ensures
        s.trace(reactions).len() > i,
        s.trace(reactions)[i] == Task::<M, T>::Microtask(u[i]),
    decreases i,
{
    let (next, job) = s.step();
    assert(s.upcoming().len() > 0);
    assert(u[0] == s.upcoming()[0]);
    assert(job == Some(Task::<M, T>::Microtask(u[0])));
    assert(next.wf());
    assert(u.drop_first().is_prefix_of(next.upcoming()));
    if i > 0 {
        let r = reactions[0];
        assert(!r.failed || s.policy == ErrorPolicy::LogAndContinue);
        assert(!next.aborts(r.failed));
        lemma_enqueue_all_appends(next, r.spawned);
        let after = next.react(r);
        assert(after == next.enqueue_all(r.spawned));
        let rest = reactions.drop_first();
        assert(after.no_abort_within(rest, i - 1)) by {
            if s.policy != ErrorPolicy::LogAndContinue {
                assert forall|k: int| 0 <= k < i - 1 && k < rest.len() implies !(
                #[trigger] rest[k]).failed by {
                    assert(rest[k] == reactions[k + 1]);
                }
            }
        }
        law_upcoming_microtasks_run_first(after, u.drop_first(), rest, i - 1);
        assert(s.trace(reactions) == seq![job->0] + after.trace(rest));
    }
}

/// Queue law. Jobs enqueued one after the other join their queues in that
/// order, behind what was queued before, and nothing else changes.
pub proof fn law_enqueue_keeps_order<M, T>(s: DriverModel<M, T>, jobs: Seq<Task<M, T>>)
    ensures
        s.enqueue_all(jobs) == (DriverModel {
            micro: s.micro + microtasks_of(jobs),
            mac: s.mac + macrotasks_of(jobs),
            ..s
        }),
    decreases jobs.len(),
{
    let expected = DriverModel {
        micro: s.micro + microtasks_of(jobs),
        mac: s.mac + macrotasks_of(jobs),
        ..s
    };
    if jobs.len() == 0 {
        assert(expected.micro =~= s.micro);
        assert(expected.mac =~= s.mac);
    } else {
        law_enqueue_keeps_order(s.enqueue(jobs[0]), jobs.drop_first());
        assert(s.enqueue_all(jobs).micro =~= expected.micro);
        assert(s.enqueue_all(jobs).mac =~= expected.mac);
    }
}

/// Whatever jobs are enqueued before the driver starts, in whatever order,
/// the microtasks among them execute first, in strict enqueue order, and no
/// macrotask executes before the last of them has.
pub proof fn law_initial_microtasks_fifo<M, T>(
    s: DriverModel<M, T>,
    jobs: Seq<Task<M, T>>,
    reactions: Seq<Reaction<M, T>>,
    i: int,
)
    requires
        s.wf(),
        s.phase == Phase::Top,
        0 <= i < (s.micro + microtasks_of(jobs)).len(),
        i < reactions.len(),
        s.no_abort_within(reactions, i),
    ensures
        s.enqueue_all(jobs).trace(reactions).len() > i,
        s.enqueue_all(jobs).trace(reactions)[i] == Task::<M, T>::Microtask(
            (s.micro + microtasks_of(jobs))[i],
        ),
{
    law_enqueue_keeps_order(s, jobs);
    let start = s.enqueue_all(jobs);
    law_upcoming_microtasks_run_first(start, start.micro, reactions, i);
}

/// A microtask enqueued by a microtask of the batch that follows a macrotask
/// runs after the microtasks that were waiting before it and before any
/// macrotask, however many macrotasks are pending.
pub proof fn law_followup_microtask_before_macrotasks<M, T>(
    s: DriverModel<M, T>,
    job: M,
    reactions: Seq<Reaction<M, T>>,
)
    requires
        s.wf(),
        s.phase == Phase::Followup,
        reactions.len() > s.batch.len() + s.micro.len(),
        s.no_abort_within(reactions, (s.batch.len() + s.micro.len()) as int),
    ensures
        ({
            let after = s.enqueue(Task::Microtask(job));
            let n = (s.batch.len() + s.micro.len()) as int;
            &&& after.trace(reactions).len() > n
            &&& after.trace(reactions)[n] == Task::<M, T>::Microtask(job)
            &&& forall|j: int|
                0 <= j <= n ==> (#[trigger] after.trace(reactions)[j]).is_microtask()
        }),
{
    let after = s.enqueue(Task::Microtask(job));
    let u = after.upcoming();
    let n = (s.batch.len() + s.micro.len()) as int;
    assert(u.len() == n + 1);
    assert(u[n] == job);
    assert forall|j: int| 0 <= j <= n implies after.trace(reactions).len() > j
        && #[trigger] after.trace(reactions)[j] == Task::<M, T>::Microtask(u[j]) by {
        law_upcoming_microtasks_run_first(after, u, reactions, j);
    }
}

/// When a macrotask enqueues two microtasks while it resolves, both run, in
/// that order, behind the microtasks that were already waiting, and no other
/// macrotask starts before the second has run.
pub proof fn law_macrotask_continuations_before_next_macrotask<M, T>(
    s: DriverModel<M, T>,
    first: M,
    second: M,
    reactions: Seq<Reaction<M, T>>,
)
    requires
        s.wf(),
        s.phase == Phase::Resolved,
        reactions.len() >= s.micro.len() + 2,
        s.no_abort_within(reactions, s.micro.len() as int + 1),
    ensures
        ({
            let after = s.enqueue(Task::Microtask(first)).enqueue(Task::Microtask(second));
            let n = s.micro.len() as int;
            &&& after.trace(reactions).len() >= n + 2
            &&& after.trace(reactions)[n] == Task::<M, T>::Microtask(first)
            &&& after.trace(reactions)[n + 1] == Task::<M, T>::Microtask(second)
            &&& forall|j: int|
                0 <= j <= n + 1 ==> (#[trigger] after.trace(reactions)[j]).is_microtask()
        }),
{
    let after = s.enqueue(Task::Microtask(first)).enqueue(Task::Microtask(second));
    let u = after.upcoming();
    let n = s.micro.len() as int;
    assert(u.len() == n + 2);
    assert(u[n] == first);
    assert(u[n + 1] == second);
    assert forall|j: int| 0 <= j <= n + 1 implies after.trace(reactions).len() > j
        && #[trigger] after.trace(reactions)[j] == Task::<M, T>::Microtask(u[j]) by {
        law_upcoming_microtasks_run_first(after, u, reactions, j);
    }
}

/// Enqueuing microtasks alone leaves the macrotask queue as it was.
pub proof fn lemma_enqueue_microtasks_keeps_macrotasks<M, T>(
    s: DriverModel<M, T>,
    jobs: Seq<Task<M, T>>,
)
    requires
        forall|k: int| 0 <= k < jobs.len() ==> (#[trigger] jobs[k]).is_microtask(),
    ensures
        s.enqueue_all(jobs).mac == s.mac,
    decreases jobs.len(),
{
    if jobs.len() > 0 {
        assert(jobs[0].is_microtask());
        let rest = jobs.drop_first();
        assert forall|k: int| 0 <= k < rest.len() implies (#[trigger] rest[k]).is_microtask() by {
            assert(rest[k] == jobs[k + 1]);
        }
        lemma_enqueue_microtasks_keeps_macrotasks(s.enqueue(jobs[0]), rest);
    }
}

/// True when the first `n` reactions enqueue no macrotask.
pub open spec fn no_macrotask_within<M, T>(reactions: Seq<Reaction<M, T>>, n: int) -> bool {
    forall|k: int, l: int|
        0 <= k < n && k < reactions.len() && 0 <= l < reactions[k].spawned.len() ==> (
        #[trigger] reactions[k].spawned[l]).is_microtask()
}

/// While the batch that opened a pass runs with no macrotask pending, and
/// none is enqueued before the batch is exhausted, the microtasks that its
/// jobs enqueue run right behind it, in enqueue order, before any macrotask.
/// With a macrotask pending at the end of that batch this does not hold: the
/// macrotask runs first.
pub proof fn law_batch_microtasks_run_first_without_macrotasks<M, T>(
    s: DriverModel<M, T>,
    u: Seq<M>,
    reactions: Seq<Reaction<M, T>>,
    i: int,
)
    requires
        s.wf(),
        s.phase == Phase::Batch,
        s.mac.len() == 0,
        no_macrotask_within(reactions, s.batch.len() as int),
        u.is_prefix_of(s.batch + s.micro),
        0 <= i < u.len(),
        i < reactions.len(),
        s.no_abort_within(reactions, i),
    ensures
        s.trace(reactions).len() > i,
        s.trace(reactions)[i] == Task::<M, T>::Microtask(u[i]),
    decreases s.batch.len(),
{
    if s.batch.len() == 0 {
        let top = DriverModel { phase: Phase::Top, ..s };
        assert(s.batch + s.micro =~= s.micro);
        assert(s.step() == top.step());
        assert(s.trace(reactions) == top.trace(reactions));
        law_upcoming_microtasks_run_first(top, u, reactions, i);
    } else {
        let (next, job) = s.step();
        assert(u[0] == (s.batch + s.micro)[0]);
        assert(job == Some(Task::<M, T>::Microtask(u[0])));
        assert(next.batch + next.micro =~= (s.batch + s.micro).drop_first());
        if i > 0 {
            let r = reactions[0];
            let rest = reactions.drop_first();
            assert(!next.aborts(r.failed));
            lemma_enqueue_all_appends(next, r.spawned);
            assert forall|l: int| 0 <= l < r.spawned.len() implies (
            #[trigger] r.spawned[l]).is_microtask() by {
                assert(reactions[0].spawned[l].is_microtask());
            }
            lemma_enqueue_microtasks_keeps_macrotasks(next, r.spawned);
            let after = next.react(r);
            assert(after == next.enqueue_all(r.spawned));
            assert(u.drop_first().is_prefix_of(after.batch + after.micro));
            assert(no_macrotask_within(rest, after.batch.len() as int)) by {
                assert forall|k: int, l: int|
                    0 <= k < after.batch.len() && k < rest.len() && 0 <= l
                        < rest[k].spawned.len() implies (
                #[trigger] rest[k].spawned[l]).is_microtask() by {
                    assert(rest[k] == reactions[k + 1]);
                    assert(reactions[k + 1].spawned[l].is_microtask());
                }
            }
            assert(after.no_abort_within(rest, i - 1)) by {
                if s.policy != ErrorPolicy::LogAndContinue {
                    assert forall|k: int| 0 <= k < i - 1 && k < rest.len() implies !(
                    #[trigger] rest[k]).failed by {
                        assert(rest[k] == reactions[k + 1]);
                    }
                }
            }
            law_batch_microtasks_run_first_without_macrotasks(after, u.drop_first(), rest, i - 1);
            assert(s.trace(reactions) == seq![job->0] + after.trace(rest));
        }
    }
}

/// The reactions of jobs that enqueue nothing, none of which fails under
/// the aborting policy.
pub open spec fn quiet<M, T>(s: DriverModel<M, T>, reactions: Seq<Reaction<M, T>>) -> bool {
    forall|k: int|
        0 <= k < reactions.len() ==> (#[trigger] reactions[k]).spawned.len() == 0 && (s.policy
            == ErrorPolicy::LogAndContinue || !reactions[k].failed)
}

/// Termination law. When no job enqueues another, a run executes exactly the
/// jobs that the driver held when it began, each once, and then stops, however
/// many more outcomes the embedder would be ready to report.
pub proof fn law_quiet_run_drains_exactly<M, T>(
    s: DriverModel<M, T>,
    reactions: Seq<Reaction<M, T>>,
)
    requires
        s.wf(),
        s.phase == Phase::Batch ==> s.micro.len() == 0 || s.mac.len() == 0,
        quiet(s, reactions),
        reactions.len() >= s.pending().len(),
    ensures
        s.trace(reactions) == s.pending(),
    decreases reactions.len(),
{
    let (next, job) = s.step();
    if s.pending().len() == 0 {
        assert(s.batch.len() == 0 && s.micro.len() == 0 && s.mac.len() == 0);
        assert(job is None);
        assert(s.trace(reactions) =~= s.pending());
    } else {
        let r = reactions[0];
        let rest = reactions.drop_first();
        assert(job is Some);
        assert(job->0 == s.pending()[0]);
        assert(next.pending() =~= s.pending().drop_first());
        assert(next.enqueue_all(r.spawned) == next);
        assert(!next.aborts(r.failed));
        assert(next.react(r) == next);
        assert(quiet(next, rest)) by {
            assert forall|k: int| 0 <= k < rest.len() implies (#[trigger] rest[k]).spawned.len()
                == 0 && (next.policy == ErrorPolicy::LogAndContinue || !rest[k].failed) by {
                assert(rest[k] == reactions[k + 1]);
            }
        }
        law_quiet_run_drains_exactly(next, rest);
        assert(s.trace(reactions) =~= s.pending());
    }
}

/// True when two runs enqueue the same jobs, whatever fails in either.
pub open spec fn same_spawns<M, T>(a: Seq<Reaction<M, T>>, b: Seq<Reaction<M, T>>) -> bool {
    a.len() == b.len() && forall|k: int|
        0 <= k < a.len() ==> (#[trigger] a[k]).spawned == b[k].spawned
}

/// Isolation law. Under log-and-continue a failure changes nothing in what
/// runs or in which order: two runs whose jobs enqueue the same jobs execute
/// the same jobs, whichever of them fail.
pub proof fn law_log_and_continue_isolates_failures<M, T>(
    s: DriverModel<M, T>,
    a: Seq<Reaction<M, T>>,
    b: Seq<Reaction<M, T>>,
)
    requires
        s.policy == ErrorPolicy::LogAndContinue,
        same_spawns(a, b),
    ensures
        s.trace(a) == s.trace(b),
    decreases a.len(),
{
    let (next, job) = s.step();
    if a.len() > 0 && job is Some {
        assert(a[0].spawned == b[0].spawned);
        lemma_enqueue_all_appends(next, a[0].spawned);
        assert(next.react(a[0]) == next.react(b[0]));
        let ra = a.drop_first();
        let rb = b.drop_first();
        assert(same_spawns(ra, rb)) by {
            assert forall|k: int| 0 <= k < ra.len() implies (#[trigger] ra[k]).spawned
                == rb[k].spawned by {
                assert(ra[k] == a[k + 1]);
                assert(rb[k] == b[k + 1]);
            }
        }
        law_log_and_continue_isolates_failures(next.react(a[0]), ra, rb);
    }
}

/// Abort law. Under abort-on-error a failing microtask is the last job of
/// the run: nothing executes after it, no microtask is left, not even one
/// that it enqueued itself, and the macrotasks are those that were queued.
pub proof fn law_failing_microtask_ends_the_run<M, T>(
    s: DriverModel<M, T>,
    reactions: Seq<Reaction<M, T>>,
)
    requires
        s.policy == ErrorPolicy::AbortQueueOnError,
        reactions.len() > 0,
        reactions[0].failed,
        s.step().1 is Some,
        s.step().1->0.is_microtask(),
    ensures
        s.trace(reactions) == seq![s.step().1->0],
        s.step().0.react(reactions[0]).phase == Phase::Top,
        s.step().0.react(reactions[0]).batch.len() == 0,
        s.step().0.react(reactions[0]).micro.len() == 0,
        s.step().0.react(reactions[0]).mac == s.step().0.enqueue_all(reactions[0].spawned).mac,
{
    lemma_enqueue_all_appends(s.step().0, reactions[0].spawned);
}

/// Under log-and-continue the outcome of every executed job of a run gets
/// the same ruling: a failure is handed to the embedder to report, a success
/// passes, and neither ends the run or changes what the driver holds.
pub proof fn law_log_and_continue_reports_every_failure<M, T, E>(
    s: DriverModel<M, T>,
    reactions: Seq<Reaction<M, T>>,
    k: nat,
    error: E,
)
    requires
        s.policy == ErrorPolicy::LogAndContinue,
    ensures
        s.settling_state(reactions, k).policy == ErrorPolicy::LogAndContinue,
        verdict_of(s.settling_state(reactions, k), Err::<(), E>(error)) == Verdict::Report(error),
        verdict_of(s.settling_state(reactions, k), Ok::<(), E>(())) == Verdict::<E>::Continue,
        s.settling_state(reactions, k).settle(true) == s.settling_state(reactions, k),
    decreases k,
{
    let next = s.step().0;
    lemma_enqueue_all_appends(next, reactions[0].spawned);
    if k > 0 {
        law_log_and_continue_reports_every_failure(
            next.react(reactions[0]),
            reactions.drop_first(),
            (k - 1) as nat,
            error,
        );
    }
}

/// A sequence without elements has no element in its multiset.
proof fn lemma_no_jobs_no_multiset<A>(s: Seq<A>)
    requires
        s.len() == 0,
    ensures
        s.to_multiset() == vstd::multiset::Multiset::<A>::empty(),
{
    vstd::seq_lib::to_multiset_len(s);
    assert(s.to_multiset().len() == 0);
    assert forall|a: A| s.to_multiset().count(a) == 0 by {
        assert(s.to_multiset().count(a) <= s.to_multiset().len());
    }
    assert(s.to_multiset() =~= vstd::multiset::Multiset::<A>::empty());
}

/// Enqueuing a job adds exactly that job to what is pending.
pub proof fn lemma_enqueue_adds_one_pending_job<M, T>(s: DriverModel<M, T>, job: Task<M, T>)
    ensures
        s.enqueue(job).pending().to_multiset() == s.pending().to_multiset().insert(job),
{
    match job {
        Task::Microtask(m) => {
            let at = (s.batch + s.micro).len() as int;
            assert(s.enqueue(job).pending() =~= s.pending().insert(at, job));
            vstd::seq_lib::to_multiset_insert(s.pending(), at, job);
        },
        Task::Macrotask(t) => {
            assert(s.enqueue(job).pending() =~= s.pending().push(job));
            vstd::seq_lib::to_multiset_build(s.pending(), job);
        },
    }
}

/// Enqueuing jobs adds exactly those jobs to what is pending.
pub proof fn lemma_enqueue_all_adds_pending_jobs<M, T>(s: DriverModel<M, T>, jobs: Seq<Task<M, T>>)
    ensures
        s.enqueue_all(jobs).pending().to_multiset() == s.pending().to_multiset().add(
            jobs.to_multiset(),
        ),
    decreases jobs.len(),
{
    if jobs.len() == 0 {
        lemma_no_jobs_no_multiset(jobs);
        assert(s.pending().to_multiset().add(jobs.to_multiset()) =~= s.pending().to_multiset());
    } else {
        let rest = jobs.drop_first();
        lemma_enqueue_adds_one_pending_job(s, jobs[0]);
        lemma_enqueue_all_adds_pending_jobs(s.enqueue(jobs[0]), rest);
        assert(jobs =~= rest.insert(0, jobs[0]));
        vstd::seq_lib::to_multiset_insert(rest, 0, jobs[0]);
        assert(s.enqueue_all(jobs).pending().to_multiset() =~= s.pending().to_multiset().add(
            jobs.to_multiset(),
        ));
    }
}

/// One executed job of a run: the job leaves what is pending and joins what
/// has run; what it enqueued joins what is pending.
proof fn lemma_account_for_one_job<A>(
    pending: vstd::multiset::Multiset<A>,
    left: vstd::multiset::Multiset<A>,
    enqueued_now: vstd::multiset::Multiset<A>,
    enqueued_later: vstd::multiset::Multiset<A>,
    run_later: vstd::multiset::Multiset<A>,
    at_end: vstd::multiset::Multiset<A>,
    job: A,
)
    requires
        pending == left.insert(job),
        left.add(enqueued_now).add(enqueued_later) == run_later.add(at_end),
    ensures
        pending.add(enqueued_now.add(enqueued_later)) == run_later.insert(job).add(at_end),
{
    assert forall|a: A|
        pending.add(enqueued_now.add(enqueued_later)).count(a) == run_later.insert(job).add(
            at_end,
        ).count(a) by {
        let one = vstd::multiset::Multiset::singleton(job);
        let extra: int = if a == job { 1 } else { 0 };
        assert(one.count(a) == extra);
        assert(left.insert(job).count(a) == left.count(a) + extra);
        assert(run_later.insert(job).count(a) == run_later.count(a) + extra);
        assert(left.add(enqueued_now).add(enqueued_later).count(a) == left.count(a)
            + enqueued_now.count(a) + enqueued_later.count(a));
        assert(run_later.add(at_end).count(a) == run_later.count(a) + at_end.count(a));
        assert(enqueued_now.add(enqueued_later).count(a) == enqueued_now.count(a)
            + enqueued_later.count(a));
    }
    assert(pending.add(enqueued_now.add(enqueued_later)) =~= run_later.insert(job).add(at_end));
}

/// A job that leaves the pending jobs at some place leaves their multiset
/// one occurrence short.
proof fn lemma_removed_job_was_pending<A>(before: Seq<A>, after: Seq<A>, at: int, job: A)
    requires
        0 <= at < before.len(),
        before[at] == job,
        after == before.remove(at),
    ensures
        before.to_multiset() == after.to_multiset().insert(job),
{
    vstd::seq_lib::to_multiset_remove(before, at);
    vstd::seq_lib::to_multiset_contains(before, job);
    assert(before.contains(job));
    assert(before.to_multiset() =~= after.to_multiset().insert(job));
}

/// Conservation law. In a run that no failure aborts, every job that was
/// pending at the start or was enqueued by a job of the run has either
/// executed exactly once or is still pending at the end: none is lost, none
/// runs twice, none appears from nowhere.
pub proof fn law_every_job_runs_once<M, T>(s: DriverModel<M, T>, reactions: Seq<Reaction<M, T>>)
    requires
        s.wf(),
        s.no_abort_within(reactions, reactions.len() as int),
    ensures
        s.pending().to_multiset().add(s.spawned(reactions).to_multiset()) == s.trace(
            reactions,
        ).to_multiset().add(s.end_state(reactions).pending().to_multiset()),
    decreases reactions.len(),
{
    let (next, job) = s.step();
    law_step_removes_the_job_it_hands_out(s);
    if reactions.len() == 0 || job is None {
        let empty = Seq::<Task<M, T>>::empty();
        lemma_no_jobs_no_multiset(empty);
        assert(s.trace(reactions) == empty);
        assert(s.spawned(reactions) == empty);
        assert(s.end_state(reactions).pending() == s.pending());
        assert(s.pending().to_multiset().add(empty.to_multiset()) =~= empty.to_multiset().add(
            s.pending().to_multiset(),
        ));
    } else {
        let j = job->0;
        let r = reactions[0];
        let rest = reactions.drop_first();
        let after = next.react(r);
        assert(!next.aborts(r.failed));
        assert(after == next.enqueue_all(r.spawned)) by {
            lemma_enqueue_all_appends(next, r.spawned);
        }
        assert(after.wf() && after.policy == s.policy) by {
            lemma_enqueue_all_appends(next, r.spawned);
        }
        assert(after.no_abort_within(rest, rest.len() as int)) by {
            if s.policy != ErrorPolicy::LogAndContinue {
                assert forall|k: int| 0 <= k < rest.len() implies !(#[trigger] rest[k]).failed by {
                    assert(rest[k] == reactions[k + 1]);
                }
            }
        }
        law_every_job_runs_once(after, rest);
        let tail = after.trace(rest);
        let later = after.spawned(rest);
        assert(s.trace(reactions).to_multiset() == tail.to_multiset().insert(j)) by {
            assert(s.trace(reactions) =~= tail.insert(0, j));
            vstd::seq_lib::to_multiset_insert(tail, 0, j);
        }
        assert(s.spawned(reactions).to_multiset() == r.spawned.to_multiset().add(
            later.to_multiset(),
        )) by {
            assert(s.spawned(reactions) == r.spawned + later);
            vstd::seq_lib::lemma_multiset_commutative(r.spawned, later);
        }
        assert(s.end_state(reactions) == after.end_state(rest));
        lemma_removed_job_was_pending(s.pending(), next.pending(), place_of_next(s), j);
        lemma_enqueue_all_adds_pending_jobs(next, r.spawned);
        lemma_account_for_one_job(
            s.pending().to_multiset(),
            next.pending().to_multiset(),
            r.spawned.to_multiset(),
            later.to_multiset(),
            tail.to_multiset(),
            after.end_state(rest).pending().to_multiset(),
            j,
        );
    }
}

/// Asking an idle driver for a job yields none and leaves it at the top of
/// its loop with nothing changed; asking again changes nothing at all.
pub proof fn law_idle_driver_stays_idle<M, T>(s: DriverModel<M, T>)
    requires
        s.wf(),
        s.is_idle(),
    ensures
        s.step().1 is None,
        s.step().0 == (DriverModel { phase: Phase::Top, ..s }),
        s.step().0.step() == (s.step().0, None::<Task<M, T>>),
{
}

} // verus!
