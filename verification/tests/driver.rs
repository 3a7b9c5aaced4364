use event_loop::driver::{EventLoopDriver, Verdict};
use event_loop::queues::JobQueues;
use event_loop::task::{ErrorPolicy, Task};

/// A job for the tests: a name, whether it fails, and what it enqueues while
/// it runs.
struct Script {
    name: &'static str,
    fails: bool,
    spawns: Vec<Task<Script, Script>>,
}

fn ok(name: &'static str) -> Script {
    Script { name, fails: false, spawns: Vec::new() }
}

fn failing(name: &'static str) -> Script {
    Script { name, fails: true, spawns: Vec::new() }
}

fn spawning(name: &'static str, spawns: Vec<Task<Script, Script>>) -> Script {
    Script { name, fails: false, spawns }
}

struct Run {
    trace: Vec<String>,
    reported: Vec<String>,
    result: Result<(), String>,
}

/// The embedder's loop: execute what the driver hands out until it hands out
/// nothing or a verdict ends the run.
fn run(driver: &mut EventLoopDriver<Script, Script>) -> Run {
    let mut trace = Vec::new();
    let mut reported = Vec::new();
    loop {
        let script = match driver.next_job() {
            None => return Run { trace, reported, result: Ok(()) },
            Some(Task::Microtask(s)) => {
                trace.push(format!("micro {}", s.name));
                s
            }
            Some(Task::Macrotask(s)) => {
                trace.push(format!("macro {}", s.name));
                s
            }
        };
        for job in script.spawns {
            driver.enqueue_job(job);
        }
        let outcome = if script.fails { Err(script.name.to_string()) } else { Ok(()) };
        match driver.settle(outcome) {
            Verdict::Continue => {}
            Verdict::Report(e) => reported.push(e),
            Verdict::Abort(e) => return Run { trace, reported, result: Err(e) },
        }
    }
}

fn driver(policy: ErrorPolicy) -> EventLoopDriver<Script, Script> {
    EventLoopDriver::new(policy)
}

#[test]
fn queues_start_idle() {
    let q: JobQueues<u32, u32> = JobQueues::new();
    assert!(q.is_idle());
    assert_eq!(q.pending_microtasks(), 0);
    assert_eq!(q.pending_macrotasks(), 0);
}

#[test]
fn queues_are_idle_only_when_both_are_empty() {
    let mut q: JobQueues<u32, u32> = JobQueues::new();
    q.enqueue_microtask(1);
    assert!(!q.is_idle());
    let batch = q.drain_next_microtask_batch();
    assert_eq!(batch.len(), 1);
    assert!(q.is_idle());
    q.enqueue_macrotask(2);
    assert!(!q.is_idle());
    assert_eq!(q.drain_next_macrotask(), Some(2));
    assert!(q.is_idle());
}

#[test]
fn microtask_batch_is_drained_whole_and_in_order() {
    let mut q: JobQueues<u32, u32> = JobQueues::new();
    q.enqueue_microtask(3);
    q.enqueue_microtask(1);
    q.enqueue_macrotask(9);
    q.enqueue_microtask(2);
    let batch: Vec<u32> = q.drain_next_microtask_batch().into_iter().collect();
    assert_eq!(batch, vec![3, 1, 2]);
    assert_eq!(q.pending_microtasks(), 0);
    assert_eq!(q.pending_macrotasks(), 1);
    q.enqueue_microtask(7);
    let batch: Vec<u32> = q.drain_next_microtask_batch().into_iter().collect();
    assert_eq!(batch, vec![7]);
}

#[test]
fn macrotasks_leave_one_at_a_time_oldest_first() {
    let mut q: JobQueues<u32, u32> = JobQueues::new();
    assert_eq!(q.drain_next_macrotask(), None);
    q.enqueue_macrotask(5);
    q.enqueue_macrotask(6);
    q.enqueue_microtask(1);
    assert_eq!(q.drain_next_macrotask(), Some(5));
    assert_eq!(q.pending_macrotasks(), 1);
    assert_eq!(q.pending_microtasks(), 1);
    assert_eq!(q.drain_next_macrotask(), Some(6));
    assert_eq!(q.drain_next_macrotask(), None);
}

#[test]
fn discarding_microtasks_keeps_macrotasks() {
    let mut q: JobQueues<u32, u32> = JobQueues::new();
    q.enqueue_microtask(1);
    q.enqueue_macrotask(2);
    q.discard_microtasks();
    assert_eq!(q.pending_microtasks(), 0);
    assert_eq!(q.drain_next_macrotask(), Some(2));
}

#[test]
fn task_knows_its_queue() {
    let micro: Task<u8, u8> = Task::Microtask(1);
    let mac: Task<u8, u8> = Task::Macrotask(1);
    assert!(micro.is_micro());
    assert!(!mac.is_micro());
}

#[test]
fn driver_keeps_its_policy() {
    assert_eq!(driver(ErrorPolicy::LogAndContinue).policy(), ErrorPolicy::LogAndContinue);
    assert_eq!(driver(ErrorPolicy::AbortQueueOnError).policy(), ErrorPolicy::AbortQueueOnError);
}

#[test]
fn initial_microtasks_run_in_enqueue_order_before_any_macrotask() {
    let mut d = driver(ErrorPolicy::LogAndContinue);
    d.enqueue_job(Task::Macrotask(ok("t1")));
    d.enqueue_job(Task::Microtask(ok("a")));
    d.enqueue_job(Task::Macrotask(ok("t2")));
    d.enqueue_job(Task::Microtask(ok("b")));
    d.enqueue_job(Task::Microtask(ok("c")));
    let r = run(&mut d);
    assert_eq!(r.trace, vec!["micro a", "micro b", "micro c", "macro t1", "macro t2"]);
    assert_eq!(r.result, Ok(()));
    assert!(r.reported.is_empty());
}

#[test]
fn microtask_enqueued_by_a_microtask_runs_when_no_macrotask_is_pending() {
    let mut d = driver(ErrorPolicy::LogAndContinue);
    d.enqueue_job(Task::Microtask(spawning("a", vec![Task::Microtask(ok("b"))])));
    d.enqueue_job(Task::Microtask(ok("c")));
    let r = run(&mut d);
    assert_eq!(r.trace, vec!["micro a", "micro c", "micro b"]);
}

#[test]
fn microtask_enqueued_in_a_followup_batch_runs_before_pending_macrotasks() {
    let mut d = driver(ErrorPolicy::LogAndContinue);
    let a = spawning("a", vec![Task::Microtask(ok("b"))]);
    d.enqueue_job(Task::Macrotask(spawning("t1", vec![Task::Microtask(a)])));
    d.enqueue_job(Task::Macrotask(ok("t2")));
    d.enqueue_job(Task::Macrotask(ok("t3")));
    let r = run(&mut d);
    assert_eq!(r.trace, vec!["macro t1", "micro a", "micro b", "macro t2", "macro t3"]);
}

#[test]
fn macrotask_pending_at_the_end_of_the_opening_batch_runs_next() {
    let mut d = driver(ErrorPolicy::LogAndContinue);
    d.enqueue_job(Task::Microtask(spawning("a", vec![Task::Microtask(ok("b"))])));
    d.enqueue_job(Task::Macrotask(ok("t")));
    let r = run(&mut d);
    assert_eq!(r.trace, vec!["micro a", "macro t", "micro b"]);
}

#[test]
fn continuations_of_a_macrotask_run_before_the_next_macrotask() {
    let mut d = driver(ErrorPolicy::LogAndContinue);
    let t1 = spawning("t1", vec![Task::Microtask(ok("m1")), Task::Microtask(ok("m2"))]);
    d.enqueue_job(Task::Macrotask(t1));
    d.enqueue_job(Task::Macrotask(ok("t2")));
    let r = run(&mut d);
    assert_eq!(r.trace, vec!["macro t1", "micro m1", "micro m2", "macro t2"]);
}

#[test]
fn macrotasks_run_in_enqueue_order() {
    let mut d = driver(ErrorPolicy::LogAndContinue);
    d.enqueue_job(Task::Macrotask(spawning("t1", vec![Task::Macrotask(ok("t3"))])));
    d.enqueue_job(Task::Macrotask(ok("t2")));
    let r = run(&mut d);
    assert_eq!(r.trace, vec!["macro t1", "macro t2", "macro t3"]);
}

#[test]
fn log_and_continue_runs_every_job_and_reports_the_failure() {
    let mut d = driver(ErrorPolicy::LogAndContinue);
    d.enqueue_job(Task::Microtask(failing("a")));
    d.enqueue_job(Task::Microtask(ok("b")));
    let r = run(&mut d);
    assert_eq!(r.trace, vec!["micro a", "micro b"]);
    assert_eq!(r.reported, vec!["a"]);
    assert_eq!(r.result, Ok(()));
}

#[test]
fn log_and_continue_reports_a_failing_macrotask() {
    let mut d = driver(ErrorPolicy::LogAndContinue);
    d.enqueue_job(Task::Macrotask(failing("t")));
    d.enqueue_job(Task::Macrotask(ok("u")));
    let r = run(&mut d);
    assert_eq!(r.trace, vec!["macro t", "macro u"]);
    assert_eq!(r.reported, vec!["t"]);
    assert_eq!(r.result, Ok(()));
}

#[test]
fn abort_on_error_discards_the_remaining_microtasks() {
    let mut d = driver(ErrorPolicy::AbortQueueOnError);
    d.enqueue_job(Task::Microtask(failing("a")));
    d.enqueue_job(Task::Microtask(ok("b")));
    let r = run(&mut d);
    assert_eq!(r.trace, vec!["micro a"]);
    assert_eq!(r.result, Err("a".to_string()));
    assert!(r.reported.is_empty());
    assert!(d.is_idle());
}

#[test]
fn abort_on_error_discards_microtasks_enqueued_by_the_failing_job() {
    let mut d = driver(ErrorPolicy::AbortQueueOnError);
    let a = Script { name: "a", fails: true, spawns: vec![Task::Microtask(ok("late"))] };
    d.enqueue_job(Task::Microtask(a));
    let r = run(&mut d);
    assert_eq!(r.result, Err("a".to_string()));
    let again = run(&mut d);
    assert!(again.trace.is_empty());
    assert_eq!(again.result, Ok(()));
}

#[test]
fn abort_on_error_keeps_pending_macrotasks() {
    let mut d = driver(ErrorPolicy::AbortQueueOnError);
    d.enqueue_job(Task::Microtask(failing("a")));
    d.enqueue_job(Task::Microtask(ok("b")));
    d.enqueue_job(Task::Macrotask(ok("t")));
    let r = run(&mut d);
    assert_eq!(r.trace, vec!["micro a"]);
    assert_eq!(r.result, Err("a".to_string()));
    assert!(!d.is_idle());
    let again = run(&mut d);
    assert_eq!(again.trace, vec!["macro t"]);
    assert_eq!(again.result, Ok(()));
}

#[test]
fn abort_on_error_only_reports_a_failing_macrotask() {
    let mut d = driver(ErrorPolicy::AbortQueueOnError);
    d.enqueue_job(Task::Macrotask(spawning_failure("t", vec![Task::Microtask(ok("m"))])));
    let r = run(&mut d);
    assert_eq!(r.trace, vec!["macro t", "micro m"]);
    assert_eq!(r.reported, vec!["t"]);
    assert_eq!(r.result, Ok(()));
}

fn spawning_failure(name: &'static str, spawns: Vec<Task<Script, Script>>) -> Script {
    Script { name, fails: true, spawns }
}

#[test]
fn quiet_run_executes_exactly_the_jobs_present() {
    let mut d = driver(ErrorPolicy::LogAndContinue);
    d.enqueue_job(Task::Microtask(ok("a")));
    d.enqueue_job(Task::Macrotask(ok("t")));
    d.enqueue_job(Task::Microtask(ok("b")));
    d.enqueue_job(Task::Macrotask(ok("u")));
    let r = run(&mut d);
    assert_eq!(r.trace, vec!["micro a", "micro b", "macro t", "macro u"]);
    assert_eq!(r.result, Ok(()));
    assert!(d.is_idle());
}

#[test]
fn running_an_idle_driver_returns_at_once() {
    let mut d = driver(ErrorPolicy::LogAndContinue);
    let first = run(&mut d);
    assert!(first.trace.is_empty());
    assert_eq!(first.result, Ok(()));
    d.enqueue_job(Task::Microtask(ok("a")));
    let _ = run(&mut d);
    let again = run(&mut d);
    assert!(again.trace.is_empty());
    assert!(again.reported.is_empty());
    assert_eq!(again.result, Ok(()));
    assert!(d.is_idle());
    assert!(d.next_job().is_none());
}

#[test]
fn microtask_then_macrotask_then_its_continuations() {
    let mut d = driver(ErrorPolicy::LogAndContinue);
    let t = spawning("t", vec![Task::Microtask(ok("c1")), Task::Microtask(ok("c2"))]);
    d.enqueue_job(Task::Microtask(spawning("m", vec![Task::Macrotask(t)])));
    let r = run(&mut d);
    assert_eq!(r.trace, vec!["micro m", "macro t", "micro c1", "micro c2"]);
    assert_eq!(r.result, Ok(()));
    assert!(d.is_idle());
}

#[test]
fn settle_hands_the_error_back() {
    let mut d: EventLoopDriver<u8, u8> = EventLoopDriver::new(ErrorPolicy::AbortQueueOnError);
    d.enqueue_job(Task::Microtask(1));
    d.enqueue_job(Task::Macrotask(2));
    assert!(matches!(d.next_job(), Some(Task::Microtask(1))));
    assert!(matches!(d.settle::<u32>(Ok(())), Verdict::Continue));
    assert!(matches!(d.next_job(), Some(Task::Macrotask(2))));
    assert!(matches!(d.settle(Err(40u32)), Verdict::Report(40)));
    d.enqueue_job(Task::Microtask(3));
    assert!(matches!(d.next_job(), Some(Task::Microtask(3))));
    assert!(matches!(d.settle(Err(41u32)), Verdict::Abort(41)));
    assert!(d.next_job().is_none());
}

#[test]
fn enqueue_sorted_hands_back_what_it_does_not_schedule() {
    let mut d: EventLoopDriver<u8, u8> = EventLoopDriver::new(ErrorPolicy::LogAndContinue);
    assert_eq!(d.enqueue_sorted::<&str>(Err("timer")), Some("timer"));
    assert!(d.is_idle());
    assert_eq!(d.enqueue_sorted::<&str>(Ok(Task::Macrotask(4))), None);
    assert!(!d.is_idle());
    assert!(matches!(d.next_job(), Some(Task::Macrotask(4))));
}

#[test]
fn every_job_of_a_run_executes_exactly_once() {
    let mut d = driver(ErrorPolicy::LogAndContinue);
    let t2 = spawning("t2", vec![Task::Microtask(failing("m3"))]);
    let m1 = spawning("m1", vec![Task::Macrotask(t2), Task::Microtask(ok("m2"))]);
    d.enqueue_job(Task::Macrotask(failing("t1")));
    d.enqueue_job(Task::Microtask(m1));
    let r = run(&mut d);
    assert_eq!(r.trace, vec!["micro m1", "macro t1", "micro m2", "macro t2", "micro m3"]);
    assert_eq!(r.reported, vec!["t1", "m3"]);
    assert_eq!(r.result, Ok(()));
    assert!(d.is_idle());
}
