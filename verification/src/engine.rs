//! The driver bound to the script interpreter: how the interpreter's jobs
//! are sorted into the two queues and how a job that the driver handed out
//! is executed against the interpreter's state.

use crate::driver::EventLoopDriver;
use crate::task::Task;
use vstd::prelude::*;

verus! {

#[verifier::external_type_specification]
#[verifier::external_body]
pub struct ExContext(boa_engine::Context);

#[verifier::external_type_specification]
#[verifier::external_body]
pub struct ExJsError(boa_engine::JsError);

#[verifier::external_type_specification]
#[verifier::external_body]
pub struct ExJsValue(boa_engine::JsValue);

#[verifier::external_type_specification]
#[verifier::external_body]
pub struct ExEngineJob(boa_engine::job::Job);

#[verifier::external_type_specification]
#[verifier::external_body]
pub struct ExPromiseJob(boa_engine::job::PromiseJob);

#[verifier::external_type_specification]
#[verifier::external_body]
pub struct ExNativeAsyncJob(boa_engine::job::NativeAsyncJob);

/// Where a job of the interpreter belongs: `Ok` with the task that carries
/// its payload when it is a promise job (a microtask) or an async job (a
/// macrotask), `Err` with the job itself when it is of any other kind. It
/// depends on the job alone.
pub uninterp spec fn sorted_job(job: boa_engine::job::Job) -> Result<
    Task<boa_engine::job::PromiseJob, boa_engine::job::NativeAsyncJob>,
    boa_engine::job::Job,
>;

/// Tells the variants of `boa_engine::job::Job` apart: a promise job is a
/// microtask, an async job a macrotask, and a job of any other variant comes
/// back untouched as the error. The payload is moved, never run. The
/// contract gives the result its name, [`sorted_job`], and claims nothing of
/// which variant a job has.
#[verifier::external_body]
fn sort_job(job: boa_engine::job::Job) -> (sorted: Result<
    Task<boa_engine::job::PromiseJob, boa_engine::job::NativeAsyncJob>,
    boa_engine::job::Job,
>)
    ensures
        sorted == sorted_job(job),
{
    match job {
        boa_engine::job::Job::PromiseJob(p) => Ok(Task::Microtask(p)),
        boa_engine::job::Job::AsyncJob(a) => Ok(Task::Macrotask(a)),
        other => Err(other),
    }
}

/// Calls `boa_engine::job::PromiseJob::call`, which runs the job's closure
/// once against the interpreter state. Nothing is claimed of the value or
/// error it completes with.
#[verifier::external_body]
fn call_promise_job(job: boa_engine::job::PromiseJob, context: &mut boa_engine::Context) -> (result:
    Result<boa_engine::JsValue, boa_engine::JsError>) {
    job.call(context)
}

/// Calls `boa_engine::job::NativeAsyncJob::call` and blocks in
/// `pollster::block_on` until the future it returns has resolved. Nothing is
/// claimed of the value or error it resolves to.
#[verifier::external_body]
fn resolve_to_completion(
    job: boa_engine::job::NativeAsyncJob,
    context: &mut boa_engine::Context,
) -> (result: Result<boa_engine::JsValue, boa_engine::JsError>) {
    pollster::block_on(job.call(&std::cell::RefCell::new(context)))
}

/// The pass/fail outcome of a completed job: its value is dropped, its error
/// kept.
pub fn outcome_of(result: Result<boa_engine::JsValue, boa_engine::JsError>) -> (outcome: Result<
    (),
    boa_engine::JsError,
>)
    ensures
        outcome == match result {
            Ok(_) => Ok::<(), boa_engine::JsError>(()),
            Err(e) => Err(e),
        },
{
    match result {
        Ok(_) => Ok(()),
        Err(e) => Err(e),
    }
}

/// Executes a job that the driver handed out: a microtask by calling it, a
/// macrotask by blocking until it has resolved. The job has exclusive use of
/// the interpreter state for the duration. What comes back is for
/// [`EventLoopDriver::settle`]; it depends on the interpreter alone, so
/// nothing is promised of it here.
pub fn execute(
    job: Task<boa_engine::job::PromiseJob, boa_engine::job::NativeAsyncJob>,
    context: &mut boa_engine::Context,
) -> (outcome: Result<(), boa_engine::JsError>) {
    let result = match job {
        Task::Microtask(promise_job) => call_promise_job(promise_job, context),
        Task::Macrotask(async_job) => resolve_to_completion(async_job, context),
    };
    outcome_of(result)
}

/// Enqueues a job of the interpreter: a promise job as a microtask, an async
/// job as a macrotask. A job of a kind that the driver does not schedule is
/// handed back and the driver is left as it was.
pub fn submit(
    driver: &mut EventLoopDriver<boa_engine::job::PromiseJob, boa_engine::job::NativeAsyncJob>,
    job: boa_engine::job::Job,
) -> (rejected: Option<boa_engine::job::Job>)
    ensures
        final(driver)@.wf(),
        match sorted_job(job) {
            Ok(task) => rejected is None && final(driver)@ == old(driver)@.enqueue(task),
            Err(other) => rejected == Some(other) && final(driver)@ == old(driver)@,
        },
{
    driver.enqueue_sorted(sort_job(job))
}

} // verus!
