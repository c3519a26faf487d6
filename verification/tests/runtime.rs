use std::future::Future;
use std::sync::{Arc, Mutex};
use std::task::Context;

use tokio::sync::RwLock;
use tokio_block_on_deadlock::budget::{ExecutionContext, Owner};
use tokio_block_on_deadlock::driver::{run_to_completion_nested, run_to_completion_on_new_thread};
use tokio_block_on_deadlock::future::ScenarioFuture;
use tokio_block_on_deadlock::resource::SharedResource;
use tokio_block_on_deadlock::script::{Action, Progress, Script};
use tokio_block_on_deadlock::{BUDGET, UNITS};

/// Carries every action of the script through on the runtime and returns
/// the number of units that were consumed.
async fn perform(lock: Arc<RwLock<()>>, units: u64, seen: Arc<Mutex<Vec<Progress>>>) -> u64 {
    let mut script = Script::new(units);
    let mut guard = None;
    loop {
        match script.next_action() {
            Action::Report(progress) => seen.lock().unwrap().push(progress),
            Action::AcquireRead => guard = Some(lock.read().await),
            Action::ReleaseRead => drop(guard.take()),
            Action::ConsumeUnit => tokio::task::coop::consume_budget().await,
            Action::Finish => return script.consumed(),
        }
    }
}

#[test]
fn runtime_that_owns_the_budget_reports_what_the_dedicated_driver_reports() {
    let runtime = tokio::runtime::Builder::new_current_thread().build().unwrap();
    let lock = Arc::new(RwLock::new(()));
    let seen = Arc::new(Mutex::new(Vec::new()));
    let consumed = runtime.block_on(perform(lock.clone(), UNITS, seen.clone()));
    assert_eq!(consumed, UNITS);
    assert!(lock.try_write().is_ok());

    let mut future = ScenarioFuture::new(UNITS);
    let mut res = SharedResource::new();
    let mut log = Vec::new();
    let outcome = run_to_completion_on_new_thread(&mut future, BUDGET, &mut res, &mut log);
    assert!(outcome.is_completed());
    assert_eq!(*seen.lock().unwrap(), log[1..]);
}

#[test]
fn executor_off_the_runtime_has_no_budget_to_run_out_of() {
    let lock = Arc::new(RwLock::new(()));
    let seen = Arc::new(Mutex::new(Vec::new()));
    let consumed = futures::executor::block_on(perform(lock, 300, seen.clone()));
    assert_eq!(consumed, 300);
    assert_eq!(seen.lock().unwrap().last(), Some(&Progress::AcquiredSecond));
}

#[test]
fn nested_polling_on_a_runtime_thread_stalls_where_the_nested_driver_stalls() {
    let runtime = tokio::runtime::Builder::new_current_thread().build().unwrap();
    let lock = Arc::new(RwLock::new(()));
    let seen = Arc::new(Mutex::new(Vec::new()));
    let pending = runtime.block_on(async {
        let mut inner = Box::pin(perform(lock.clone(), UNITS, seen.clone()));
        let waker = futures::task::noop_waker();
        let mut cx = Context::from_waker(&waker);
        let mut pending = 0;
        for _ in 0..1_000 {
            if inner.as_mut().poll(&mut cx).is_pending() {
                pending += 1;
            }
        }
        pending
    });
    assert_eq!(pending, 1_000);

    let mut future = ScenarioFuture::new(UNITS);
    let mut ambient = ExecutionContext::new(Owner::WorkerPool, BUDGET);
    let mut res = SharedResource::new();
    let mut log = Vec::new();
    let outcome = run_to_completion_nested(&mut future, &mut ambient, &mut res, &mut log);
    assert!(!outcome.is_completed());
    assert_eq!(*seen.lock().unwrap(), log[1..]);
    assert!(!seen.lock().unwrap().contains(&Progress::AcquiringSecond));
}
