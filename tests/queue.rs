use onqueue::record::{str_less, Status, Task};
use onqueue::runner::{DrainPass, Outcome, MAX_RETRIES, RETRY_DELAY_SECS};
use onqueue::store::Queue;

fn finished_task(name: &str, command: &str, status: Status) -> Task {
    let mut t = Task::new(name, command);
    t.status = status;
    t.start_time = Some("2024-01-01T00:00:00+00:00".to_string());
    t.end_time = Some("2024-01-01T00:00:01+00:00".to_string());
    t
}

/// Runs one pass, answering every attempt with `outcome_for(command)`.
/// Returns the store, the commands run in order and the total delay.
fn run_pass(queue: Queue, outcome_for: &dyn Fn(&str) -> Outcome) -> (Queue, Vec<String>, u64) {
    let mut pass = DrainPass::new(queue);
    let mut ran = Vec::new();
    let mut delay = 0;
    while !pass.is_done() {
        if let Some(cmd) = pass.step() {
            let outcome = outcome_for(&cmd);
            ran.push(cmd);
            if pass.record_outcome(outcome) {
                delay += RETRY_DELAY_SECS;
            }
        }
    }
    (pass.finish(), ran, delay)
}

fn always_ok(_: &str) -> Outcome {
    Outcome::Succeeded
}

fn exit_code_outcome(cmd: &str) -> Outcome {
    if cmd == "true" {
        Outcome::Succeeded
    } else {
        Outcome::Failed { error: format!("{} failed", cmd) }
    }
}

#[test]
fn new_queue_is_empty() {
    let q = Queue::new();
    assert_eq!(q.len(), 0);
    assert_eq!(q.list_tasks(), "Queue is empty.\n");
}

#[test]
fn add_task_queues_with_defaults() {
    let mut q = Queue::new();
    q.add_task("job", "echo hi");
    let tasks = q.to_sorted();
    assert_eq!(tasks.len(), 1);
    assert_eq!(tasks[0].name, "job");
    assert_eq!(tasks[0].command, "echo hi");
    assert_eq!(tasks[0].status, Status::Queued);
    assert!(tasks[0].start_time.is_none());
    assert!(tasks[0].end_time.is_none());
    assert!(tasks[0].error_message.is_none());
    assert_eq!(tasks[0].retries, 0);
}

#[test]
fn list_renders_each_task_greatest_first() {
    let mut q = Queue::new();
    q.add_task("a", "echo a");
    q.add_task("b", "echo b");
    let expected = "[b] echo b\n  - status: queued\n  - start: N/A\n  - end: N/A\n\n\
                    [a] echo a\n  - status: queued\n  - start: N/A\n  - end: N/A\n\n";
    assert_eq!(q.list_tasks(), expected);
}

#[test]
fn list_shows_times_when_present() {
    let mut q = Queue::new();
    q.push(finished_task("x", "true", Status::Completed));
    assert_eq!(
        q.list_tasks(),
        "[x] true\n  - status: completed\n  - start: 2024-01-01T00:00:00+00:00\n  - end: 2024-01-01T00:00:01+00:00\n\n"
    );
}

#[test]
fn ordering_key_compares_fields_in_turn() {
    let a = Task::new("a", "z");
    let b = Task::new("b", "a");
    assert!(a.is_less(&b));
    assert!(!b.is_less(&a));
    let c1 = Task::new("n", "a");
    let c2 = Task::new("n", "b");
    assert!(c1.is_less(&c2));
    let done = finished_task("n", "a", Status::Completed);
    assert!(done.is_less(&c1));
    let mut r1 = Task::new("n", "a");
    r1.retries = 1;
    assert!(c1.is_less(&r1));
    assert!(!c1.is_less(&c1.duplicate()));
    // absent optional values precede present ones
    let mut started = Task::new("n", "a");
    started.start_time = Some(String::new());
    assert!(c1.is_less(&started));
}

#[test]
fn text_order_is_by_code_point() {
    assert!(str_less("", "a"));
    assert!(!str_less("a", ""));
    assert!(str_less("ab", "abc"));
    assert!(str_less("B", "a"));
    assert!(str_less("é", "ê"));
    assert!(!str_less("same", "same"));
}

#[test]
fn pop_max_yields_greatest_first() {
    let mut q = Queue::new();
    q.add_task("b", "1");
    q.add_task("c", "2");
    q.add_task("a", "3");
    assert_eq!(q.pop_max().unwrap().name, "c");
    assert_eq!(q.pop_max().unwrap().name, "b");
    assert_eq!(q.pop_max().unwrap().name, "a");
    assert!(q.pop_max().is_none());
}

#[test]
fn equal_tasks_are_all_kept() {
    let mut q = Queue::new();
    q.add_task("same", "cmd");
    q.add_task("same", "cmd");
    assert_eq!(q.len(), 2);
    assert_eq!(q.pop_max().unwrap().name, "same");
    assert_eq!(q.pop_max().unwrap().name, "same");
}

#[test]
fn snapshot_round_trip_keeps_store() {
    let mut q = Queue::new();
    q.add_task("b", "echo b");
    q.add_task("a", "echo a");
    q.push(finished_task("c", "false", Status::Failed));
    let saved = q.to_sorted();
    let loaded = Queue::from_records(&saved);
    let saved_again = loaded.to_sorted();
    assert_eq!(saved.len(), saved_again.len());
    assert_eq!(q.list_tasks(), loaded.list_tasks());
    for (x, y) in saved.iter().zip(saved_again.iter()) {
        assert_eq!(x.name, y.name);
        assert_eq!(x.command, y.command);
        assert_eq!(x.status, y.status);
        assert_eq!(x.start_time, y.start_time);
        assert_eq!(x.end_time, y.end_time);
        assert_eq!(x.error_message, y.error_message);
        assert_eq!(x.retries, y.retries);
    }
}

#[test]
fn from_records_orders_unsorted_input() {
    let records = vec![Task::new("a", "1"), Task::new("c", "2"), Task::new("b", "3")];
    let q = Queue::from_records(&records);
    let names: Vec<String> = q.to_sorted().into_iter().map(|t| t.name).collect();
    assert_eq!(names, vec!["c", "b", "a"]);
}

#[test]
fn enqueue_grows_by_exactly_n() {
    let mut q = Queue::new();
    q.add_task("seed", "true");
    let before = q.len();
    for i in 0..25 {
        q.add_task(&format!("task{}", i), "true");
    }
    assert_eq!(q.len(), before + 25);
    let loaded = Queue::from_records(&q.to_sorted());
    assert_eq!(loaded.len(), before + 25);
    assert_eq!(loaded.list_tasks(), q.list_tasks());
}

#[test]
fn drain_runs_greatest_name_first() {
    let mut q = Queue::new();
    q.add_task("a", "run-a");
    q.add_task("b", "run-b");
    let (_, ran, _) = run_pass(q, &always_ok);
    assert_eq!(ran, vec!["run-b".to_string(), "run-a".to_string()]);
}

#[test]
fn successful_task_completes_with_times() {
    let mut q = Queue::new();
    q.add_task("job1", "true");
    let (q, ran, delay) = run_pass(q, &exit_code_outcome);
    assert_eq!(ran.len(), 1);
    assert_eq!(delay, 0);
    let tasks = q.to_sorted();
    assert_eq!(tasks.len(), 1);
    assert_eq!(tasks[0].name, "job1");
    assert_eq!(tasks[0].status, Status::Completed);
    assert!(tasks[0].start_time.is_some());
    assert!(tasks[0].end_time.is_some());
    assert_eq!(tasks[0].retries, 0);
    assert!(tasks[0].error_message.is_none());
}

#[test]
fn failing_task_fails_after_three_retries() {
    let mut q = Queue::new();
    q.add_task("job2", "exit 1");
    let (q, ran, delay) = run_pass(q, &exit_code_outcome);
    assert_eq!(ran.len(), 3);
    assert!(delay >= 3 * 5);
    let tasks = q.to_sorted();
    assert_eq!(tasks[0].status, Status::Failed);
    assert_eq!(tasks[0].retries, 3);
    assert_eq!(tasks[0].retries, MAX_RETRIES);
    assert_eq!(tasks[0].error_message.as_deref(), Some("exit 1 failed"));
    assert!(tasks[0].start_time.is_some());
    assert!(tasks[0].end_time.is_some());
}

#[test]
fn retry_then_success_completes() {
    let mut q = Queue::new();
    q.add_task("flaky", "flaky");
    let mut pass = DrainPass::new(q);
    assert_eq!(pass.step().as_deref(), Some("flaky"));
    assert!(pass.awaiting_outcome());
    assert!(pass.record_outcome(Outcome::Failed { error: "boom".to_string() }));
    assert_eq!(pass.step().as_deref(), Some("flaky"));
    assert!(!pass.record_outcome(Outcome::Succeeded));
    assert!(pass.step().is_none());
    assert!(pass.is_done());
    let tasks = pass.finish().to_sorted();
    assert_eq!(tasks[0].status, Status::Completed);
    assert_eq!(tasks[0].retries, 1);
    assert_eq!(tasks[0].error_message.as_deref(), Some("boom"));
}

#[test]
fn finished_tasks_are_not_run_again() {
    let mut q = Queue::new();
    q.push(finished_task("z", "done", Status::Completed));
    q.push(finished_task("y", "gave up", Status::Failed));
    q.add_task("x", "new");
    let (q, ran, _) = run_pass(q, &always_ok);
    assert_eq!(ran, vec!["new".to_string()]);
    assert_eq!(q.len(), 3);
    let (q, ran_again, _) = run_pass(q, &always_ok);
    assert!(ran_again.is_empty());
    let tasks = q.to_sorted();
    assert_eq!(tasks[0].name, "z");
    assert_eq!(tasks[0].start_time.as_deref(), Some("2024-01-01T00:00:00+00:00"));
    assert_eq!(tasks[1].status, Status::Failed);
    assert_eq!(tasks[2].status, Status::Completed);
}

#[test]
fn pass_over_empty_store_is_done() {
    let mut pass = DrainPass::new(Queue::new());
    assert!(pass.is_done());
    assert!(pass.step().is_none());
    assert_eq!(pass.finish().len(), 0);
}

#[test]
fn status_names() {
    assert_eq!(Status::Completed.as_str(), "completed");
    assert_eq!(Status::Failed.as_str(), "failed");
    assert_eq!(Status::Queued.as_str(), "queued");
    assert_eq!(Status::Running.as_str(), "running");
}

#[test]
fn timestamps_are_rfc3339_text() {
    let mut q = Queue::new();
    q.add_task("t", "true");
    let (q, _, _) = run_pass(q, &always_ok);
    let t = &q.to_sorted()[0];
    let start = t.start_time.clone().unwrap();
    assert!(start.len() >= 20);
    assert!(start.contains('T'));
    assert!(start.ends_with("+00:00"));
}

#[test]
fn status_from_name_inverts_as_str() {
    for s in [Status::Completed, Status::Failed, Status::Queued, Status::Running] {
        assert_eq!(Status::from_name(s.as_str()), Some(s));
    }
    assert_eq!(Status::from_name("done"), None);
    assert_eq!(Status::from_name(""), None);
    assert_eq!(Status::from_name("Queued"), None);
}

#[test]
fn current_attempt_reports_name_and_count() {
    let mut q = Queue::new();
    q.add_task("job", "false");
    let mut pass = DrainPass::new(q);
    assert!(pass.current_attempt().is_none());
    pass.step();
    assert_eq!(pass.current_attempt(), Some(("job".to_string(), 1)));
    pass.record_outcome(Outcome::Failed { error: "e".to_string() });
    pass.step();
    assert_eq!(pass.current_attempt(), Some(("job".to_string(), 2)));
}

#[test]
fn listing_after_success_shows_times() {
    let mut q = Queue::new();
    q.add_task("job1", "true");
    let (q, _, _) = run_pass(q, &always_ok);
    let text = q.list_tasks();
    assert!(text.starts_with("[job1] true\n  - status: completed\n  - start: "));
    assert!(!text.contains("N/A"));
}
