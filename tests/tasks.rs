use kcore::task::executor::{Executor, TASK_QUEUE_CAPACITY};
use kcore::task::{Poll, Task, TaskId, TaskIdGenerator, TaskWaker};

struct Countdown {
    polls_left: u32,
    polled: u32,
    last_waker: Option<TaskWaker>,
}

impl Countdown {
    fn new(polls_left: u32) -> Countdown {
        Countdown { polls_left, polled: 0, last_waker: None }
    }
}

impl Task for Countdown {
    fn poll(&mut self, waker: &TaskWaker) -> Poll {
        self.polled += 1;
        self.last_waker = Some(*waker);
        if self.polls_left <= 1 {
            Poll::Ready
        } else {
            self.polls_left -= 1;
            Poll::Pending
        }
    }
}

#[test]
fn duplicate_task_id_is_detected_before_spawn() {
    let mut exec: Executor<Countdown> = Executor::new();
    assert!(!exec.contains_task(TaskId(7)));
    exec.spawn(TaskId(7), Countdown::new(1));
    // A second spawn of id 7 is fatal; the caller sees it coming.
    assert!(exec.contains_task(TaskId(7)));
}

#[test]
fn completed_task_leaves_table_and_waker_cache() {
    let mut exec: Executor<Countdown> = Executor::new();
    exec.spawn(TaskId(1), Countdown::new(1));
    assert!(exec.contains_task(TaskId(1)));
    assert!(!exec.is_idle());
    exec.run_ready_tasks();
    assert!(!exec.contains_task(TaskId(1)));
    assert!(!exec.has_cached_waker(TaskId(1)));
    assert!(exec.is_idle());
}

#[test]
fn pending_task_waits_for_its_waker() {
    let mut exec: Executor<Countdown> = Executor::new();
    exec.spawn(TaskId(3), Countdown::new(2));
    exec.run_ready_tasks();
    assert!(exec.contains_task(TaskId(3)));
    assert!(exec.has_cached_waker(TaskId(3)));
    assert!(exec.is_idle());
    // Nothing happens without a wake.
    exec.run_ready_tasks();
    assert!(exec.contains_task(TaskId(3)));
    exec.wake(&TaskWaker::new(TaskId(3)));
    exec.run_ready_tasks();
    assert!(!exec.contains_task(TaskId(3)));
    assert!(!exec.has_cached_waker(TaskId(3)));
}

#[test]
fn wake_after_completion_is_harmless() {
    let mut exec: Executor<Countdown> = Executor::new();
    exec.spawn(TaskId(4), Countdown::new(1));
    exec.run_ready_tasks();
    exec.wake(&TaskWaker::new(TaskId(4)));
    exec.wake(&TaskWaker::new(TaskId(4)));
    exec.run_ready_tasks();
    assert!(exec.is_idle());
    assert!(!exec.contains_task(TaskId(4)));
}

#[test]
fn full_queue_rejects_wakes() {
    let mut exec: Executor<Countdown> = Executor::new();
    for i in 0..TASK_QUEUE_CAPACITY as u64 {
        exec.spawn(TaskId(i), Countdown::new(1));
    }
    // One more wake or spawn would be fatal; the caller sees it coming.
    assert!(exec.is_full());
    exec.run_ready_tasks();
    assert!(exec.is_idle());
    assert!(!exec.is_full());
    assert!(!exec.contains_task(TaskId(0)));
    exec.spawn(TaskId(1000), Countdown::new(1));
    assert!(exec.contains_task(TaskId(1000)));
}

#[test]
fn finish_poll_records_outcome() {
    let mut exec: Executor<Countdown> = Executor::new();
    exec.finish_poll(9, Countdown::new(1), Poll::Pending);
    assert!(exec.contains_task(TaskId(9)));
    exec.finish_poll(9, Countdown::new(1), Poll::Ready);
    assert!(!exec.contains_task(TaskId(9)));
}

#[test]
fn requeue_without_running_task_does_nothing() {
    let mut exec: Executor<Countdown> = Executor::new();
    exec.requeue_current_task();
    assert!(exec.is_idle());
}

#[test]
fn task_ids_increase() {
    let mut g = TaskIdGenerator::new();
    assert_eq!(g.fresh(), Some(TaskId(0)));
    assert_eq!(g.fresh(), Some(TaskId(1)));
}
