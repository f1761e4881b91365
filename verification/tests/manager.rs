use os::task::manager::{ReadyTask, TaskManager};

fn task(pid: usize, stride: usize, priority: usize) -> ReadyTask {
    ReadyTask { pid, stride, priority }
}

#[test]
fn empty_queue_fetches_nothing() {
    let mut tm = TaskManager::new();
    assert_eq!(tm.peek_next(), None);
    assert_eq!(tm.fetch(), None);
}

#[test]
fn least_stride_runs_first() {
    let mut tm = TaskManager::new();
    tm.add(task(1, 10, 16));
    tm.add(task(2, 5, 8));
    tm.add(task(3, 5, 2));
    assert_eq!(tm.peek_next(), Some(task(2, 5, 8)));
    assert_eq!(tm.fetch(), Some(task(2, 5 + 65535 / 8, 8)));
    assert_eq!(tm.fetch(), Some(task(3, 5 + 65535 / 2, 2)));
    assert_eq!(tm.fetch(), Some(task(1, 10 + 65535 / 16, 16)));
    assert_eq!(tm.fetch(), None);
}

#[test]
fn stride_wraps_around() {
    let mut tm = TaskManager::new();
    tm.add(task(7, usize::MAX - 1, 1));
    assert_eq!(tm.fetch(), Some(task(7, 65533, 1)));
}

#[test]
fn higher_priority_runs_more_often() {
    let mut tm = TaskManager::new();
    tm.add(task(1, 0, 2));
    tm.add(task(2, 0, 8));
    let mut runs = [0usize; 3];
    for _ in 0..50 {
        let t = tm.fetch().unwrap();
        runs[t.pid] += 1;
        tm.add(t);
    }
    assert!(runs[2] > runs[1] * 3);
}
