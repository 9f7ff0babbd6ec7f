use bounded_tasks::fault::{JoinFault, TaskFault};
use bounded_tasks::task::{fan_out, join_all, reversed, spawn_all, Task};
use std::cell::RefCell;

#[test]
fn ten_tasks_hand_back_their_results_in_spawn_order() {
    let log = RefCell::new(Vec::new());
    let results = fan_out(
        10,
        |i: usize| {
            log.borrow_mut().push(format!("spawn {i}"));
            format!("result for this thread: {i}")
        },
        |handle: String| {
            log.borrow_mut().push(String::from("join"));
            Some(handle)
        },
    );
    assert_eq!(results.len(), 10);
    for (i, result) in results.iter().enumerate() {
        assert_eq!(result, &Ok(format!("result for this thread: {i}")));
    }
    let log = log.into_inner();
    assert_eq!(log.len(), 20);
    assert!(log[..10].iter().all(|entry| entry.starts_with("spawn")));
    assert!(log[10..].iter().all(|entry| entry == "join"));
}

#[test]
fn a_faulted_task_does_not_stop_the_others_from_being_joined() {
    let results = fan_out(
        4,
        |i: usize| i,
        |handle: usize| if handle % 2 == 1 { None } else { Some(handle * 10) },
    );
    assert_eq!(
        results,
        vec![
            Ok(0),
            Err(JoinFault { fault: TaskFault { task: 1 } }),
            Ok(20),
            Err(JoinFault { fault: TaskFault { task: 3 } }),
        ]
    );
}

#[test]
fn fanning_out_nothing_gives_nothing() {
    let results = fan_out(0, |i: usize| i, |handle: usize| Some(handle));
    assert_eq!(results, Vec::<Result<usize, JoinFault>>::new());
}

#[test]
fn a_task_carries_its_ordinal_and_is_joined_once() {
    let task = Task::spawn(7, &|ordinal: usize| ordinal + 100);
    assert_eq!(task.ordinal, 7);
    assert_eq!(task.handle, 107);
    assert_eq!(task.join(&|handle: usize| Some(handle + 1)), Ok(108));
    let task = Task::spawn(7, &|ordinal: usize| ordinal + 100);
    assert_eq!(task.join(&|_handle: usize| None::<u8>), Err(JoinFault::of_task(7)));
}

#[test]
fn spawn_all_and_join_all_keep_the_order() {
    let tasks = spawn_all(3, &|ordinal: usize| ordinal * ordinal);
    assert_eq!(tasks.iter().map(|task| task.ordinal).collect::<Vec<_>>(), vec![0, 1, 2]);
    assert_eq!(tasks.iter().map(|task| task.handle).collect::<Vec<_>>(), vec![0, 1, 4]);
    let seen = RefCell::new(Vec::new());
    let results = join_all(tasks, &|handle: usize| {
        seen.borrow_mut().push(handle);
        Some(handle + 1)
    });
    assert_eq!(results, vec![Ok(1), Ok(2), Ok(5)]);
    assert_eq!(seen.into_inner(), vec![0, 1, 4]);
}

#[test]
fn reversed_turns_the_items_round() {
    assert_eq!(reversed(vec![1, 2, 3]), vec![3, 2, 1]);
    assert_eq!(reversed(Vec::<u8>::new()), Vec::<u8>::new());
    assert_eq!(reversed(vec!["only"]), vec!["only"]);
}
