use bounded_tasks::digits::digit_sum;
use bounded_tasks::dispatcher::run::{map_reduce_bounded, Dispatcher};
use bounded_tasks::dispatcher::schedule::Step;
use bounded_tasks::fault::TaskFault;
use bounded_tasks::words::split_whitespace;
use std::cell::{Cell, RefCell};

const DATA: &str = "
        869 67897737416471853297327050364959
        11861322575564723963297542624962850
        70856234701860 851 907960690014725639
        3839796670710609 4172783238747669219
        523807952578882365254593033303028 37
        58495327135744041048897885734297812
        69920216438980873548808413720956532
        1627842 4 6374 52 589860345374828574668
    ";

fn parts() -> Vec<&'static str> {
    split_whitespace(DATA)
}

fn sum_digits(chunk_size: usize) -> Result<u32, TaskFault> {
    map_reduce_bounded(
        parts(),
        chunk_size,
        |_task: usize, text: &'static str| digit_sum(text),
        |handle: Option<u32>| handle,
        |acc: u32, sum: u32| acc + sum,
        0u32,
    )
    .result
}

#[test]
fn digit_sums_add_up_whatever_the_chunk_size() {
    let expected: u32 = parts()
        .iter()
        .map(|text| text.chars().map(|c| c.to_digit(10).unwrap()).sum::<u32>())
        .sum();
    assert_eq!(expected, 1342);
    assert_eq!(parts().len(), 17);
    assert_eq!(sum_digits(1), Ok(1342));
    assert_eq!(sum_digits(2), Ok(1342));
    assert_eq!(sum_digits(8), Ok(1342));
    assert_eq!(sum_digits(12), Ok(1342));
    assert_eq!(sum_digits(100), Ok(1342));
}

#[test]
fn two_items_in_one_chunk_of_two() {
    let run = map_reduce_bounded(
        vec!["869", "67897737416471853297327050364959"],
        2,
        |_task: usize, text: &'static str| digit_sum(text),
        |handle: Option<u32>| handle,
        |acc: u32, sum: u32| acc + sum,
        0u32,
    );
    assert_eq!(run.result, Ok(23 + 164));
    assert_eq!(run.tasks_spawned, 2);
    assert_eq!(run.chunks_started, 1);
    assert_eq!(run.peak_in_flight, 2);
}

#[test]
fn no_items_give_the_initial_accumulator() {
    let spawned = Cell::new(0usize);
    let run = map_reduce_bounded(
        Vec::<u32>::new(),
        4,
        |_task: usize, item: u32| {
            spawned.set(spawned.get() + 1);
            item
        },
        |handle: u32| Some(handle),
        |acc: u64, out: u32| acc + out as u64,
        77u64,
    );
    assert_eq!(run.result, Ok(77));
    assert_eq!(run.tasks_spawned, 0);
    assert_eq!(run.chunks_started, 0);
    assert_eq!(run.peak_in_flight, 0);
    assert_eq!(spawned.get(), 0);
}

#[test]
fn one_task_is_spawned_per_item_in_rounded_up_chunks() {
    for len in 1..25usize {
        for chunk_size in 1..10usize {
            let spawned = Cell::new(0usize);
            let joined = Cell::new(0usize);
            let items: Vec<usize> = (0..len).collect();
            let run = map_reduce_bounded(
                items,
                chunk_size,
                |task: usize, item: usize| {
                    assert_eq!(task, item);
                    assert_eq!(task, spawned.get());
                    spawned.set(spawned.get() + 1);
                    item
                },
                |handle: usize| {
                    joined.set(joined.get() + 1);
                    Some(handle)
                },
                |acc: usize, out: usize| acc + out,
                0usize,
            );
            assert_eq!(run.result, Ok(len * (len - 1) / 2));
            assert_eq!(spawned.get(), len);
            assert_eq!(joined.get(), len);
            assert_eq!(run.tasks_spawned, len);
            assert_eq!(run.chunks_started, (len + chunk_size - 1) / chunk_size);
        }
    }
}

#[test]
fn never_more_than_a_chunk_of_tasks_is_unjoined() {
    for len in 0..25usize {
        for chunk_size in 1..10usize {
            let live = Cell::new(0usize);
            let most = Cell::new(0usize);
            let run = map_reduce_bounded(
                (0..len).collect::<Vec<usize>>(),
                chunk_size,
                |_task: usize, item: usize| {
                    live.set(live.get() + 1);
                    most.set(most.get().max(live.get()));
                    item
                },
                |handle: usize| {
                    live.set(live.get() - 1);
                    Some(handle)
                },
                |acc: usize, _out: usize| acc + 1,
                0usize,
            );
            assert_eq!(run.result, Ok(len));
            assert_eq!(live.get(), 0);
            assert!(most.get() <= chunk_size);
            assert_eq!(most.get(), len.min(chunk_size));
            assert_eq!(run.peak_in_flight, most.get());
        }
    }
}

#[test]
fn a_chunk_is_joined_whole_before_the_next_is_spawned() {
    let log = RefCell::new(Vec::new());
    let run = map_reduce_bounded(
        vec!['a', 'b', 'c', 'd', 'e'],
        2,
        |task: usize, item: char| {
            log.borrow_mut().push(format!("spawn {task} {item}"));
            (task, item)
        },
        |handle: (usize, char)| {
            log.borrow_mut().push(format!("join {}", handle.0));
            Some(handle.1)
        },
        |mut acc: String, out: char| {
            acc.push(out);
            acc
        },
        String::from(">"),
    );
    assert_eq!(run.result, Ok(String::from(">abcde")));
    assert_eq!(
        log.into_inner(),
        vec![
            "spawn 0 a", "spawn 1 b", "join 0", "join 1", "spawn 2 c", "spawn 3 d", "join 2",
            "join 3", "spawn 4 e", "join 4",
        ]
    );
}

#[test]
fn the_fold_is_sequential_for_a_reducer_that_is_not_commutative() {
    let items: Vec<u64> = (1..=23).collect();
    let expected = items
        .iter()
        .map(|item| item * item + 1)
        .fold(7u64, |acc, out| acc.wrapping_mul(31).wrapping_add(out));
    for chunk_size in [1usize, 2, 3, 8, 22, 23, 24, 100] {
        let run = map_reduce_bounded(
            items.clone(),
            chunk_size,
            |_task: usize, item: u64| item * item + 1,
            |handle: u64| Some(handle),
            |acc: u64, out: u64| acc.wrapping_mul(31).wrapping_add(out),
            7u64,
        );
        assert_eq!(run.result, Ok(expected));
    }
}

#[test]
fn the_first_fault_is_reported_after_its_chunk_was_joined() {
    let spawned = Cell::new(0usize);
    let joined = Cell::new(0usize);
    let folded = Cell::new(0usize);
    let run = map_reduce_bounded(
        vec![10u32, 11, 12, 13, 14, 15, 16, 17, 18, 19],
        3,
        |_task: usize, item: u32| {
            spawned.set(spawned.get() + 1);
            item
        },
        |handle: u32| {
            joined.set(joined.get() + 1);
            if handle == 14 || handle == 15 {
                None
            } else {
                Some(handle)
            }
        },
        |acc: u32, out: u32| {
            folded.set(folded.get() + 1);
            acc + out
        },
        0u32,
    );
    assert_eq!(run.result, Err(TaskFault { task: 4 }));
    assert_eq!(spawned.get(), 6);
    assert_eq!(joined.get(), 6);
    assert_eq!(folded.get(), 4);
    assert_eq!(run.tasks_spawned, 6);
    assert_eq!(run.tasks_joined, 6);
    assert_eq!(run.chunks_started, 2);
    assert_eq!(run.peak_in_flight, 3);
}

#[test]
fn a_fault_in_the_last_short_chunk() {
    let run = map_reduce_bounded(
        vec![1u32, 2, 3, 4, 5],
        2,
        |_task: usize, item: u32| item,
        |handle: u32| if handle == 5 { None } else { Some(handle) },
        |acc: u32, out: u32| acc + out,
        0u32,
    );
    assert_eq!(run.result, Err(TaskFault { task: 4 }));
    assert_eq!(run.tasks_spawned, 5);
    assert_eq!(run.chunks_started, 3);
}

#[test]
fn a_map_function_that_declines_faults_its_task() {
    let run = map_reduce_bounded(
        vec!["12", "3x", "45"],
        8,
        |_task: usize, text: &'static str| digit_sum(text),
        |handle: Option<u32>| handle,
        |acc: u32, sum: u32| acc + sum,
        0u32,
    );
    assert_eq!(run.result, Err(TaskFault { task: 1 }));
    assert_eq!(run.tasks_spawned, 3);
    assert_eq!(run.chunks_started, 1);
}

#[test]
fn a_dispatcher_can_be_stepped_by_hand() {
    let mut dispatcher = Dispatcher::new(
        vec![3u32, 4, 5],
        2,
        |_task: usize, item: u32| item * 2,
        |handle: u32| Some(handle),
        |acc: u32, out: u32| acc + out,
        1u32,
    );
    let mut trail = Vec::new();
    loop {
        let step = dispatcher.next_step();
        trail.push(step);
        if step == Step::Done {
            break;
        }
        dispatcher = dispatcher.advance();
    }
    assert_eq!(
        trail,
        vec![
            Step::Spawn { task: 0 },
            Step::Spawn { task: 1 },
            Step::Join { task: 0 },
            Step::Join { task: 1 },
            Step::Spawn { task: 2 },
            Step::Join { task: 2 },
            Step::Done,
        ]
    );
    let run = dispatcher.finish();
    assert_eq!(run.result, Ok(25));
    assert_eq!(run.tasks_spawned, 3);
    assert_eq!(run.chunks_started, 2);
    assert_eq!(run.peak_in_flight, 2);
}
