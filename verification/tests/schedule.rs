use bounded_tasks::dispatcher::schedule::{Schedule, Step};
use bounded_tasks::fault::TaskFault;

fn steps(len: usize, chunk_size: usize, faulty: &[usize]) -> (Vec<Step>, Schedule, usize) {
    let mut schedule = Schedule::new(len, chunk_size);
    let mut trail = Vec::new();
    let mut peak = 0usize;
    loop {
        let step = schedule.step();
        trail.push(step);
        match step {
            Step::Spawn { .. } => schedule = schedule.spawned_one(),
            Step::Join { task } => schedule = schedule.joined_one(!faulty.contains(&task)),
            Step::Done => break,
        }
        peak = peak.max(schedule.spawned - schedule.joined);
    }
    (trail, schedule, peak)
}

#[test]
fn schedule_alternates_chunks_of_spawns_and_joins() {
    let (trail, end, peak) = steps(5, 2, &[]);
    assert_eq!(
        trail,
        vec![
            Step::Spawn { task: 0 },
            Step::Spawn { task: 1 },
            Step::Join { task: 0 },
            Step::Join { task: 1 },
            Step::Spawn { task: 2 },
            Step::Spawn { task: 3 },
            Step::Join { task: 2 },
            Step::Join { task: 3 },
            Step::Spawn { task: 4 },
            Step::Join { task: 4 },
            Step::Done,
        ]
    );
    assert_eq!(end, Schedule { len: 5, chunk_size: 2, spawned: 5, joined: 5, fault: None });
    assert_eq!(end.chunks(), 3);
    assert_eq!(peak, 2);
}

#[test]
fn schedule_of_nothing_is_done_at_once() {
    let (trail, end, peak) = steps(0, 4, &[]);
    assert_eq!(trail, vec![Step::Done]);
    assert_eq!(end.spawned, 0);
    assert_eq!(end.chunks(), 0);
    assert_eq!(peak, 0);
}

#[test]
fn schedule_with_a_chunk_larger_than_the_items() {
    let (trail, end, peak) = steps(3, 100, &[]);
    assert_eq!(
        trail,
        vec![
            Step::Spawn { task: 0 },
            Step::Spawn { task: 1 },
            Step::Spawn { task: 2 },
            Step::Join { task: 0 },
            Step::Join { task: 1 },
            Step::Join { task: 2 },
            Step::Done,
        ]
    );
    assert_eq!(end.chunks(), 1);
    assert_eq!(peak, 3);
}

#[test]
fn schedule_with_chunks_of_one_is_sequential() {
    let (trail, end, peak) = steps(3, 1, &[]);
    assert_eq!(
        trail,
        vec![
            Step::Spawn { task: 0 },
            Step::Join { task: 0 },
            Step::Spawn { task: 1 },
            Step::Join { task: 1 },
            Step::Spawn { task: 2 },
            Step::Join { task: 2 },
            Step::Done,
        ]
    );
    assert_eq!(end.chunks(), 3);
    assert_eq!(peak, 1);
}

#[test]
fn schedule_joins_the_rest_of_the_chunk_after_a_fault_and_stops() {
    let (trail, end, _) = steps(7, 3, &[3, 5]);
    assert_eq!(
        trail,
        vec![
            Step::Spawn { task: 0 },
            Step::Spawn { task: 1 },
            Step::Spawn { task: 2 },
            Step::Join { task: 0 },
            Step::Join { task: 1 },
            Step::Join { task: 2 },
            Step::Spawn { task: 3 },
            Step::Spawn { task: 4 },
            Step::Spawn { task: 5 },
            Step::Join { task: 3 },
            Step::Join { task: 4 },
            Step::Join { task: 5 },
            Step::Done,
        ]
    );
    assert_eq!(end.fault, Some(TaskFault { task: 3 }));
    assert_eq!(end.spawned, 6);
    assert_eq!(end.joined, 6);
    assert_eq!(end.chunks(), 2);
}

#[test]
fn schedule_never_holds_more_than_a_chunk_in_flight() {
    for len in 0..30usize {
        for chunk_size in 1..9usize {
            let (trail, end, peak) = steps(len, chunk_size, &[]);
            assert_eq!(trail.len(), 2 * len + 1);
            assert_eq!(end.spawned, len);
            assert_eq!(end.joined, len);
            assert_eq!(peak, len.min(chunk_size));
            assert_eq!(end.chunks(), (len + chunk_size - 1) / chunk_size);
        }
    }
}
