use pbubble::error::ScheduleError;
use pbubble::minibatch::MiniBatch::{Backward, Forward, Nops};
use pbubble::minibatch::MiniBatch;
use pbubble::scheduler::Scheduler;
use pbubble::strategy::strategy_1f1b::Strategy1F1B;
use pbubble::strategy::Strategy;

fn run_1f1b(world_size: usize, num_minibatch: usize) -> Vec<Vec<MiniBatch>> {
    let mut scheduler = Scheduler::new(world_size);
    scheduler.run::<Strategy1F1B>(num_minibatch).unwrap()
}

/// Dependency-driven 1F1B oracle: no phase arithmetic; each stage decides its
/// next entry purely from what its neighbours have already committed in
/// earlier columns, preferring a matching backward, else a matching forward
/// (capped at `world_size - i` forwards in flight), else idle.
fn dependency_driven(world_size: usize, num_minibatch: usize) -> Vec<Vec<MiniBatch>> {
    let w = world_size;
    let n = num_minibatch;
    let mut rows: Vec<Vec<MiniBatch>> = vec![Vec::new(); w];
    let mut next_f = vec![0usize; w];
    let mut next_b = vec![0usize; w];
    while (0..w).any(|i| next_f[i] < n || next_b[i] < n) {
        let p = rows[0].len();
        for i in 0..w {
            let b_avail = next_b[i] < n
                && if i == w - 1 {
                    // gradient of a minibatch originates here, one column
                    // after this stage's own forward pass of it
                    rows[i][..p]
                        .iter()
                        .any(|m| *m == MiniBatch::Forward(next_b[i]))
                } else {
                    rows[i + 1][..p.min(rows[i + 1].len())]
                        .iter()
                        .any(|m| *m == MiniBatch::Backward(next_b[i]))
                };
            let f_avail = next_f[i] < n
                && next_f[i] - next_b[i] < w - i
                && (i == 0
                    || rows[i - 1][..p.min(rows[i - 1].len())]
                        .iter()
                        .any(|m| *m == MiniBatch::Forward(next_f[i])));
            if b_avail {
                rows[i].push(MiniBatch::Backward(next_b[i]));
                next_b[i] += 1;
            } else if f_avail {
                rows[i].push(MiniBatch::Forward(next_f[i]));
                next_f[i] += 1;
            } else {
                rows[i].push(MiniBatch::Nops);
            }
        }
    }
    rows
}

#[test]
fn test_1f1b() {
    let test_cases = vec![(2, 4), (4, 8), (4, 10), (4, 6), (4, 16)];
    for (world_size, num_minibatch) in test_cases {
        let split_mark = "=".repeat(20);
        println!(
            "{} world_size: {}, num_minibatch: {} {}",
            split_mark, world_size, num_minibatch, split_mark
        );
        let mut scheduler = Scheduler::new(world_size);
        let arrangements = scheduler.run::<Strategy1F1B>(num_minibatch).unwrap();
        assert_eq!(arrangements.len(), world_size);
    }
}

#[test]
fn schedule_shape_and_counts() {
    for (w, n) in [(1, 1), (1, 5), (2, 4), (3, 3), (4, 8), (4, 10), (5, 7)] {
        let rows = run_1f1b(w, n);
        assert_eq!(rows.len(), w);
        let expected_len = if n == w && w >= 2 {
            2 * n + 2 * w - 3
        } else {
            2 * n + 2 * w - 2
        };
        for row in &rows {
            assert_eq!(row.len(), expected_len);
            let fwds: Vec<usize> = row
                .iter()
                .filter_map(|m| match m {
                    MiniBatch::Forward(i) => Some(*i),
                    _ => None,
                })
                .collect();
            let bwds: Vec<usize> = row
                .iter()
                .filter_map(|m| match m {
                    MiniBatch::Backward(i) => Some(*i),
                    _ => None,
                })
                .collect();
            // each minibatch's forward and backward occur exactly once, in
            // strictly increasing index order
            assert_eq!(fwds, (0..n).collect::<Vec<usize>>());
            assert_eq!(bwds, (0..n).collect::<Vec<usize>>());
            // total non-idle entries per stage
            let work = row.iter().filter(|m| **m != MiniBatch::Nops).count();
            assert_eq!(work, 2 * n);
        }
    }
}

#[test]
fn no_backward_precedes_its_forward() {
    for (w, n) in [(1, 3), (2, 4), (4, 8), (4, 10)] {
        let rows = run_1f1b(w, n);
        for row in &rows {
            for p in 0..row.len() {
                for idx in 0..n {
                    let fwd_seen = row[..=p]
                        .iter()
                        .filter(|m| **m == MiniBatch::Forward(idx))
                        .count();
                    let bwd_seen = row[..=p]
                        .iter()
                        .filter(|m| **m == MiniBatch::Backward(idx))
                        .count();
                    assert!(bwd_seen <= fwd_seen);
                }
            }
        }
    }
}

#[test]
fn matches_dependency_driven_oracle() {
    for (w, n) in [(4, 8), (2, 4), (4, 16)] {
        let closed_form = run_1f1b(w, n);
        let oracle = dependency_driven(w, n);
        assert_eq!(closed_form, oracle);
    }
}

#[test]
fn concrete_two_stage_four_minibatch() {
    let rows = run_1f1b(2, 4);
    assert_eq!(
        rows[0],
        vec![
            Forward(0),
            Forward(1),
            Nops,
            Backward(0),
            Forward(2),
            Backward(1),
            Forward(3),
            Backward(2),
            Nops,
            Backward(3),
        ]
    );
    assert_eq!(
        rows[1],
        vec![
            Nops,
            Forward(0),
            Backward(0),
            Forward(1),
            Backward(1),
            Forward(2),
            Backward(2),
            Forward(3),
            Backward(3),
            Nops,
        ]
    );
    // the stated non-idle orders of the two rows
    let work0: Vec<MiniBatch> = rows[0]
        .iter()
        .copied()
        .filter(|m| *m != Nops)
        .collect();
    assert_eq!(
        work0,
        vec![
            Forward(0),
            Forward(1),
            Backward(0),
            Forward(2),
            Backward(1),
            Forward(3),
            Backward(2),
            Backward(3),
        ]
    );
}

#[test]
fn complete_flips_exactly_at_horizon() {
    let (w, n) = (2usize, 4usize);
    let horizon = n + 2 * w - 1;
    let mut st = <Strategy1F1B as Strategy>::new(w, n);
    for k in 0..horizon {
        assert!(!st.complete(), "complete too early after {} steps", k);
        st.step().unwrap();
    }
    assert!(st.complete());
    assert!(st.complete()); // idempotent
    st.step().unwrap(); // tolerated after completion
    assert!(st.complete());
}

#[test]
fn take_schedule_twice_reports_double_consumption() {
    let mut st = <Strategy1F1B as Strategy>::new(2, 4);
    while !st.complete() {
        st.step().unwrap();
    }
    let first = st.arrangements();
    assert!(first.is_ok());
    assert_eq!(first.unwrap().len(), 2);
    let second = st.arrangements();
    assert_eq!(second, Err(ScheduleError::DoubleConsumption));
    // stepping a drained strategy has no buffer left to append to
    assert_eq!(st.step(), Err(ScheduleError::UninitializedOutput));
}
