use mnist_training::schedule::{TrainSchedule, TrainStep};
use mnist_training::sgd::Rng;
use mnist_training::BATCH;

#[test]
fn schedule_runs_every_epoch_in_order() {
    let mut schedule = TrainSchedule::new(2, 100, 2 * BATCH + 7);
    let mut steps = Vec::new();
    loop {
        let step = schedule.next(false);
        steps.push(step);
        if step == TrainStep::Finished {
            break;
        }
    }
    let batch = |epoch, batch: usize| TrainStep::Batch {
        epoch,
        batch,
        start: batch * BATCH,
        end: (batch + 1) * BATCH,
    };
    assert_eq!(
        steps,
        vec![
            TrainStep::Shuffle { epoch: 1 },
            batch(1, 0),
            batch(1, 1),
            TrainStep::EndEpoch { epoch: 1, batches: 2 },
            TrainStep::Shuffle { epoch: 2 },
            batch(2, 0),
            batch(2, 1),
            TrainStep::EndEpoch { epoch: 2, batches: 2 },
            TrainStep::Finished,
        ]
    );
    assert_eq!(schedule.next(true), TrainStep::Finished);
}

#[test]
fn schedule_caps_batches_by_request() {
    let mut schedule = TrainSchedule::new(1, 1, 10 * BATCH);
    assert_eq!(schedule.next(false), TrainStep::Shuffle { epoch: 1 });
    assert_eq!(
        schedule.next(false),
        TrainStep::Batch { epoch: 1, batch: 0, start: 0, end: BATCH }
    );
    assert_eq!(schedule.next(false), TrainStep::EndEpoch { epoch: 1, batches: 1 });
    assert_eq!(schedule.next(false), TrainStep::Finished);
}

#[test]
fn schedule_with_no_epochs_finishes_at_once() {
    let mut schedule = TrainSchedule::new(0, 5, 1000);
    assert_eq!(schedule.next(true), TrainStep::Finished);
}

#[test]
fn schedule_stops_when_cancelled() {
    let mut schedule = TrainSchedule::new(3, 5, 5 * BATCH);
    assert_eq!(schedule.next(false), TrainStep::Shuffle { epoch: 1 });
    assert!(matches!(schedule.next(false), TrainStep::Batch { batch: 0, .. }));
    assert_eq!(schedule.next(true), TrainStep::Cancelled);
    assert_eq!(schedule.next(false), TrainStep::Cancelled);
    let mut before_start = TrainSchedule::new(3, 5, 5 * BATCH);
    assert_eq!(before_start.next(true), TrainStep::Cancelled);
}

#[test]
fn schedule_reports_empty_epochs() {
    // Fewer examples than one batch: epochs run with no batches.
    let mut schedule = TrainSchedule::new(1, 10, BATCH - 1);
    assert_eq!(schedule.next(false), TrainStep::Shuffle { epoch: 1 });
    assert_eq!(schedule.next(false), TrainStep::EndEpoch { epoch: 1, batches: 0 });
    assert_eq!(schedule.next(false), TrainStep::Finished);
}

#[test]
fn rng_first_draw_is_splitmix64() {
    // The reference SplitMix64 sequence for seed 0 starts with this value.
    let mut rng = Rng::new(0);
    assert_eq!(rng.next_u64(), 0xE220_A839_7B1D_CDAF);
}

#[test]
fn rng_is_deterministic() {
    let mut a = Rng::new(0x5eed);
    let mut b = Rng::new(0x5eed);
    for _ in 0..10 {
        assert_eq!(a.next_u64(), b.next_u64());
    }
}

#[test]
fn rng_index_stays_below_bound() {
    let mut rng = Rng::new(42);
    for n in 1..200 {
        assert!(rng.index(n) < n);
    }
    assert_eq!(rng.index(1), 0);
}

#[test]
fn shuffle_is_a_permutation() {
    let mut rng = Rng::new(0x5eed);
    let mut order: Vec<usize> = (0..1000).collect();
    rng.shuffle(&mut order);
    assert_ne!(order, (0..1000).collect::<Vec<_>>());
    let mut sorted = order.clone();
    sorted.sort();
    assert_eq!(sorted, (0..1000).collect::<Vec<_>>());

    let mut with_repeats = vec![3, 3, 1, 7, 1, 1];
    rng.shuffle(&mut with_repeats);
    with_repeats.sort();
    assert_eq!(with_repeats, vec![1, 1, 1, 3, 3, 7]);

    let mut empty: Vec<usize> = vec![];
    rng.shuffle(&mut empty);
    assert!(empty.is_empty());
}
