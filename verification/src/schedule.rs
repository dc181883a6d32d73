//! The order of work in training: per epoch, a reshuffle of the example
//! order, then the whole batches of that order, then the epoch's summary.
//!
//! The schedule decides; the caller does the work that each step names and
//! asks for the next step, saying whether the run was asked to stop.

use vstd::prelude::*;

use crate::BATCH;

verus! {

/// The next piece of work in a training run.
#[derive(Debug, Clone, Copy, PartialEq, Eq, Structural)]
pub enum TrainStep {
    /// Reshuffle the example order: epoch `epoch` (counted from 1) begins.
    Shuffle { epoch: usize },
    /// Train on the examples at positions `start..end` of the order: batch
    /// `batch` (counted from 0) of epoch `epoch`.
    Batch { epoch: usize, batch: usize, start: usize, end: usize },
    /// Epoch `epoch` is over after `batches` batches: report it.
    EndEpoch { epoch: usize, batches: usize },
    /// Every epoch is done.
    Finished,
    /// The run was stopped before its end.
    Cancelled,
}

/// The state of a schedule, as numbers.
pub struct ScheduleView {
    /// Epochs to run.
    pub epochs: nat,
    /// Whole batches per epoch.
    pub per_epoch: nat,
    /// Length of the example order.
    pub order_len: nat,
    /// Epochs finished.
    pub completed: nat,
    /// Whether an epoch has begun and not ended.
    pub in_epoch: bool,
    /// Batches run in the current epoch.
    pub next_batch: nat,
    /// Whether the run was stopped.
    pub halted: bool,
}

/// Where a training run stands.
pub struct TrainSchedule {
    epochs: usize,
    per_epoch: usize,
    order_len: usize,
    completed: usize,
    in_epoch: bool,
    next_batch: usize,
    halted: bool,
}

/// Whether a schedule state is one that a run can reach.
pub open spec fn schedule_wf(s: ScheduleView) -> bool {
    &&& s.completed <= s.epochs
    &&& s.per_epoch * BATCH <= s.order_len
    &&& s.next_batch <= s.per_epoch
    &&& s.in_epoch ==> s.completed < s.epochs
    &&& !s.in_epoch ==> s.next_batch == 0
    &&& s.epochs <= usize::MAX
    &&& s.order_len <= usize::MAX
}

/// The step that a schedule in state `s` gives next, and the state after it,
/// when `cancel` tells whether the run was asked to stop.
pub open spec fn schedule_step(s: ScheduleView, cancel: bool) -> (ScheduleView, TrainStep) {
    if s.halted {
        (s, TrainStep::Cancelled)
    } else if !s.in_epoch && s.completed == s.epochs {
        (s, TrainStep::Finished)
    } else if !s.in_epoch {
        if cancel {
            (ScheduleView { halted: true, ..s }, TrainStep::Cancelled)
        } else {
            (
                ScheduleView { in_epoch: true, ..s },
                TrainStep::Shuffle { epoch: (s.completed + 1) as usize },
            )
        }
    } else if s.next_batch < s.per_epoch {
        if cancel {
            (ScheduleView { halted: true, ..s }, TrainStep::Cancelled)
        } else {
            (
                ScheduleView { next_batch: s.next_batch + 1, ..s },
                TrainStep::Batch {
                    epoch: (s.completed + 1) as usize,
                    batch: s.next_batch as usize,
                    start: (s.next_batch * BATCH) as usize,
                    end: ((s.next_batch + 1) * BATCH) as usize,
                },
            )
        }
    } else {
        (
            ScheduleView { completed: s.completed + 1, in_epoch: false, next_batch: 0, ..s },
            TrainStep::EndEpoch {
                epoch: (s.completed + 1) as usize,
                batches: s.per_epoch as usize,
            },
        )
    }
}

impl View for TrainSchedule {
    type V = ScheduleView;

    closed spec fn view(&self) -> ScheduleView {
        ScheduleView {
            epochs: self.epochs as nat,
            per_epoch: self.per_epoch as nat,
            order_len: self.order_len as nat,
            completed: self.completed as nat,
            in_epoch: self.in_epoch,
            next_batch: self.next_batch as nat,
            halted: self.halted,
        }
    }
}

impl TrainSchedule {
    #[verifier::type_invariant]
    spec fn reachable(&self) -> bool {
        schedule_wf(self@)
    }

    /// A schedule of `epochs` epochs over an order of `order_len` examples,
    /// each of at most `train_batches` whole batches; a last partial batch is
    /// skipped.
    pub fn new(epochs: usize, train_batches: usize, order_len: usize) -> (res: Self)
        ensures
            res@ == (ScheduleView {
                epochs: epochs as nat,
                per_epoch: if train_batches <= order_len / BATCH {
                    train_batches as nat
                } else {
                    (order_len / BATCH) as nat
                },
                order_len: order_len as nat,
                completed: 0,
                in_epoch: false,
                next_batch: 0,
                halted: false,
            }),
            schedule_wf(res@),
    {
        let whole = order_len / BATCH;
        let per_epoch = if train_batches <= whole {
            train_batches
        } else {
            whole
        };
        TrainSchedule {
            epochs,
            per_epoch,
            order_len,
            completed: 0,
            in_epoch: false,
            next_batch: 0,
            halted: false,
        }
    }

    /// The next step; `cancel` tells whether the run was asked to stop. A
    /// stop is honoured before an epoch begins and before each batch.
    pub fn next(&mut self, cancel: bool) -> (res: TrainStep)
        ensures
            (final(self)@, res) == schedule_step(old(self)@, cancel),
            schedule_wf(final(self)@),
            res matches TrainStep::Batch { start, end, .. } ==> end == start + BATCH && end
                <= old(self)@.order_len,
    {
        proof {
            use_type_invariant(&*self);
        }
        if self.halted {
            TrainStep::Cancelled
        } else if !self.in_epoch && self.completed == self.epochs {
            TrainStep::Finished
        } else if !self.in_epoch {
            if cancel {
                self.halted = true;
                TrainStep::Cancelled
            } else {
                self.in_epoch = true;
                TrainStep::Shuffle { epoch: self.completed + 1 }
            }
        } else if self.next_batch < self.per_epoch {
            if cancel {
                self.halted = true;
                TrainStep::Cancelled
            } else {
                let batch = self.next_batch;
                self.next_batch = batch + 1;
                TrainStep::Batch {
                    epoch: self.completed + 1,
                    batch,
                    start: batch * BATCH,
                    end: (batch + 1) * BATCH,
                }
            }
        } else {
            let epoch = self.completed + 1;
            *self = TrainSchedule {
                epochs: self.epochs,
                per_epoch: self.per_epoch,
                order_len: self.order_len,
                completed: epoch,
                in_epoch: false,
                next_batch: 0,
                halted: false,
            };
            TrainStep::EndEpoch { epoch, batches: self.per_epoch }
        }
    }
}

/// The state after `n` steps asked for without a stop from state `s`, and
/// those steps in order.
pub open spec fn run_uncancelled(s: ScheduleView, n: nat) -> (ScheduleView, Seq<TrainStep>)
    decreases n,
{
    if n == 0 {
        (s, Seq::empty())
    } else {
        let (t, step) = schedule_step(s, false);
        let (u, rest) = run_uncancelled(t, (n - 1) as nat);
        (u, seq![step] + rest)
    }
}

/// Batch `b` of epoch `epoch`.
pub open spec fn batch_step(epoch: nat, b: nat) -> TrainStep {
    TrainStep::Batch {
        epoch: epoch as usize,
        batch: b as usize,
        start: (b * BATCH) as usize,
        end: ((b + 1) * BATCH) as usize,
    }
}

/// The steps of epoch `epoch` with `per_epoch` batches: the reshuffle, the
/// batches in order, the summary.
pub open spec fn epoch_steps(epoch: nat, per_epoch: nat) -> Seq<TrainStep> {
    seq![TrainStep::Shuffle { epoch: epoch as usize }] + Seq::new(
        per_epoch,
        |b: int| batch_step(epoch, b as nat),
    ) + seq![TrainStep::EndEpoch { epoch: epoch as usize, batches: per_epoch as usize }]
}

/// The steps of `count` epochs from epoch `first` on.
pub open spec fn epochs_steps(first: nat, count: nat, per_epoch: nat) -> Seq<TrainStep>
    decreases count,
{
    if count == 0 {
        Seq::empty()
    } else {
        epoch_steps(first, per_epoch) + epochs_steps(first + 1, (count - 1) as nat, per_epoch)
    }
}

/// Running `a + b` steps is running `a` steps, then `b` more.
proof fn lemma_run_split(s: ScheduleView, a: nat, b: nat)
    ensures
        run_uncancelled(s, a + b) == ({
            let (t, x) = run_uncancelled(s, a);
            let (u, y) = run_uncancelled(t, b);
            (u, x + y)
        }),
    decreases a,
{
    if a == 0 {
        assert(run_uncancelled(s, 0).1 + run_uncancelled(s, b).1 =~= run_uncancelled(s, b).1);
    } else {
        let t = schedule_step(s, false).0;
        lemma_run_split(t, (a - 1) as nat, b);
        assert((a + b - 1) as nat == (a - 1) as nat + b);
        let step = schedule_step(s, false).1;
        let x1 = run_uncancelled(t, (a - 1) as nat).1;
        let mid = run_uncancelled(t, (a - 1) as nat).0;
        let y = run_uncancelled(mid, b).1;
        assert(seq![step] + (x1 + y) =~= (seq![step] + x1) + y);
    }
}

/// Inside an epoch, `k` steps run the next `k` batches.
proof fn lemma_run_batches(s: ScheduleView, k: nat)
    requires
        schedule_wf(s),
        !s.halted,
        s.in_epoch,
        s.next_batch + k <= s.per_epoch,
    ensures
        run_uncancelled(s, k) == (
        ScheduleView { next_batch: s.next_batch + k, ..s },
        Seq::new(k, |i: int| batch_step(s.completed + 1, (s.next_batch + i) as nat)),
        ),
    decreases k,
{
    if k == 0 {
        assert(Seq::new(0, |i: int| batch_step(s.completed + 1, (s.next_batch + i) as nat))
            =~= Seq::<TrainStep>::empty());
    } else {
        let t = schedule_step(s, false).0;
        assert(t == ScheduleView { next_batch: s.next_batch + 1, ..s });
        lemma_run_batches(t, (k - 1) as nat);
        let rest = Seq::new(
            (k - 1) as nat,
            |i: int| batch_step(t.completed + 1, (t.next_batch + i) as nat),
        );
        assert(schedule_step(s, false).1 == batch_step(s.completed + 1, s.next_batch));
        assert(seq![batch_step(s.completed + 1, s.next_batch)] + rest =~= Seq::new(
            k,
            |i: int| batch_step(s.completed + 1, (s.next_batch + i) as nat),
        ));
    }
}

/// From the start of an epoch, `per_epoch + 2` steps run that epoch.
proof fn lemma_run_epoch(s: ScheduleView)
    requires
        schedule_wf(s),
        !s.halted,
        !s.in_epoch,
        s.completed < s.epochs,
    ensures
        run_uncancelled(s, s.per_epoch + 2) == (
        ScheduleView { completed: s.completed + 1, ..s },
        epoch_steps(s.completed + 1, s.per_epoch),
        ),
{
    let p = s.per_epoch;
    let t = ScheduleView { in_epoch: true, ..s };
    assert(schedule_step(s, false) == (t, TrainStep::Shuffle { epoch: (s.completed + 1) as usize }));
    lemma_run_split(t, p, 1);
    lemma_run_batches(t, p);
    let u = ScheduleView { next_batch: p, ..t };
    let last = schedule_step(u, false);
    assert(last.0 == ScheduleView { completed: s.completed + 1, ..s });
    assert(run_uncancelled(last.0, 0) == (last.0, Seq::<TrainStep>::empty()));
    assert(run_uncancelled(u, 1).1 =~= seq![last.1]);
    assert(run_uncancelled(u, 1).0 == last.0);
    let batches = Seq::new(p, |i: int| batch_step(t.completed + 1, (t.next_batch + i) as nat));
    assert(batches =~= Seq::new(p, |b: int| batch_step(s.completed + 1, b as nat)));
    assert(seq![TrainStep::Shuffle { epoch: (s.completed + 1) as usize }] + (batches + seq![last.1])
        =~= epoch_steps(s.completed + 1, p));
    assert(run_uncancelled(t, (p + 1) as nat) == (last.0, batches + seq![last.1]));
    assert(((p + 2) - 1) as nat == (p + 1) as nat);
}

/// From the start of an epoch, `count * (per_epoch + 2)` steps run the next
/// `count` epochs.
proof fn lemma_run_epochs(s: ScheduleView, count: nat)
    requires
        schedule_wf(s),
        !s.halted,
        !s.in_epoch,
        s.completed + count <= s.epochs,
    ensures
        run_uncancelled(s, count * (s.per_epoch + 2)) == (
        ScheduleView { completed: s.completed + count, ..s },
        epochs_steps(s.completed + 1, count, s.per_epoch),
        ),
    decreases count,
{
    if count == 0 {
        assert(count * (s.per_epoch + 2) == 0) by (nonlinear_arith)
            requires
                count == 0,
        ;
        assert(ScheduleView { completed: s.completed + count, ..s } == s);
    } else {
        let p = s.per_epoch;
        let c = (count - 1) as nat;
        assert(count * (p + 2) == (p + 2) + c * (p + 2)) by (nonlinear_arith)
            requires
                c == count - 1,
        ;
        lemma_run_split(s, (p + 2) as nat, c * (p + 2));
        lemma_run_epoch(s);
        let t = ScheduleView { completed: s.completed + 1, ..s };
        lemma_run_epochs(t, c);
        assert(ScheduleView { completed: t.completed + c, ..t } == ScheduleView {
            completed: s.completed + count,
            ..s
        });
    }
}

/// A run that is never asked to stop gives, for each epoch in turn, the
/// reshuffle, every whole batch in order and the epoch's summary, and then
/// `Finished` from then on: `epochs * (per_epoch + 2)` steps before it.
pub proof fn lemma_uncancelled_run(s: ScheduleView)
    requires
        schedule_wf(s),
        s.completed == 0,
        !s.in_epoch,
        !s.halted,
    ensures
        run_uncancelled(s, s.epochs * (s.per_epoch + 2)).1 == epochs_steps(
            1,
            s.epochs,
            s.per_epoch,
        ),
        forall|cancel: bool|
            #[trigger] schedule_step(run_uncancelled(s, s.epochs * (s.per_epoch + 2)).0, cancel).1
                == TrainStep::Finished,
{
    lemma_run_epochs(s, s.epochs);
    let end = run_uncancelled(s, s.epochs * (s.per_epoch + 2)).0;
    assert(end.completed == end.epochs);
}

/// Once stopped, a run stays stopped whatever is asked.
pub proof fn lemma_cancel_is_final(s: ScheduleView, cancel: bool, again: bool)
    requires
        schedule_wf(s),
        schedule_step(s, cancel).1 == TrainStep::Cancelled,
    ensures
        schedule_step(schedule_step(s, cancel).0, again) == (
        schedule_step(s, cancel).0,
        TrainStep::Cancelled,
        ),
{
}

/// A stop is honoured in every epoch: from any reachable state that is not
/// stopped, where the next step would begin an epoch or a batch, asking with
/// `cancel` gives `Cancelled`, leaves the run stopped, and every later step,
/// asked with or without a stop, is `Cancelled` too.
pub proof fn lemma_stop_honoured(s: ScheduleView, later: bool)
    requires
        schedule_wf(s),
        !s.halted,
        !(!s.in_epoch && s.completed == s.epochs),
        !(s.in_epoch && s.next_batch == s.per_epoch),
    ensures
        schedule_step(s, true).1 == TrainStep::Cancelled,
        schedule_step(s, true).0.halted,
        schedule_step(schedule_step(s, true).0, later).1 == TrainStep::Cancelled,
{
}

} // verus!
