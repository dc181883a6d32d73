//! Reading the classifier's outputs: which class a row of logits predicts,
//! whether values are finite, and the running tally of an evaluation.
//!
//! Logits and parameters are `f32` values; they come here as their IEEE 754
//! bit patterns (`f32::to_bits`), on which the decisions below are exact.

use vstd::prelude::*;

use crate::data::Mnist;
use crate::{BATCH, CLASSES};

verus! {

/// The rank of the `f32` with bit pattern `bits` in the IEEE 754 total order
/// (the order of `f32::total_cmp`): values with the sign bit clear rank by
/// their bits, values with it set rank below them, in reverse.
pub open spec fn total_order_rank(bits: u32) -> int {
    if bits < 0x8000_0000 {
        bits as int
    } else {
        -1 - (bits - 0x8000_0000)
    }
}

/// Whether the `f32` with bit pattern `bits` is finite: its exponent field is
/// not all ones (all ones encodes an infinity or a NaN).
pub open spec fn is_finite_bits(bits: u32) -> bool {
    (bits / 0x80_0000) % 0x100 != 0xff
}

/// The total order ranks bit patterns as `f32::total_cmp` orders the values:
/// among values with the sign bit clear, a larger pattern is a larger value;
/// among values with it set, a larger pattern is a smaller value; and every
/// value with the sign bit set is below every value with it clear.
pub proof fn lemma_total_order_rank_monotone(x: u32, y: u32)
    ensures
        x < y < 0x8000_0000 ==> total_order_rank(x) < total_order_rank(y),
        0x8000_0000 <= x < y ==> total_order_rank(x) > total_order_rank(y),
        y < 0x8000_0000 <= x ==> total_order_rank(x) < total_order_rank(y),
        total_order_rank(x) == total_order_rank(y) ==> x == y,
{
}

/// Finiteness is decided by the exponent field alone: flipping the sign bit
/// keeps it, an all-ones exponent (an infinity or a NaN, of either sign) is
/// never finite, and any other exponent is.
pub proof fn lemma_is_finite_bits_exponent(b: u32)
    ensures
        is_finite_bits(b) == is_finite_bits(b ^ 0x8000_0000),
        ((b >> 23u32) & 0xffu32) == 0xffu32 ==> !is_finite_bits(b),
        ((b >> 23u32) & 0xffu32) != 0xffu32 ==> is_finite_bits(b),
{
    assert(((b / 0x80_0000) % 0x100 != 0xff) == (((b >> 23u32) & 0xffu32) != 0xffu32))
        by (bit_vector);
    let c = b ^ 0x8000_0000;
    assert(((c / 0x80_0000) % 0x100 != 0xff) == (((c >> 23u32) & 0xffu32) != 0xffu32))
        by (bit_vector);
    assert(((b >> 23u32) & 0xffu32) == (((b ^ 0x8000_0000u32) >> 23u32) & 0xffu32))
        by (bit_vector);
}

/// The position of the last greatest value of `values` in the total order;
/// 0 for an empty sequence.
pub open spec fn max_index(values: Seq<u32>) -> int
    decreases values.len(),
{
    if values.len() <= 1 {
        0
    } else {
        let i = max_index(values.drop_last());
        if total_order_rank(values.last()) >= total_order_rank(values[i]) {
            values.len() - 1
        } else {
            i
        }
    }
}

/// Whether position `i` holds a greatest value of `values`, and no later
/// position does.
pub open spec fn is_last_maximum(values: Seq<u32>, i: int) -> bool {
    &&& 0 <= i < values.len()
    &&& forall|j: int|
        0 <= j < values.len() ==> total_order_rank(#[trigger] values[j]) <= total_order_rank(
            values[i],
        )
    &&& forall|j: int|
        i < j < values.len() ==> total_order_rank(#[trigger] values[j]) < total_order_rank(
            values[i],
        )
}

/// `max_index` is the last position of a greatest value.
pub proof fn lemma_max_index_is_last_maximum(values: Seq<u32>)
    requires
        values.len() > 0,
    ensures
        is_last_maximum(values, max_index(values)),
    decreases values.len(),
{
    if values.len() > 1 {
        let init = values.drop_last();
        lemma_max_index_is_last_maximum(init);
        assert forall|j: int| 0 <= j < values.len() - 1 implies #[trigger] values[j] == init[j] by {}
    }
}

/// At most one position is the last position of a greatest value.
pub proof fn lemma_last_maximum_unique(values: Seq<u32>, i: int, k: int)
    requires
        is_last_maximum(values, i),
        is_last_maximum(values, k),
    ensures
        i == k,
{
    if i < k {
        assert(total_order_rank(values[k]) < total_order_rank(values[i]));
        assert(total_order_rank(values[k]) <= total_order_rank(values[k]));
    } else if k < i {
        assert(total_order_rank(values[i]) < total_order_rank(values[k]));
    }
}

/// The rank of a bit pattern in the total order.
fn rank(bits: u32) -> (res: i64)
    ensures
        res == total_order_rank(bits),
{
    if bits < 0x8000_0000 {
        bits as i64
    } else {
        -1 - ((bits - 0x8000_0000) as i64)
    }
}

/// The class that a row of logits predicts: the position of its last
/// greatest value in the total order, as a byte (positions past 255 wrap).
pub fn argmax(values: &[u32]) -> (res: u8)
    requires
        values@.len() > 0,
    ensures
        res as int == max_index(values@) % 256,
{
    let mut best: usize = 0;
    let mut best_rank = rank(values[0]);
    let mut i: usize = 1;
    while i < values.len()
        invariant
            1 <= i <= values@.len(),
            best == max_index(values@.take(i as int)),
            best < i,
            best_rank == total_order_rank(values@[best as int]),
        decreases values@.len() - i,
    {
        let r = rank(values[i]);
        assert(values@.take(i + 1).drop_last() =~= values@.take(i as int));
        if r >= best_rank {
            best = i;
            best_rank = r;
        }
        i = i + 1;
    }
    assert(values@.take(values@.len() as int) =~= values@);
    (best % 256) as u8
}

/// A value that is not finite, and where it stands.
#[derive(Debug, Clone, Copy, PartialEq, Eq, Structural)]
pub struct NonFinite {
    pub index: usize,
    pub bits: u32,
}

/// Checks that every value is finite; otherwise reports the first that is
/// not.
pub fn ensure_finite_slice(values: &[u32]) -> (res: Result<(), NonFinite>)
    ensures
        match res {
            Ok(()) => forall|j: int| 0 <= j < values@.len() ==> is_finite_bits(#[trigger] values@[j]),
            Err(e) => e.index < values@.len() && e.bits == values@[e.index as int]
                && !is_finite_bits(e.bits) && forall|j: int|
                0 <= j < e.index ==> is_finite_bits(#[trigger] values@[j]),
        },
{
    let mut i: usize = 0;
    while i < values.len()
        invariant
            i <= values@.len(),
            forall|j: int| 0 <= j < i ==> is_finite_bits(#[trigger] values@[j]),
        decreases values@.len() - i,
    {
        let bits = values[i];
        if (bits / 0x80_0000) % 0x100 == 0xff {
            return Err(NonFinite { index: i, bits });
        }
        i = i + 1;
    }
    Ok(())
}

/// Row `r` of a batch of logits laid out row after row, `CLASSES` per row.
pub open spec fn logit_row(logits: Seq<u32>, r: int) -> Seq<u32> {
    logits.subrange(r * CLASSES, (r + 1) * CLASSES)
}

/// Whether row `r` of the logits predicts the label of example `first + r`.
pub open spec fn row_correct(logits: Seq<u32>, labels: Seq<u8>, first: int, r: int) -> bool {
    max_index(logit_row(logits, r)) % 256 == labels[first + r]
}

/// How many of the first `rows` rows of the logits predict the labels of the
/// examples from `first` on.
pub open spec fn correct_rows(logits: Seq<u32>, labels: Seq<u8>, first: int, rows: nat) -> nat
    decreases rows,
{
    if rows == 0 {
        0
    } else {
        correct_rows(logits, labels, first, (rows - 1) as nat) + if row_correct(
            logits,
            labels,
            first,
            rows - 1,
        ) {
            1nat
        } else {
            0nat
        }
    }
}

/// An evaluation in progress over the first whole batches of a split: how
/// many batches it covers, how many are scored, and how many predictions
/// were right.
pub struct Evaluation {
    batches: usize,
    done: usize,
    correct: usize,
}

impl Evaluation {
    #[verifier::type_invariant]
    spec fn counts_fit(&self) -> bool {
        &&& self.done <= self.batches
        &&& self.batches * BATCH <= usize::MAX
        &&& self.correct <= self.done * BATCH
    }

    /// The number of batches to score.
    pub closed spec fn batch_count(&self) -> nat {
        self.batches as nat
    }

    /// The number of batches scored so far.
    pub closed spec fn scored(&self) -> nat {
        self.done as nat
    }

    /// The number of right predictions so far.
    pub closed spec fn right(&self) -> nat {
        self.correct as nat
    }

    /// Starts an evaluation of at most `max_batches` batches over a split of
    /// `dataset_len` examples; a last partial batch is skipped.
    pub fn new(max_batches: usize, dataset_len: usize) -> (res: Self)
        ensures
            res.batch_count() == if max_batches <= dataset_len / BATCH {
                max_batches as nat
            } else {
                (dataset_len / BATCH) as nat
            },
            res.scored() == 0,
            res.right() == 0,
    {
        let whole = dataset_len / BATCH;
        let batches = if max_batches <= whole {
            max_batches
        } else {
            whole
        };
        Evaluation { batches, done: 0, correct: 0 }
    }

    /// The first example of the next batch to score, if one is left.
    pub fn next_batch(&self) -> (res: Option<usize>)
        ensures
            match res {
                Some(start) => self.scored() < self.batch_count() && start == self.scored()
                    * BATCH,
                None => self.scored() == self.batch_count(),
            },
    {
        proof {
            use_type_invariant(self);
        }
        if self.done < self.batches {
            Some(self.done * BATCH)
        } else {
            None
        }
    }

    /// Scores the next batch: its logits, row after row, against the labels
    /// of its examples.
    pub fn record_batch(&mut self, logits: &[u32], dataset: &Mnist)
        requires
            old(self).scored() < old(self).batch_count(),
            logits@.len() == BATCH * CLASSES,
            (old(self).scored() + 1) * BATCH <= dataset.labels().len(),
        ensures
            final(self).batch_count() == old(self).batch_count(),
            final(self).scored() == old(self).scored() + 1,
            final(self).right() == old(self).right() + correct_rows(
                logits@,
                dataset.labels(),
                old(self).scored() * BATCH,
                BATCH as nat,
            ),
    {
        proof {
            use_type_invariant(&*self);
            dataset.lemma_sizes_fit();
        }
        let first = self.done * BATCH;
        let mut hits: usize = 0;
        let mut r: usize = 0;
        while r < BATCH
            invariant
                r <= BATCH,
                logits@.len() == BATCH * CLASSES,
                first + BATCH <= dataset.labels().len(),
                dataset.labels().len() <= usize::MAX,
                hits == correct_rows(logits@, dataset.labels(), first as int, r as nat),
                hits <= r,
            decreases BATCH - r,
        {
            let row = vstd::slice::slice_subrange(logits, r * CLASSES, (r + 1) * CLASSES);
            let predicted = argmax(row);
            let expected = dataset.label(first + r);
            if predicted == expected {
                hits = hits + 1;
            }
            r = r + 1;
        }
        let correct = self.correct + hits;
        let done = self.done + 1;
        *self = Evaluation { batches: self.batches, done, correct };
    }

    /// The number of right predictions so far.
    pub fn correct(&self) -> (res: usize)
        ensures
            res == self.right(),
            res <= self.scored() * BATCH,
    {
        proof {
            use_type_invariant(self);
        }
        self.correct
    }

    /// The number of examples scored so far.
    pub fn total(&self) -> (res: usize)
        ensures
            res == self.scored() * BATCH,
    {
        proof {
            use_type_invariant(self);
        }
        self.done * BATCH
    }
}

} // verus!
