//! Batches of examples cut from a split, in the layout that the classifier
//! takes: the images' pixels concatenated, and the labels widened to `i64`.

use vstd::prelude::*;

use crate::data::Mnist;
use crate::{BATCH, IMAGE_PIXELS};

verus! {

/// The pixels of the images at `indices`, concatenated in that order.
pub open spec fn images_at(dataset: &Mnist, indices: Seq<usize>) -> Seq<u8>
    decreases indices.len(),
{
    if indices.len() == 0 {
        Seq::empty()
    } else {
        images_at(dataset, indices.drop_last()) + dataset.image_at(indices.last() as int)
    }
}

/// The labels of the examples at `indices`, in that order, as `i64`.
pub open spec fn labels_at(dataset: &Mnist, indices: Seq<usize>) -> Seq<i64> {
    Seq::new(indices.len(), |i: int| dataset.labels()[indices[i] as int] as i64)
}

/// The indices `start, start + 1, ..., start + count - 1`.
pub open spec fn consecutive(start: int, count: nat) -> Seq<usize> {
    Seq::new(count, |i: int| (start + i) as usize)
}

/// Whether every index names a whole image and a label of the split.
pub open spec fn indices_in(dataset: &Mnist, indices: Seq<usize>) -> bool {
    forall|i: int|
        0 <= i < indices.len() ==> #[trigger] dataset.has_image(indices[i] as int) && indices[i]
            < dataset.labels().len()
}

/// The images of a batch line up with its indices: image number `indices[i]`
/// fills the `i`-th stretch of `IMAGE_PIXELS` bytes, and there is nothing
/// more.
proof fn lemma_images_at_positions(dataset: &Mnist, indices: Seq<usize>)
    requires
        indices_in(dataset, indices),
    ensures
        images_at(dataset, indices).len() == indices.len() * IMAGE_PIXELS,
        forall|i: int|
            0 <= i < indices.len() ==> #[trigger] images_at(dataset, indices).subrange(
                i * IMAGE_PIXELS,
                (i + 1) * IMAGE_PIXELS,
            ) == dataset.image_at(indices[i] as int),
    decreases indices.len(),
{
    if indices.len() > 0 {
        let init = indices.drop_last();
        assert forall|i: int| 0 <= i < init.len() implies #[trigger] dataset.has_image(
            init[i] as int,
        ) && init[i] < dataset.labels().len() by {
            assert(init[i] == indices[i]);
            assert(dataset.has_image(indices[i] as int));
        }
        lemma_images_at_positions(dataset, init);
        let n = init.len();
        let prefix = images_at(dataset, init);
        let last = dataset.image_at(indices.last() as int);
        assert(dataset.has_image(indices[n as int] as int));
        assert(last.len() == IMAGE_PIXELS);
        let whole = prefix + last;
        assert forall|i: int| 0 <= i < indices.len() implies #[trigger] whole.subrange(
            i * IMAGE_PIXELS,
            (i + 1) * IMAGE_PIXELS,
        ) == dataset.image_at(indices[i] as int) by {
            if i < n {
                assert(prefix.subrange(i * IMAGE_PIXELS, (i + 1) * IMAGE_PIXELS)
                    == dataset.image_at(init[i] as int));
                assert(whole.subrange(i * IMAGE_PIXELS, (i + 1) * IMAGE_PIXELS) =~= prefix.subrange(
                    i * IMAGE_PIXELS,
                    (i + 1) * IMAGE_PIXELS,
                ));
                assert(init[i] == indices[i]);
            } else {
                assert(i == n);
                assert(whole.subrange(i * IMAGE_PIXELS, (i + 1) * IMAGE_PIXELS) =~= last);
            }
        }
    }
}

/// Position `i` of a batch pairs the image of example `indices[i]` with the
/// label of that same example, and the batch holds one image and one label
/// per index.
pub proof fn lemma_batch_pairs_images_with_labels(dataset: &Mnist, indices: Seq<usize>)
    requires
        indices_in(dataset, indices),
    ensures
        images_at(dataset, indices).len() == indices.len() * IMAGE_PIXELS,
        labels_at(dataset, indices).len() == indices.len(),
        forall|i: int|
            0 <= i < indices.len() ==> #[trigger] labels_at(dataset, indices)[i]
                == dataset.labels()[indices[i] as int] as i64 && images_at(dataset, indices).subrange(
                i * IMAGE_PIXELS,
                (i + 1) * IMAGE_PIXELS,
            ) == dataset.pixels().subrange(
                indices[i] * IMAGE_PIXELS,
                (indices[i] + 1) * IMAGE_PIXELS,
            ),
{
    lemma_images_at_positions(dataset, indices);
    assert forall|i: int| 0 <= i < indices.len() implies #[trigger] labels_at(dataset, indices)[i]
        == dataset.labels()[indices[i] as int] as i64 && images_at(dataset, indices).subrange(
        i * IMAGE_PIXELS,
        (i + 1) * IMAGE_PIXELS,
    ) == dataset.pixels().subrange(
        indices[i] * IMAGE_PIXELS,
        (indices[i] + 1) * IMAGE_PIXELS,
    ) by {
        assert(images_at(dataset, indices).subrange(i * IMAGE_PIXELS, (i + 1) * IMAGE_PIXELS)
            == dataset.image_at(indices[i] as int));
    }
}

/// Appends image number `index` to `out`.
fn push_image(out: &mut Vec<u8>, dataset: &Mnist, index: usize)
    requires
        dataset.has_image(index as int),
    ensures
        final(out)@ == old(out)@ + dataset.image_at(index as int),
{
    let image = dataset.image(index);
    let mut j: usize = 0;
    let ghost start = out@;
    while j < image.len()
        invariant
            image@ == dataset.image_at(index as int),
            j <= image@.len(),
            out@ == start + image@.subrange(0, j as int),
        decreases image@.len() - j,
    {
        out.push(image[j]);
        j = j + 1;
        assert(out@ =~= start + image@.subrange(0, j as int));
    }
    assert(image@.subrange(0, image@.len() as int) =~= image@);
}

/// The images and labels of the examples at `indices`, in that order.
pub fn batch_with_labels(dataset: &Mnist, indices: &[usize]) -> (res: (Vec<u8>, Vec<i64>))
    requires
        indices_in(dataset, indices@),
    ensures
        res.0@ == images_at(dataset, indices@),
        res.1@ == labels_at(dataset, indices@),
        res.0@.len() == indices@.len() * IMAGE_PIXELS,
        res.1@.len() == indices@.len(),
        forall|i: int|
            0 <= i < indices@.len() ==> #[trigger] res.1@[i] == dataset.labels()[indices@[i] as int]
                as i64,
{
    let mut images: Vec<u8> = Vec::with_capacity(BATCH * IMAGE_PIXELS);
    let mut labels: Vec<i64> = Vec::with_capacity(BATCH);
    let mut k: usize = 0;
    while k < indices.len()
        invariant
            indices_in(dataset, indices@),
            k <= indices@.len(),
            images@ == images_at(dataset, indices@.take(k as int)),
            labels@ == labels_at(dataset, indices@.take(k as int)),
        decreases indices@.len() - k,
    {
        let index = indices[k];
        assert(dataset.has_image(indices@[k as int] as int));
        push_image(&mut images, dataset, index);
        labels.push(dataset.label(index) as i64);
        assert(indices@.take(k + 1).drop_last() =~= indices@.take(k as int));
        k = k + 1;
        assert(labels@ =~= labels_at(dataset, indices@.take(k as int)));
    }
    assert(indices@.take(indices@.len() as int) =~= indices@);
    proof {
        lemma_images_at_positions(dataset, indices@);
    }
    (images, labels)
}

/// The pixels of the `BATCH` consecutive images from image number `start`.
pub fn batch_images(dataset: &Mnist, start: usize) -> (res: Vec<u8>)
    requires
        (start + BATCH) * IMAGE_PIXELS <= dataset.pixels().len(),
    ensures
        res@ == dataset.pixels().subrange(
            start * IMAGE_PIXELS,
            (start + BATCH) * IMAGE_PIXELS,
        ),
{
    let mut images: Vec<u8> = Vec::with_capacity(BATCH * IMAGE_PIXELS);
    proof {
        dataset.lemma_sizes_fit();
    }
    let end = start + BATCH;
    let mut index = start;
    while index < end
        invariant
            (start + BATCH) * IMAGE_PIXELS <= dataset.pixels().len(),
            end == start + BATCH,
            start <= index <= end,
            images@ == dataset.pixels().subrange(start * IMAGE_PIXELS, index * IMAGE_PIXELS),
        decreases end - index,
    {
        push_image(&mut images, dataset, index);
        index = index + 1;
        assert(images@ =~= dataset.pixels().subrange(
            start * IMAGE_PIXELS,
            index * IMAGE_PIXELS,
        ));
    }
    images
}

/// The images of `count` consecutive examples from `start` are one stretch
/// of the pixels.
proof fn lemma_images_at_consecutive(dataset: &Mnist, start: int, count: nat)
    requires
        0 <= start,
        start + count <= usize::MAX + 1,
        (start + count) * IMAGE_PIXELS <= dataset.pixels().len(),
    ensures
        images_at(dataset, consecutive(start, count)) == dataset.pixels().subrange(
            start * IMAGE_PIXELS,
            (start + count) * IMAGE_PIXELS,
        ),
    decreases count,
{
    if count == 0 {
        assert(images_at(dataset, consecutive(start, count)) =~= Seq::<u8>::empty());
    } else {
        let prev = (count - 1) as nat;
        assert(consecutive(start, count).drop_last() =~= consecutive(start, prev));
        lemma_images_at_consecutive(dataset, start, prev);
        assert(consecutive(start, count).last() as int == start + prev);
        assert(images_at(dataset, consecutive(start, count)) =~= dataset.pixels().subrange(
            start * IMAGE_PIXELS,
            (start + count) * IMAGE_PIXELS,
        ));
    }
}

/// The batch that `batch_images` cuts from `start` holds the same pixels as
/// the one that `batch_with_labels` cuts for the indices `start` to
/// `start + BATCH - 1`.
pub proof fn lemma_batch_images_is_consecutive_batch(dataset: &Mnist, start: usize)
    requires
        (start + BATCH) * IMAGE_PIXELS <= dataset.pixels().len(),
    ensures
        dataset.pixels().subrange(start * IMAGE_PIXELS, (start + BATCH) * IMAGE_PIXELS)
            == images_at(dataset, consecutive(start as int, BATCH as nat)),
{
    dataset.lemma_sizes_fit();
    lemma_images_at_consecutive(dataset, start as int, BATCH as nat);
}

} // verus!
