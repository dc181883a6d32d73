//! An MNIST split held as raw pixel bytes and label bytes, and the batches
//! cut from it for the classifier.

use vstd::prelude::*;

use crate::IMAGE_PIXELS;

verus! {

/// One split of MNIST (training or test): images as pixel bytes, image after
/// image, and one label byte per example. A pixel byte `p` stands for the
/// intensity `p / 255`.
pub struct Mnist {
    images: Vec<u8>,
    labels: Vec<u8>,
}

impl Mnist {
    /// All pixel bytes, image after image.
    pub closed spec fn pixels(&self) -> Seq<u8> {
        self.images@
    }

    /// All label bytes.
    pub closed spec fn labels(&self) -> Seq<u8> {
        self.labels@
    }

    /// Whether the pixels hold a whole image number `index`.
    pub open spec fn has_image(&self, index: int) -> bool {
        0 <= index && (index + 1) * IMAGE_PIXELS <= self.pixels().len()
    }

    /// The pixels of image number `index`.
    pub open spec fn image_at(&self, index: int) -> Seq<u8> {
        self.pixels().subrange(index * IMAGE_PIXELS, (index + 1) * IMAGE_PIXELS)
    }

    /// The pixel and label counts fit in a `usize`.
    pub proof fn lemma_sizes_fit(&self)
        ensures
            self.pixels().len() <= usize::MAX,
            self.labels().len() <= usize::MAX,
    {
        assert(self.images.len() == self.images@.len());
        assert(self.labels.len() == self.labels@.len());
    }

    /// A split made of decoded pixel and label bytes.
    pub fn new(images: Vec<u8>, labels: Vec<u8>) -> (res: Self)
        ensures
            res.pixels() == images@,
            res.labels() == labels@,
    {
        Mnist { images, labels }
    }

    /// The number of examples: the number of labels.
    pub fn len(&self) -> (res: usize)
        ensures
            res == self.labels().len(),
    {
        self.labels.len()
    }

    /// The number of whole images.
    pub fn image_count(&self) -> (res: usize)
        ensures
            res == self.pixels().len() / (IMAGE_PIXELS as nat),
            forall|i: int| 0 <= i < res <==> #[trigger] self.has_image(i),
    {
        self.images.len() / IMAGE_PIXELS
    }

    /// The pixels of image number `index`.
    pub fn image(&self, index: usize) -> (res: &[u8])
        requires
            self.has_image(index as int),
        ensures
            res@ == self.image_at(index as int),
    {
        let total = self.images.len();
        assert((index + 1) * IMAGE_PIXELS <= total);
        let start = index * IMAGE_PIXELS;
        vstd::slice::slice_subrange(self.images.as_slice(), start, start + IMAGE_PIXELS)
    }

    /// The label of example number `index`.
    pub fn label(&self, index: usize) -> (res: u8)
        requires
            index < self.labels().len(),
        ensures
            res == self.labels()[index as int],
    {
        self.labels[index]
    }
}

} // verus!
