//! Where pixels come from: anything that hands over one pixel at a time until
//! its current run of pixels ends.

use vstd::prelude::*;

verus! {

/// A producer of pixels, asked for one pixel at a time.
///
/// `remaining` is the run of pixels that is still to come before the producer
/// next reports the end of its stream.
pub trait ScanlinePixelSource {
    type Item;

    /// Whether the producer is in a state in which it can be asked. A producer
    /// that does not say otherwise always is.
    open spec fn valid(&self) -> bool {
        true
    }

    /// The pixels still to come, in order. Of a producer that does not say
    /// what they are, nothing is known.
    open spec fn remaining(&self) -> Seq<Self::Item> {
        arbitrary()
    }

    /// Hands over the next pixel, or `None` once the run has ended.
    fn next(&mut self) -> (pixel: Option<Self::Item>)
        requires
            old(self).valid(),
        ensures
            final(self).valid(),
            match pixel {
                Some(p) => {
                    &&& old(self).remaining().len() > 0
                    &&& p == old(self).remaining()[0]
                    &&& final(self).remaining() == old(self).remaining().skip(1)
                },
                None => old(self).remaining().len() == 0,
            },
    ;
}

/// A pixel source that reads a stored run of pixels from front to back.
pub struct StoredPixels<T> {
    pixels: Vec<T>,
    cursor: usize,
}

impl<T: Copy> StoredPixels<T> {
    /// A source that will hand over `pixels` in order.
    pub fn new(pixels: Vec<T>) -> (source: Self)
        ensures
            source.valid(),
            source.remaining() == pixels@,
    {
        StoredPixels { pixels, cursor: 0 }
    }
}

impl<T: Copy> ScanlinePixelSource for StoredPixels<T> {
    type Item = T;

    closed spec fn valid(&self) -> bool {
        self.cursor <= self.pixels@.len()
    }

    closed spec fn remaining(&self) -> Seq<T> {
        self.pixels@.skip(self.cursor as int)
    }

    fn next(&mut self) -> (pixel: Option<T>) {
        if self.cursor < self.pixels.len() {
            let p = self.pixels[self.cursor];
            self.cursor += 1;
            proof {
                assert(self.remaining() =~= old(self).remaining().skip(1));
            }
            Some(p)
        } else {
            None
        }
    }
}

} // verus!
