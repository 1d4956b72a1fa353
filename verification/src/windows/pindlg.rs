//! Pinned-image window settings and the pixel order the window paints.

use vstd::prelude::*;
use crate::raster::Image;

verus! {

#[derive(Clone, Copy, Debug, PartialEq, Eq, Structural)]
pub struct PinWindowOptions {
    pub min_width: i32,
    pub min_height: i32,
    pub topmost: bool,
    pub shadow: bool,
}

impl Default for PinWindowOptions {
    fn default() -> (o: Self)
        ensures
            o == (PinWindowOptions { min_width: 50, min_height: 50, topmost: true, shadow: true }),
    {
        PinWindowOptions { min_width: 50, min_height: 50, topmost: true, shadow: true }
    }
}

/// Byte `k` after swapping red and blue in the pixel that holds it.
pub open spec fn swapped_rb_byte(p: Seq<u8>, k: int) -> u8 {
    let base = k - k % 4;
    if k % 4 == 0 {
        p[base + 2]
    } else if k % 4 == 2 {
        p[base]
    } else {
        p[k]
    }
}

/// The image's pixels in BGRA order; bytes past the last whole pixel are 0.
pub fn rgba_to_bgra(image: &Image) -> (bgra: Vec<u8>)
    ensures
        bgra@.len() == image.pixels@.len(),
        forall|k: int|
            0 <= k < bgra@.len() ==> #[trigger] bgra@[k] == if k < image.pixels@.len()
                - image.pixels@.len() % 4 {
                swapped_rb_byte(image.pixels@, k)
            } else {
                0u8
            },
{
    let n = image.pixels.len();
    let whole = n - n % 4;
    let mut bgra: Vec<u8> = Vec::new();
    let mut i: usize = 0;
    while i < whole
        invariant
            n == image.pixels@.len(),
            whole == n - n % 4,
            i <= whole,
            i % 4 == 0,
            bgra@.len() == i,
            forall|k: int| 0 <= k < i ==> #[trigger] bgra@[k] == swapped_rb_byte(image.pixels@, k),
        decreases whole - i,
    {
        bgra.push(image.pixels[i + 2]);
        bgra.push(image.pixels[i + 1]);
        bgra.push(image.pixels[i]);
        bgra.push(image.pixels[i + 3]);
        proof {
            assert forall|k: int| 0 <= k < i + 4 implies #[trigger] bgra@[k] == swapped_rb_byte(
                image.pixels@,
                k,
            ) by {
                if k >= i {
                    assert(k - k % 4 == i);
                }
            }
        }
        i += 4;
    }
    while i < n
        invariant
            n == image.pixels@.len(),
            whole == n - n % 4,
            whole <= i <= n,
            bgra@.len() == i,
            forall|k: int| 0 <= k < whole ==> #[trigger] bgra@[k] == swapped_rb_byte(image.pixels@, k),
            forall|k: int| whole <= k < i ==> #[trigger] bgra@[k] == 0u8,
        decreases n - i,
    {
        bgra.push(0);
        i += 1;
    }
    bgra
}

/// Swapping red and blue twice gives the pixels back: byte `k` of the
/// swapped-back buffer is byte `k` of the original.
pub proof fn lemma_swap_rb_twice(p: Seq<u8>, k: int)
    requires
        0 <= k < p.len() - p.len() % 4,
    ensures
        swapped_rb_byte(Seq::new(p.len(), |j: int| swapped_rb_byte(p, j)), k) == p[k],
{
    let q = Seq::new(p.len(), |j: int| swapped_rb_byte(p, j));
    let base = k - k % 4;
    assert(0 <= base && base + 3 < p.len()) by {
        assert(p.len() - p.len() % 4 == (p.len() / 4) * 4);
        assert(k / 4 < p.len() / 4);
        assert(base == (k / 4) * 4);
    }
    assert((base + 2) % 4 == 2 && (base + 2) - (base + 2) % 4 == base);
    assert(base % 4 == 0);
}

} // verus!
