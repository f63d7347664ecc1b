//! The status-bar icon's picture.

use vstd::prelude::*;

verus! {

/// The light grey of the icon, as red, green, blue and alpha bytes.
pub open spec fn icon_byte(k: int) -> u8 {
    if k % 4 == 3 {
        0xff
    } else {
        0xe8
    }
}

/// A `size` by `size` square of the icon's grey, four bytes a pixel.
pub fn icon_pixels(size: u32) -> (r: Vec<u8>)
    requires
        size as int * size as int * 4 <= usize::MAX,
    ensures
        r@.len() == size as int * size as int * 4,
        forall|k: int| 0 <= k < r@.len() ==> #[trigger] r@[k] == icon_byte(k),
{
    let n: usize = (size as usize) * (size as usize) * 4;
    let mut out: Vec<u8> = Vec::new();
    let mut k: usize = 0;
    while k < n
        invariant
            k <= n,
            out@.len() == k,
            forall|j: int| 0 <= j < k ==> #[trigger] out@[j] == icon_byte(j),
        decreases n - k,
    {
        if k % 4 == 3 {
            out.push(0xff);
        } else {
            out.push(0xe8);
        }
        k = k + 1;
    }
    out
}

} // verus!
