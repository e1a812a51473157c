//! Decoding of a full channel read: 36 data bytes into 18 counts.
use vstd::prelude::*;
use crate::fields::{combine_le, le_pair};

verus! {

/// The count of channel slot `i` within the raw data bytes: the little-endian
/// pair at bytes `2i` (low) and `2i + 1` (high).
pub open spec fn channel_count(data: Seq<u8>, i: int) -> u16 {
    le_pair(data[2 * i], data[2 * i + 1])
}

/// Decodes the 36 bytes of a full read, starting at the first channel-data
/// register, into the 18 channel counts in slot order.
pub fn decode_channels(data: &[u8; 36]) -> (r: [u16; 18])
    ensures
        forall|i: int| 0 <= i < 18 ==> #[trigger] r@[i] == channel_count(data@, i),
        forall|i: int|
            0 <= i < 18 ==> #[trigger] r@[i] as int == data@[2 * i + 1] as int * 256 + data@[2
                * i] as int,
{
    let mut out = [0u16; 18];
    let mut i: usize = 0;
    while i < 18
        invariant
            0 <= i <= 18,
            data@.len() == 36,
            out@.len() == 18,
            forall|j: int| 0 <= j < i ==> #[trigger] out@[j] == channel_count(data@, j),
        decreases 18 - i,
    {
        let v = combine_le(data[2 * i], data[2 * i + 1]);
        out[i] = v;
        i = i + 1;
    }
    out
}

} // verus!
