//! Where a program ends on the wire: at the first three stars in a row.

use vstd::prelude::*;

verus! {

/// The byte of the star, `*`.
pub const STAR: u8 = 42;

/// Whether three stars stand at `i` and behind it.
pub open spec fn sentinel_at(bytes: Seq<u8>, i: int) -> bool {
    0 <= i && i + 3 <= bytes.len() && bytes[i] == STAR && bytes[i + 1] == STAR && bytes[i + 2]
        == STAR
}

/// Whether the bytes end with three stars.
pub open spec fn ends_with_sentinel(bytes: Seq<u8>) -> bool {
    sentinel_at(bytes, bytes.len() - 3)
}

/// Whether the bytes that were received end a program: their last three are
/// stars.
pub fn frame_complete(buffer: &Vec<u8>) -> (res: bool)
    ensures
        res == ends_with_sentinel(buffer@),
{
    let n = buffer.len();
    n >= 3 && buffer[n - 1] == STAR && buffer[n - 2] == STAR && buffer[n - 3] == STAR
}

/// The position behind the first three stars in a row, if there are any:
/// where a reader that receives these bytes stops.
pub fn frame_end(buffer: &Vec<u8>) -> (res: Option<usize>)
    ensures
        (match res {
            Some(end) => 3 <= end <= buffer.len() && sentinel_at(buffer@, end - 3) && forall|
                i: int,
            |
                0 <= i < end - 3 ==> !sentinel_at(buffer@, i),
            None => forall|i: int| !sentinel_at(buffer@, i),
        }),
{
    let n = buffer.len();
    if n < 3 {
        return None;
    }
    let mut i: usize = 0;
    while i <= n - 3
        invariant
            n == buffer.len(),
            n >= 3,
            i <= n - 2,
            forall|j: int| 0 <= j < i ==> !sentinel_at(buffer@, j),
        decreases n - i,
    {
        if buffer[i] == STAR && buffer[i + 1] == STAR && buffer[i + 2] == STAR {
            return Some(i + 3);
        }
        i += 1;
    }
    None
}

/// A reader that stops as soon as what it has received ends with three
/// stars stops at the first three stars in a row.
pub proof fn law_first_sentinel(bytes: Seq<u8>, end: int)
    requires
        0 <= end <= bytes.len(),
        ends_with_sentinel(bytes.take(end)),
        forall|shorter: int| 0 <= shorter < end ==> !ends_with_sentinel(#[trigger] bytes.take(shorter)),
    ensures
        sentinel_at(bytes, end - 3),
        forall|i: int| 0 <= i < end - 3 ==> !sentinel_at(bytes, i),
{
    assert forall|i: int| 0 <= i < end - 3 implies !sentinel_at(bytes, i) by {
        if sentinel_at(bytes, i) {
            assert(ends_with_sentinel(bytes.take(i + 3)));
        }
    }
}

} // verus!
