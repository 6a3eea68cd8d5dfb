//! A guard on name compression.
//!
//! A name on the wire may end in a pointer to an earlier name, which may
//! end in a pointer again. A reader that follows each pointer by calling
//! itself needs stack for every pointer of such a chain, and a datagram
//! can hold thousands. The guard looks at every offset of a message as
//! the possible start of a name and finds how many pointers a reader
//! would follow from there at most, so that a message with a chain
//! longer than [`MAX_POINTER_HOPS`] can be refused before it is read.

use vstd::prelude::*;

verus! {

/// The longest chain of pointers that is followed. A name has at most
/// 127 labels, so no name needs a longer chain where each pointer is
/// reached through a label.
pub const MAX_POINTER_HOPS: u8 = 127;

/// The most octets that the labels of one name take.
pub const MAX_NAME_LEN: usize = 255;

/// The offset of the pointer in which the labels from `p` on end, where
/// they end in one: a label is a length below 64 and that many octets, a
/// pointer is an octet of 192 or more and one octet behind it. There is
/// none where the labels end otherwise, leave the message, or take more
/// than [`MAX_NAME_LEN`] octets together with the `walked` ones before.
pub open spec fn next_pointer(bytes: Seq<u8>, p: int, walked: int) -> Option<int>
    decreases bytes.len() - p,
{
    if p < 0 || p >= bytes.len() {
        None
    } else if bytes[p] >= 192 {
        if p + 1 < bytes.len() {
            Some(p)
        } else {
            None
        }
    } else if bytes[p] == 0 || bytes[p] >= 64 {
        None
    } else if walked + bytes[p] > MAX_NAME_LEN || p + 1 + bytes[p] >= bytes.len() {
        None
    } else {
        next_pointer(bytes, p + 1 + bytes[p], walked + bytes[p])
    }
}

/// The offset that the pointer at `q` points to: the lower fourteen bits
/// of its two octets.
pub open spec fn pointer_target(bytes: Seq<u8>, q: int) -> int {
    (bytes[q] % 64) * 256 + bytes[q + 1]
}

/// How many pointers a reader follows at most that reads a name from
/// offset `t` on and follows a pointer only to an offset before the start
/// of the name that ends in it.
pub open spec fn hops(bytes: Seq<u8>, t: int) -> nat
    decreases t,
{
    if t < 0 {
        0
    } else {
        match next_pointer(bytes, t, 0) {
            None => 0,
            Some(q) => if 0 <= pointer_target(bytes, q) < t {
                1 + hops(bytes, pointer_target(bytes, q))
            } else {
                0
            },
        }
    }
}

/// Whether from no offset of the message more than
/// [`MAX_POINTER_HOPS`] pointers are followed.
pub open spec fn shallow(bytes: Seq<u8>) -> bool {
    forall|t: int| 0 <= t < bytes.len() ==> #[trigger] hops(bytes, t) <= MAX_POINTER_HOPS
}

/// Every pointer that is followed leads further back, so that from the
/// offset `t` no more than `t` pointers are followed.
pub proof fn lemma_hops_bounded(bytes: Seq<u8>, t: int)
    requires
        0 <= t,
    ensures
        hops(bytes, t) <= t,
    decreases t,
{
    match next_pointer(bytes, t, 0) {
        None => {},
        Some(q) => {
            if 0 <= pointer_target(bytes, q) < t {
                lemma_hops_bounded(bytes, pointer_target(bytes, q));
            }
        },
    }
}

/// A message of no more octets than pointers may be followed is shallow.
pub proof fn lemma_short_is_shallow(bytes: Seq<u8>)
    requires
        bytes.len() <= MAX_POINTER_HOPS,
    ensures
        shallow(bytes),
{
    assert forall|t: int| 0 <= t < bytes.len() implies #[trigger] hops(bytes, t)
        <= MAX_POINTER_HOPS by {
        lemma_hops_bounded(bytes, t);
    }
}

/// Finds the pointer in which the labels from `t` on end.
fn find_pointer(bytes: &[u8], t: usize) -> (r: Option<usize>)
    requires
        t < bytes@.len(),
    ensures
        match r {
            Some(q) => next_pointer(bytes@, t as int, 0) == Some(q as int) && q + 1 < bytes@.len(),
            None => next_pointer(bytes@, t as int, 0) is None,
        },
{
    let len = bytes.len();
    let mut p: usize = t;
    let mut walked: usize = 0;
    while p < len
        invariant
            len == bytes@.len(),
            t <= p,
            walked <= MAX_NAME_LEN,
            next_pointer(bytes@, t as int, 0) == next_pointer(bytes@, p as int, walked as int),
        decreases len - p,
    {
        let b = bytes[p];
        if b >= 192 {
            if len - p > 1 {
                return Some(p);
            }
            return None;
        }
        if b == 0 || b >= 64 {
            return None;
        }
        if walked + b as usize > MAX_NAME_LEN {
            return None;
        }
        if len - p <= 1 + b as usize {
            return None;
        }
        walked = walked + b as usize;
        p = p + 1 + b as usize;
    }
    None
}

/// Tells whether from no offset of the message more than
/// [`MAX_POINTER_HOPS`] pointers are followed.
pub fn is_shallow(bytes: &[u8]) -> (r: bool)
    ensures
        r == shallow(bytes@),
{
    let len = bytes.len();
    let mut depth: Vec<u8> = Vec::new();
    let mut t: usize = 0;
    while t < len
        invariant
            len == bytes@.len(),
            t <= len,
            depth@.len() == t,
            forall|k: int| 0 <= k < t ==> depth@[k] == #[trigger] hops(bytes@, k),
            forall|k: int| 0 <= k < t ==> #[trigger] hops(bytes@, k) <= MAX_POINTER_HOPS,
        decreases len - t,
    {
        let d: u8 = match find_pointer(bytes, t) {
            None => 0,
            Some(q) => {
                let target: usize = (bytes[q] % 64) as usize * 256 + bytes[q + 1] as usize;
                if target < t {
                    let below = depth[target];
                    assert(below == hops(bytes@, target as int));
                    if below >= MAX_POINTER_HOPS {
                        assert(hops(bytes@, t as int) > MAX_POINTER_HOPS);
                        return false;
                    }
                    below + 1
                } else {
                    0
                }
            },
        };
        assert(d == hops(bytes@, t as int));
        depth.push(d);
        t += 1;
    }
    true
}

} // verus!
