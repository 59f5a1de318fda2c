use std::collections::VecDeque;
use vstd::prelude::*;

use crate::endian::{ne_bytes, ne_value, usize_from_ne_bytes, usize_to_ne_bytes, SIZE};

verus! {

broadcast use vstd::std_specs::vecdeque::group_vec_dequeue_axioms;

/// The bytes of one framed message: its length as `SIZE` bytes in the byte
/// order of the machine, then the message itself.
pub open spec fn frame(msg: Seq<u8>) -> Seq<u8> {
    ne_bytes(msg.len()) + msg
}

/// The frames of several messages, one after the other.
pub open spec fn frames(msgs: Seq<Seq<u8>>) -> Seq<u8>
    decreases msgs.len(),
{
    if msgs.len() == 0 {
        Seq::empty()
    } else {
        frame(msgs[0]) + frames(msgs.drop_first())
    }
}

/// The length that the first `SIZE` bytes of a stream announce.
pub open spec fn header_len(s: Seq<u8>) -> nat {
    ne_value(s.take(SIZE as int))
}

/// The smaller of two lengths.
pub open spec fn min_len(a: int, b: int) -> int {
    if a < b {
        a
    } else {
        b
    }
}

/// Copies as much of `slice` as fits into the front of `buf` and returns
/// how many bytes were copied.
pub fn write_slice(buf: &mut [u8], slice: &[u8]) -> (n: usize)
    ensures
        n == min_len(old(buf)@.len() as int, slice@.len() as int),
        final(buf)@ == slice@.take(n as int) + old(buf)@.skip(n as int),
{
    let n = write_at(buf, 0, slice);
    assert(old(buf)@.take(0) + slice@.take(n as int) + old(buf)@.skip(n as int) =~= slice@.take(
        n as int,
    ) + old(buf)@.skip(n as int));
    n
}

/// Copies as much of `slice` as fits into `buf` from position `start` on and
/// returns how many bytes were copied.
pub(crate) fn write_at(buf: &mut [u8], start: usize, slice: &[u8]) -> (n: usize)
    requires
        start <= old(buf)@.len(),
    ensures
        n == min_len(old(buf)@.len() - start, slice@.len() as int),
        final(buf)@ == old(buf)@.take(start as int) + slice@.take(n as int) + old(buf)@.skip(
            start + n,
        ),
{
    let room = buf.len() - start;
    let n = if room < slice.len() {
        room
    } else {
        slice.len()
    };
    let mut i: usize = 0;
    while i < n
        invariant
            start + n <= buf.len(),
            n <= slice@.len(),
            buf@.len() == old(buf)@.len(),
            i <= n,
            buf@ == old(buf)@.take(start as int) + slice@.take(i as int) + old(buf)@.skip(
                start + i,
            ),
        decreases n - i,
    {
        buf[start + i] = slice[i];
        i = i + 1;
        assert(buf@ =~= old(buf)@.take(start as int) + slice@.take(i as int) + old(buf)@.skip(
            start + i,
        ));
    }
    n
}

/// Moves as many bytes as fit from the front of `vd` into the front of `buf`
/// and returns how many were moved.
pub fn write_vec_deque_and_trunc(buf: &mut [u8], vd: &mut VecDeque<u8>) -> (n: usize)
    ensures
        n == min_len(old(buf)@.len() as int, old(vd)@.len() as int),
        final(buf)@ == old(vd)@.take(n as int) + old(buf)@.skip(n as int),
        final(vd)@ == old(vd)@.skip(n as int),
{
    let n = if buf.len() < vd.len() {
        buf.len()
    } else {
        vd.len()
    };
    let mut i: usize = 0;
    while i < n
        invariant
            n <= buf@.len(),
            n <= old(vd)@.len(),
            buf@.len() == old(buf)@.len(),
            i <= n,
            buf@ == old(vd)@.take(i as int) + old(buf)@.skip(i as int),
            vd@ == old(vd)@.skip(i as int),
        decreases n - i,
    {
        let b = vd.pop_front();
        match b {
            Some(x) => {
                buf[i] = x;
            },
            None => {},
        }
        i = i + 1;
        assert(buf@ =~= old(vd)@.take(i as int) + old(buf)@.skip(i as int));
        assert(vd@ =~= old(vd)@.skip(i as int));
    }
    n
}

/// Appends `src[from..]` to the back of `vd`.
pub(crate) fn push_all_from(vd: &mut VecDeque<u8>, src: &[u8], from: usize)
    requires
        from <= src@.len(),
    ensures
        final(vd)@ == old(vd)@ + src@.skip(from as int),
{
    let mut i = from;
    while i < src.len()
        invariant
            from <= i <= src@.len(),
            vd@ == old(vd)@ + src@.subrange(from as int, i as int),
        decreases src@.len() - i,
    {
        vd.push_back(src[i]);
        i = i + 1;
        assert(vd@ =~= old(vd)@ + src@.subrange(from as int, i as int));
    }
    assert(src@.subrange(from as int, i as int) =~= src@.skip(from as int));
}

/// Reads the length that the first `SIZE` bytes of `s` announce.
pub fn read_header(s: &[u8]) -> (len: usize)
    requires
        s@.len() >= SIZE,
    ensures
        len == header_len(s@),
{
    let mut h: [u8; 8] = [0u8; 8];
    let mut i: usize = 0;
    while i < SIZE
        invariant
            i <= SIZE,
            s@.len() >= SIZE,
            h@.len() == SIZE,
            forall|j: int| 0 <= j < i ==> h@[j] == s@[j],
        decreases SIZE - i,
    {
        h[i] = s[i];
        i = i + 1;
    }
    assert(h@ =~= s@.take(SIZE as int));
    usize_from_ne_bytes(h)
}

/// The `SIZE` header bytes that announce a message of `len` bytes.
pub fn header_for(len: usize) -> (h: [u8; 8])
    ensures
        h@ == ne_bytes(len as nat),
{
    usize_to_ne_bytes(len)
}

} // verus!
