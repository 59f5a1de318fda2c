use std::collections::VecDeque;
use vstd::prelude::*;

use crate::codec::{
    frame, header_for, header_len, min_len, push_all_from, read_header, write_at,
    write_vec_deque_and_trunc,
};
use crate::endian::{lemma_ne_value_bytes, SIZE};
use crate::errors::ShamanError;

verus! {

broadcast use vstd::std_specs::vecdeque::group_vec_dequeue_axioms;

/// The sending end of a framed channel, without its ring: the bytes of
/// accepted frames that did not fit into the ring yet, oldest first.
///
/// The ring's free space is handed in as a byte window; each call says how
/// many bytes of the window it filled, and those are what the ring publishes.
pub struct BufSender {
    spill: VecDeque<u8>,
}

impl View for BufSender {
    type V = Seq<u8>;

    closed spec fn view(&self) -> Seq<u8> {
        self.spill@
    }
}

impl BufSender {
    /// A sender with nothing pending.
    pub fn new() -> (s: Self)
        ensures
            s@ == Seq::<u8>::empty(),
    {
        BufSender { spill: VecDeque::new() }
    }

    /// Whether nothing is pending.
    pub fn is_flushed(&self) -> (b: bool)
        ensures
            b == (self@.len() == 0),
    {
        self.spill.len() == 0
    }

    /// Whether another window should be asked of the ring while flushing:
    /// the ring reported `remaining` free bytes and something is pending.
    pub fn should_flush(&self, remaining: usize) -> (b: bool)
        ensures
            b == (remaining != 0 && self@.len() != 0),
    {
        remaining != 0 && self.spill.len() != 0
    }

    /// Moves as much pending data as fits into the window `buf`; returns how
    /// many bytes of the window were filled.
    pub fn flush_into(&mut self, buf: &mut [u8]) -> (n: usize)
        ensures
            n == min_len(old(buf)@.len() as int, old(self)@.len() as int),
            final(buf)@ == old(self)@.take(n as int) + old(buf)@.skip(n as int),
            final(self)@ == old(self)@.skip(n as int),
    {
        write_vec_deque_and_trunc(buf, &mut self.spill)
    }

    /// A new message is refused while older bytes are still pending.
    pub fn check_flushed(&self) -> (r: Result<(), ShamanError>)
        ensures
            r is Ok <==> self@.len() == 0,
            r matches Err(e) ==> e is WouldBlock,
    {
        if self.spill.len() == 0 {
            Ok(())
        } else {
            Err(ShamanError::WouldBlock)
        }
    }

    /// Frames `data` into the window `buf` as far as it fits and keeps the
    /// rest pending; returns how many bytes of the window were filled.
    pub fn frame_into(&mut self, buf: &mut [u8], data: &[u8]) -> (n: usize)
        requires
            old(self)@.len() == 0,
        ensures
            n == min_len(old(buf)@.len() as int, frame(data@).len() as int),
            final(buf)@ == frame(data@).take(n as int) + old(buf)@.skip(n as int),
            final(self)@ == frame(data@).skip(n as int),
    {
        let len_data = header_for(data.len());
        let n1 = write_at(buf, 0, len_data.as_slice());
        push_all_from(&mut self.spill, len_data.as_slice(), n1);
        let n2 = if n1 == SIZE {
            write_at(buf, n1, data)
        } else {
            0
        };
        push_all_from(&mut self.spill, data, n2);
        assert(n1 + n2 <= buf.len());
        let ghost f = frame(data@);
        proof {
            assert(f =~= len_data@ + data@);
            if n1 == SIZE {
                assert(f.take((n1 + n2) as int) =~= len_data@ + data@.take(n2 as int));
                assert(buf@ =~= f.take((n1 + n2) as int) + old(buf)@.skip((n1 + n2) as int));
                assert(self.spill@ =~= f.skip((n1 + n2) as int));
            } else {
                assert(f.take(n1 as int) =~= len_data@.take(n1 as int));
                assert(buf@ =~= f.take(n1 as int) + old(buf)@.skip(n1 as int));
                assert(self.spill@ =~= f.skip(n1 as int));
            }
        }
        n1 + n2
    }
}

/// Whether `s` is one whole frame: a header, and exactly as many bytes
/// after it as the header announces.
pub open spec fn is_whole_frame(s: Seq<u8>) -> bool {
    s.len() >= SIZE && s.len() == SIZE + header_len(s)
}

/// Whether `s` is the start of a frame that is not complete yet: it is
/// shorter than a header, or shorter than the frame its header announces.
/// Such bytes hold no whole frame.
pub open spec fn is_frame_prefix(s: Seq<u8>) -> bool {
    s.len() < SIZE || s.len() < SIZE + header_len(s)
}

/// How many bytes of `data` one receive step takes, with `spill` held from
/// before. A header that was spilled in part is completed first, and the step
/// stops there; otherwise the step takes bytes up to the end of the frame that
/// the spill and the chunk together begin with (all of the chunk, if they do
/// not hold a whole header).
pub open spec fn step_len(spill: Seq<u8>, data: Seq<u8>) -> int {
    let stream = spill + data;
    if 0 < spill.len() < SIZE {
        min_len(data.len() as int, SIZE - spill.len())
    } else if stream.len() < SIZE {
        data.len() as int
    } else {
        min_len(data.len() as int, SIZE + header_len(stream) - spill.len())
    }
}

/// The bytes that a receiver holds after one step, before it hands anything
/// out: its spill, then what the step took of the chunk.
pub open spec fn step_taken(spill: Seq<u8>, data: Seq<u8>) -> Seq<u8> {
    spill + data.take(step_len(spill, data))
}

/// Whether one receive step hands out a message: the bytes it holds after
/// the step are one whole frame.
pub open spec fn step_delivers(spill: Seq<u8>, data: Seq<u8>) -> bool {
    is_whole_frame(step_taken(spill, data))
}

/// Bytes that agree on their first `SIZE` bytes announce the same length.
pub proof fn lemma_same_header(a: Seq<u8>, b: Seq<u8>)
    requires
        a.len() >= SIZE,
        b.len() >= SIZE,
        a.take(SIZE as int) == b.take(SIZE as int),
    ensures
        header_len(a) == header_len(b),
{
}

/// One receive step, case by case: how much it takes, what header the bytes
/// it holds afterwards announce, and when those bytes are a whole frame.
pub proof fn lemma_step_cases(spill: Seq<u8>, data: Seq<u8>)
    requires
        is_frame_prefix(spill),
    ensures
        spill.len() == 0 ==> step_taken(spill, data) == data.take(step_len(spill, data)),
        spill.len() == 0 && data.len() < SIZE ==> step_len(spill, data) == data.len()
            && !step_delivers(spill, data),
        spill.len() == 0 && data.len() >= SIZE ==> {
            &&& step_len(spill, data) == min_len(data.len() as int, SIZE + header_len(data))
            &&& header_len(step_taken(spill, data)) == header_len(data)
            &&& (step_delivers(spill, data) <==> data.len() >= SIZE + header_len(data))
        },
        0 < spill.len() < SIZE ==> {
            &&& step_len(spill, data) == min_len(data.len() as int, SIZE - spill.len())
            &&& (step_delivers(spill, data) <==> step_taken(spill, data).len() == SIZE
                && header_len(step_taken(spill, data)) == 0)
        },
        spill.len() >= SIZE ==> {
            &&& step_len(spill, data) == min_len(
                data.len() as int,
                SIZE + header_len(spill) - spill.len(),
            )
            &&& header_len(step_taken(spill, data)) == header_len(spill)
            &&& (step_delivers(spill, data) <==> spill.len() + step_len(spill, data) == SIZE
                + header_len(spill))
        },
{
    let stream = spill + data;
    if spill.len() == 0 {
        assert(stream =~= data);
        assert(step_taken(spill, data) =~= data.take(step_len(spill, data)));
        if data.len() >= SIZE {
            if step_len(spill, data) >= SIZE {
                assert(step_taken(spill, data).take(SIZE as int) =~= data.take(SIZE as int));
            }
        }
    }
    if spill.len() >= SIZE {
        assert(stream.take(SIZE as int) =~= spill.take(SIZE as int));
        assert(header_len(stream) == header_len(spill));
        assert(step_taken(spill, data).take(SIZE as int) =~= spill.take(SIZE as int));
        assert(step_taken(spill, data).len() == spill.len() + step_len(spill, data));
    }
}

/// The receiving end of a framed channel, without its ring: the bytes of a
/// frame that arrived only in part.
///
/// The ring's readable bytes are handed in as chunks; each call says how many
/// bytes of the chunk it took, and those are what the ring may drop.
pub struct BufReceiver {
    spill: Vec<u8>,
}

impl View for BufReceiver {
    type V = Seq<u8>;

    closed spec fn view(&self) -> Seq<u8> {
        self.spill@
    }
}

/// Appends `src[..to]` to `v`.
fn extend_prefix(v: &mut Vec<u8>, src: &[u8], to: usize)
    requires
        to <= src@.len(),
    ensures
        final(v)@ == old(v)@ + src@.take(to as int),
{
    let mut i: usize = 0;
    while i < to
        invariant
            i <= to <= src@.len(),
            v@ == old(v)@ + src@.take(i as int),
        decreases to - i,
    {
        v.push(src[i]);
        i = i + 1;
        assert(v@ =~= old(v)@ + src@.take(i as int));
    }
}

/// Where a message that a receive step completed is: inside the chunk, at
/// `start` and `len` bytes long, or held by the receiver.
pub enum Delivery {
    InChunk { start: usize, len: usize },
    Held(Vec<u8>),
}

/// The bytes of a delivered message, read from the chunk `data` when the
/// message is inside it.
pub open spec fn delivered_bytes(d: Delivery, data: Seq<u8>) -> Seq<u8> {
    match d {
        Delivery::InChunk { start, len } => data.subrange(start as int, start + len),
        Delivery::Held(m) => m@,
    }
}

/// Whether a delivery that points into the chunk `data` stays inside it.
pub open spec fn delivery_fits(d: Delivery, data: Seq<u8>) -> bool {
    d matches Delivery::InChunk { start, len } ==> start + len <= data.len()
}

/// One receive step on `spill`, as `BufReceiver::on_chunk` describes it.
fn receive_step(spill: &mut Vec<u8>, data: &[u8]) -> (res: (usize, Option<Delivery>))
    requires
        is_frame_prefix(old(spill)@),
    ensures
        is_frame_prefix(final(spill)@),
        res.0 == step_len(old(spill)@, data@),
        res.1 is Some <==> step_delivers(old(spill)@, data@),
        match res.1 {
            Some(d) => {
                &&& delivery_fits(d, data@)
                &&& frame(delivered_bytes(d, data@)) == step_taken(old(spill)@, data@)
                &&& final(spill)@ == Seq::<u8>::empty()
            },
            None => final(spill)@ == step_taken(old(spill)@, data@),
        },
{
    proof {
        lemma_step_cases(old(spill)@, data@);
    }
    let sl = spill.len();
    if sl == 0 {
        if data.len() < SIZE {
            extend_prefix(spill, data, data.len());
            assert(data@.take(data@.len() as int) =~= data@);
            return (data.len(), None);
        }
        let len = read_header(data);
        if data.len() - SIZE < len {
            extend_prefix(spill, data, data.len());
            assert(data@.take(data@.len() as int) =~= data@);
            assert(spill@.take(SIZE as int) =~= data@.take(SIZE as int));
            return (data.len(), None);
        }
        let d = Delivery::InChunk { start: SIZE, len };
        proof {
            lemma_ne_value_bytes(data@.take(SIZE as int));
            assert(frame(delivered_bytes(d, data@)) =~= data@.take(SIZE + len));
            assert(old(spill)@ + data@.take(SIZE + len) =~= data@.take(SIZE + len));
        }
        (SIZE + len, Some(d))
    } else if sl < SIZE {
        let need = SIZE - sl;
        let n = if data.len() < need {
            data.len()
        } else {
            need
        };
        extend_prefix(spill, data, n);
        if spill.len() == SIZE {
            let len = read_header(spill.as_slice());
            if len == 0 {
                proof {
                    lemma_ne_value_bytes(spill@);
                    assert(spill@.take(SIZE as int) =~= spill@);
                    assert(frame(Seq::<u8>::empty()) =~= spill@);
                }
                spill.clear();
                let empty: Vec<u8> = Vec::new();
                return (n, Some(Delivery::Held(empty)));
            }
            assert(spill@.take(SIZE as int) =~= spill@);
        }
        (n, None)
    } else {
        let len = read_header(spill.as_slice());
        let remaining_len = len - (sl - SIZE);
        let n = if data.len() < remaining_len {
            data.len()
        } else {
            remaining_len
        };
        extend_prefix(spill, data, n);
        assert(spill@.take(SIZE as int) =~= old(spill)@.take(SIZE as int));
        if spill.len() - SIZE == len {
            let msg = spill.split_off(SIZE);
            proof {
                lemma_ne_value_bytes(spill@);
                assert(frame(msg@) =~= old(spill)@ + data@.take(n as int));
            }
            spill.clear();
            (n, Some(Delivery::Held(msg)))
        } else {
            (n, None)
        }
    }
}

impl BufReceiver {
    /// The receiver's invariant: what is spilled is the start of a frame that
    /// is not complete yet.
    #[verifier::type_invariant]
    spec fn inv(self) -> bool {
        is_frame_prefix(self.spill@)
    }

    /// A receiver with nothing spilled.
    pub fn new() -> (r: Self)
        ensures
            r@ == Seq::<u8>::empty(),
            is_frame_prefix(r@),
    {
        BufReceiver { spill: Vec::new() }
    }

    /// Whether another chunk should be asked of the ring: no message has
    /// been completed yet and the ring reported `remaining` readable bytes.
    pub fn should_receive(got_message: bool, remaining: usize) -> (b: bool)
        ensures
            b == (!got_message && remaining != 0),
    {
        !got_message && remaining != 0
    }

    /// The result of a receive: what was made of the completed message, or
    /// `WouldBlock` when the ring ran dry before one was complete.
    pub fn into_message<T>(msg: Option<T>) -> (r: Result<T, ShamanError>)
        ensures
            match msg {
                Some(m) => r == Ok::<T, ShamanError>(m),
                None => r matches Err(e) && e is WouldBlock,
            },
    {
        match msg {
            Some(m) => Ok(m),
            None => Err(ShamanError::WouldBlock),
        }
    }

    /// One receive step on the chunk `data` that the ring offers: returns how
    /// many bytes of it were taken, and the message that those bytes
    /// completed, if any.
    pub fn on_chunk(&mut self, data: &[u8]) -> (res: (usize, Option<Vec<u8>>))
        ensures
            is_frame_prefix(old(self)@),
            is_frame_prefix(final(self)@),
            res.0 == step_len(old(self)@, data@),
            res.1 is Some <==> step_delivers(old(self)@, data@),
            match res.1 {
                Some(m) => {
                    &&& frame(m@) == step_taken(old(self)@, data@)
                    &&& final(self)@ == Seq::<u8>::empty()
                },
                None => final(self)@ == step_taken(old(self)@, data@),
            },
    {
        proof {
            use_type_invariant(&*self);
        }
        let res = self.on_chunk_in_place(data);
        let n = res.0;
        match res.1 {
            Some(Delivery::InChunk { start, len }) => {
                assert(delivery_fits(res.1->Some_0, data@));
                assert(start + len <= data@.len());
                assert(data@.len() == data.len());
                let m = vstd::slice::slice_to_vec(
                    vstd::slice::slice_subrange(data, start, start + len),
                );
                (n, Some(m))
            },
            Some(Delivery::Held(m)) => (n, Some(m)),
            None => (n, None),
        }
    }

    /// One receive step on the chunk `data`, as `on_chunk` describes it, that
    /// does not copy a message lying whole inside the chunk: it says where in
    /// the chunk the message is instead.
    pub fn on_chunk_in_place(&mut self, data: &[u8]) -> (res: (usize, Option<Delivery>))
        ensures
            is_frame_prefix(old(self)@),
            is_frame_prefix(final(self)@),
            res.0 == step_len(old(self)@, data@),
            res.1 is Some <==> step_delivers(old(self)@, data@),
            match res.1 {
                Some(d) => {
                    &&& delivery_fits(d, data@)
                    &&& frame(delivered_bytes(d, data@)) == step_taken(old(self)@, data@)
                    &&& final(self)@ == Seq::<u8>::empty()
                },
                None => final(self)@ == step_taken(old(self)@, data@),
            },
    {
        proof {
            use_type_invariant(&*self);
        }
        let mut spill: Vec<u8> = Vec::new();
        std::mem::swap(&mut spill, &mut self.spill);
        let res = receive_step(&mut spill, data);
        self.spill = spill;
        res
    }
}

} // verus!
