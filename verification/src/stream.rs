use vstd::prelude::*;

use crate::codec::{frame, frames, header_len};
use crate::duplex::{
    is_frame_prefix, is_whole_frame, lemma_step_cases, step_delivers, step_len, step_taken,
};
use crate::endian::{lemma_ne_bytes_value, lemma_ne_value_bytes, ne_bytes, SIZE};

verus! {

/// Whether every message of `msgs` has a length that a `usize` can hold.
pub open spec fn lengths_fit(msgs: Seq<Seq<u8>>) -> bool {
    forall|i: int| 0 <= i < msgs.len() ==> #[trigger] msgs[i].len() <= usize::MAX
}

/// The messages that a receive step hands out: none, or the one it completed.
pub open spec fn delivered_by(msg: Option<Seq<u8>>) -> Seq<Seq<u8>> {
    match msg {
        Some(m) => seq![m],
        None => Seq::empty(),
    }
}

/// Appending a message appends its frame.
pub proof fn lemma_frames_push(msgs: Seq<Seq<u8>>, m: Seq<u8>)
    ensures
        frames(msgs.push(m)) == frames(msgs) + frame(m),
    decreases msgs.len(),
{
    if msgs.len() == 0 {
        assert(msgs.push(m).drop_first() =~= Seq::<Seq<u8>>::empty());
        assert(msgs.push(m)[0] == m);
        assert(frames(Seq::<Seq<u8>>::empty()) == Seq::<u8>::empty());
        assert(frames(msgs.push(m)) =~= frame(m));
    } else {
        assert(msgs.push(m).drop_first() =~= msgs.drop_first().push(m));
        lemma_frames_push(msgs.drop_first(), m);
        assert(frames(msgs.push(m)) =~= frames(msgs) + frame(m));
    }
}

/// The header of a frame announces the length of its message, whatever
/// follows the frame.
pub proof fn lemma_header_announces_length(m: Seq<u8>, rest: Seq<u8>)
    requires
        m.len() <= usize::MAX,
    ensures
        frame(m).len() == SIZE + m.len(),
        (frame(m) + rest).len() >= SIZE,
        header_len(frame(m) + rest) == m.len(),
{
    lemma_ne_bytes_value(m.len());
    assert((frame(m) + rest).take(SIZE as int) =~= ne_bytes(m.len()));
}

/// A chunk that starts with a whole frame, taken with nothing spilled, hands
/// out that frame's message at once and takes exactly the frame.
pub proof fn lemma_whole_frame_delivered(m: Seq<u8>, rest: Seq<u8>)
    requires
        m.len() <= usize::MAX,
    ensures
        step_delivers(Seq::empty(), frame(m) + rest),
        step_len(Seq::empty(), frame(m) + rest) == frame(m).len(),
{
    lemma_header_announces_length(m, rest);
    lemma_step_cases(Seq::empty(), frame(m) + rest);
}

/// A receive step on a non-empty chunk always takes at least one byte.
pub proof fn lemma_receive_progress(spill: Seq<u8>, data: Seq<u8>)
    requires
        is_frame_prefix(spill),
        data.len() > 0,
    ensures
        step_len(spill, data) > 0,
{
    lemma_step_cases(spill, data);
}

/// Frames delimit themselves: if the frames of `got` followed by more bytes
/// are the frames of `sent`, then `got` is a prefix of `sent` and the bytes
/// that follow are the frames of the rest of `sent`.
pub proof fn lemma_frames_prefix(got: Seq<Seq<u8>>, tail: Seq<u8>, sent: Seq<Seq<u8>>)
    requires
        lengths_fit(got),
        lengths_fit(sent),
        frames(got) + tail == frames(sent),
    ensures
        got.len() <= sent.len(),
        sent.take(got.len() as int) == got,
        tail == frames(sent.skip(got.len() as int)),
    decreases got.len(),
{
    if got.len() == 0 {
        assert(sent.take(0) =~= got);
        assert(sent.skip(0) =~= sent);
        assert(frames(got) + tail =~= tail);
    } else {
        let g = got[0];
        let g1 = got.drop_first();
        assert(lengths_fit(g1)) by {
            assert forall|i: int| 0 <= i < g1.len() implies #[trigger] g1[i].len() <= usize::MAX by {
                assert(g1[i] == got[i + 1]);
            }
        }
        assert(g.len() <= usize::MAX);
        assert(frames(got) + tail =~= frame(g) + (frames(g1) + tail));
        lemma_header_announces_length(g, frames(g1) + tail);
        if sent.len() == 0 {
            assert(frames(sent).len() == 0);
            assert(false);
        }
        let s = sent[0];
        let s1 = sent.drop_first();
        assert(s.len() <= usize::MAX);
        assert(lengths_fit(s1)) by {
            assert forall|i: int| 0 <= i < s1.len() implies #[trigger] s1[i].len() <= usize::MAX by {
                assert(s1[i] == sent[i + 1]);
            }
        }
        lemma_header_announces_length(s, frames(s1));
        let stream = frames(sent);
        assert(g.len() == s.len());
        let k = SIZE + g.len();
        assert(frame(g) =~= stream.take(k as int));
        assert(frame(s) =~= stream.take(k as int));
        assert(g =~= frame(g).skip(SIZE as int));
        assert(s =~= frame(s).skip(SIZE as int));
        assert(frames(g1) + tail =~= stream.skip(k as int));
        assert(frames(s1) =~= stream.skip(k as int));
        lemma_frames_prefix(g1, tail, s1);
        assert(sent.take(got.len() as int) =~= seq![s] + s1.take(g1.len() as int));
        assert(got =~= seq![g] + g1);
        assert(sent.skip(got.len() as int) =~= s1.skip(g1.len() as int));
    }
}

/// Framing is one to one: the same bytes are the frames of the same messages.
pub proof fn lemma_frames_injective(a: Seq<Seq<u8>>, b: Seq<Seq<u8>>)
    requires
        lengths_fit(a),
        lengths_fit(b),
        frames(a) == frames(b),
    ensures
        a == b,
{
    assert(frames(a) + Seq::<u8>::empty() =~= frames(b));
    assert(frames(b) + Seq::<u8>::empty() =~= frames(a));
    lemma_frames_prefix(a, Seq::empty(), b);
    lemma_frames_prefix(b, Seq::empty(), a);
    assert(a =~= b);
}

/// What a receiver has taken from its ring is always the frames of the
/// messages it handed out, followed by what it has spilled: one receive step
/// keeps this so.
pub proof fn lemma_receive_keeps_stream(
    taken: Seq<u8>,
    delivered: Seq<Seq<u8>>,
    spill: Seq<u8>,
    chunk: Seq<u8>,
    msg: Option<Seq<u8>>,
    new_spill: Seq<u8>,
)
    requires
        taken == frames(delivered) + spill,
        match msg {
            Some(m) => frame(m) == spill + chunk && new_spill == Seq::<u8>::empty(),
            None => new_spill == spill + chunk,
        },
    ensures
        taken + chunk == frames(delivered + delivered_by(msg)) + new_spill,
{
    match msg {
        Some(m) => {
            assert(delivered + delivered_by(msg) =~= delivered.push(m));
            lemma_frames_push(delivered, m);
            assert(taken + chunk =~= frames(delivered.push(m)) + new_spill);
        },
        None => {
            assert(delivered + delivered_by(msg) =~= delivered);
            assert(taken + chunk =~= frames(delivered) + new_spill);
        },
    }
}

/// What a sender has handed to its ring, followed by what it has pending, is
/// always the frames of the messages it accepted: flushing keeps this so
/// (a flush hands out the first `k` pending bytes).
pub proof fn lemma_flush_keeps_stream(
    published: Seq<u8>,
    pending: Seq<u8>,
    accepted: Seq<Seq<u8>>,
    k: int,
)
    requires
        published + pending == frames(accepted),
        0 <= k <= pending.len(),
    ensures
        (published + pending.take(k)) + pending.skip(k) == frames(accepted),
{
    assert((published + pending.take(k)) + pending.skip(k) =~= published + pending);
}

/// Accepting a message with nothing pending extends the frames of the
/// accepted messages by its frame (a frame step hands out its first `k`
/// bytes and keeps the rest pending).
pub proof fn lemma_accept_extends_stream(
    published: Seq<u8>,
    accepted: Seq<Seq<u8>>,
    m: Seq<u8>,
    k: int,
)
    requires
        published == frames(accepted),
        0 <= k <= frame(m).len(),
    ensures
        (published + frame(m).take(k)) + frame(m).skip(k) == frames(accepted.push(m)),
{
    lemma_frames_push(accepted, m);
    assert((published + frame(m).take(k)) + frame(m).skip(k) =~= published + frame(m));
}

/// End to end: when the receiver has taken exactly what the sender handed to
/// the ring, it has handed out the first messages the sender accepted, in
/// order, and its spill and the sender's pending bytes together are the
/// frames of the messages still on their way.
pub proof fn lemma_delivered_in_order(
    accepted: Seq<Seq<u8>>,
    published: Seq<u8>,
    pending: Seq<u8>,
    delivered: Seq<Seq<u8>>,
    spill: Seq<u8>,
)
    requires
        lengths_fit(accepted),
        lengths_fit(delivered),
        published + pending == frames(accepted),
        frames(delivered) + spill == published,
    ensures
        delivered.len() <= accepted.len(),
        accepted.take(delivered.len() as int) == delivered,
        spill + pending == frames(accepted.skip(delivered.len() as int)),
{
    assert(frames(delivered) + (spill + pending) =~= frames(accepted));
    lemma_frames_prefix(delivered, spill + pending, accepted);
}

/// A receive step that hands nothing out leaves the start of a frame that is
/// not complete yet; one that hands out a message took exactly its frame.
pub proof fn lemma_step_outcome(spill: Seq<u8>, data: Seq<u8>)
    requires
        is_frame_prefix(spill),
    ensures
        0 <= step_len(spill, data) <= data.len(),
        !step_delivers(spill, data) ==> is_frame_prefix(step_taken(spill, data)),
        step_delivers(spill, data) ==> frame(step_taken(spill, data).skip(SIZE as int))
            == step_taken(spill, data),
{
    lemma_step_cases(spill, data);
    let t = step_taken(spill, data);
    if step_delivers(spill, data) {
        lemma_ne_value_bytes(t.take(SIZE as int));
        assert(frame(t.skip(SIZE as int)) =~= t);
    }
}

/// Bytes that begin with a whole frame are not the start of an incomplete one.
pub proof fn lemma_frame_not_prefix(m: Seq<u8>, rest: Seq<u8>)
    requires
        m.len() <= usize::MAX,
    ensures
        !is_frame_prefix(frame(m) + rest),
{
    lemma_header_announces_length(m, rest);
}

/// A run of receive steps, each on a non-empty chunk from the front of what
/// the ring still holds, none of which hands out a message, and after which
/// the ring is empty. `chunks` gives the length of each chunk the ring offers.
pub open spec fn quiet_run(spill: Seq<u8>, ring: Seq<u8>, chunks: Seq<nat>) -> bool
    decreases chunks.len(),
{
    if chunks.len() == 0 {
        ring.len() == 0
    } else {
        let data = ring.take(chunks[0] as int);
        let n = step_len(spill, data);
        &&& 0 < chunks[0] <= ring.len()
        &&& !step_delivers(spill, data)
        &&& 0 <= n
        &&& quiet_run(step_taken(spill, data), ring.skip(n), chunks.drop_first())
    }
}

/// A run of receive steps that hands nothing out and empties the ring ends
/// holding the spill and all of the ring, and those bytes hold no whole frame.
pub proof fn lemma_quiet_run_holds_no_frame(spill: Seq<u8>, ring: Seq<u8>, chunks: Seq<nat>)
    requires
        is_frame_prefix(spill),
        quiet_run(spill, ring, chunks),
    ensures
        is_frame_prefix(spill + ring),
    decreases chunks.len(),
{
    if chunks.len() == 0 {
        assert(spill + ring =~= spill);
    } else {
        let data = ring.take(chunks[0] as int);
        let n = step_len(spill, data);
        lemma_step_outcome(spill, data);
        lemma_quiet_run_holds_no_frame(step_taken(spill, data), ring.skip(n), chunks.drop_first());
        assert(step_taken(spill, data) + ring.skip(n) =~= spill + ring);
    }
}

/// A complete frame that a receiver can reach is handed out: when its spill
/// and what its ring holds begin with a whole frame, no run of receive steps
/// that empties the ring goes by without handing out a message.
pub proof fn lemma_available_frame_is_delivered(
    spill: Seq<u8>,
    ring: Seq<u8>,
    m: Seq<u8>,
    rest: Seq<u8>,
    chunks: Seq<nat>,
)
    requires
        is_frame_prefix(spill),
        m.len() <= usize::MAX,
        spill + ring == frame(m) + rest,
    ensures
        !quiet_run(spill, ring, chunks),
{
    lemma_frame_not_prefix(m, rest);
    if quiet_run(spill, ring, chunks) {
        lemma_quiet_run_holds_no_frame(spill, ring, chunks);
    }
}

/// The message a receive step hands out is the first frame of what the
/// receiver holds and what its ring offers.
pub proof fn lemma_delivers_first_frame(
    spill: Seq<u8>,
    data: Seq<u8>,
    m: Seq<u8>,
    rest: Seq<u8>,
)
    requires
        is_frame_prefix(spill),
        m.len() <= usize::MAX,
        spill + data == frame(m) + rest,
        step_delivers(spill, data),
    ensures
        step_taken(spill, data) == frame(m),
{
    lemma_step_outcome(spill, data);
    let t = step_taken(spill, data);
    let g = t.skip(SIZE as int);
    assert(t =~= (spill + data).take(t.len() as int));
    lemma_header_announces_length(m, rest);
    lemma_header_announces_length(g, (spill + data).skip(t.len() as int));
    assert(frame(g) + (spill + data).skip(t.len() as int) =~= spill + data);
    assert(g.len() <= usize::MAX) by {
        assert(g.len() == header_len(t));
        lemma_ne_value_bytes(t.take(SIZE as int));
    }
    assert((frame(g) + (spill + data).skip(t.len() as int)).take(SIZE as int) =~= (frame(m) + rest).take(SIZE as int));
    assert(frame(g) =~= (spill + data).take(t.len() as int));
    assert(frame(m) =~= (spill + data).take(t.len() as int));
}

/// Every accepted message is handed out: when the receiver has taken all
/// the frames of the accepted messages and what it still spills is the start
/// of an incomplete frame, it has handed out all of them, and spills nothing.
pub proof fn lemma_all_delivered(
    accepted: Seq<Seq<u8>>,
    delivered: Seq<Seq<u8>>,
    spill: Seq<u8>,
)
    requires
        lengths_fit(accepted),
        lengths_fit(delivered),
        frames(delivered) + spill == frames(accepted),
        is_frame_prefix(spill),
    ensures
        delivered == accepted,
        spill == Seq::<u8>::empty(),
{
    lemma_frames_prefix(delivered, spill, accepted);
    let rest = accepted.skip(delivered.len() as int);
    if rest.len() > 0 {
        assert(rest[0] == accepted[delivered.len() as int]);
        assert(rest[0].len() <= usize::MAX);
        assert(frames(rest) =~= frame(rest[0]) + frames(rest.drop_first()));
        lemma_frame_not_prefix(rest[0], frames(rest.drop_first()));
        assert(false);
    }
    assert(frames(rest) =~= Seq::<u8>::empty());
    assert(accepted =~= accepted.take(delivered.len() as int));
}

/// One thing a sender does with its ring: hand out the first `k` pending
/// bytes, or frame a message and hand out the first `k` bytes of its frame.
pub enum SendStep {
    Flush(nat),
    Frame(Seq<u8>, nat),
}

/// What a sender has handed to its ring, what it has pending, and which
/// messages it has accepted.
pub struct SendState {
    pub published: Seq<u8>,
    pub pending: Seq<u8>,
    pub accepted: Seq<Seq<u8>>,
}

/// Whether a sender may take this step: a flush hands out no more than is
/// pending, and a message is framed only when nothing is pending.
pub open spec fn send_step_allowed(st: SendState, step: SendStep) -> bool {
    match step {
        SendStep::Flush(k) => k <= st.pending.len(),
        SendStep::Frame(m, k) => st.pending.len() == 0 && k <= frame(m).len(),
    }
}

/// The sender's state after a step.
pub open spec fn send_step(st: SendState, step: SendStep) -> SendState {
    match step {
        SendStep::Flush(k) => SendState {
            published: st.published + st.pending.take(k as int),
            pending: st.pending.skip(k as int),
            accepted: st.accepted,
        },
        SendStep::Frame(m, k) => SendState {
            published: st.published + frame(m).take(k as int),
            pending: frame(m).skip(k as int),
            accepted: st.accepted.push(m),
        },
    }
}

/// Whether every step of a run is allowed in the state it is taken in.
pub open spec fn send_run_allowed(st: SendState, steps: Seq<SendStep>) -> bool
    decreases steps.len(),
{
    steps.len() == 0 || (send_step_allowed(st, steps[0]) && send_run_allowed(
        send_step(st, steps[0]),
        steps.drop_first(),
    ))
}

/// The sender's state after a run of steps.
pub open spec fn send_run(st: SendState, steps: Seq<SendStep>) -> SendState
    decreases steps.len(),
{
    if steps.len() == 0 {
        st
    } else {
        send_run(send_step(st, steps[0]), steps.drop_first())
    }
}

/// Flushing with nothing pending does nothing: the only flush step allowed
/// hands out no bytes and leaves the sender as it was. So a second flush
/// after one that emptied the spill changes nothing.
pub proof fn lemma_flush_when_flushed_is_noop(st: SendState, k: nat)
    requires
        st.pending.len() == 0,
        send_step_allowed(st, SendStep::Flush(k)),
    ensures
        k == 0,
        send_step(st, SendStep::Flush(k)) == st,
{
    assert(st.published + st.pending.take(0) =~= st.published);
    assert(st.pending.skip(0) =~= st.pending);
}

/// A message accepted while the ring has no room at all is kept whole: a
/// frame step that hands out nothing leaves the whole frame pending.
pub proof fn lemma_frame_into_full_ring_keeps_frame(st: SendState, m: Seq<u8>)
    requires
        send_step_allowed(st, SendStep::Frame(m, 0)),
    ensures
        send_step(st, SendStep::Frame(m, 0)).published == st.published,
        send_step(st, SendStep::Frame(m, 0)).pending == frame(m),
        send_step(st, SendStep::Frame(m, 0)).accepted == st.accepted.push(m),
{
    assert(st.published + frame(m).take(0) =~= st.published);
    assert(frame(m).skip(0) =~= frame(m));
}

/// Frames go out whole and in order: over any run of sends and flushes, what
/// the sender has handed to its ring followed by what it has pending stays
/// the frames of the messages it accepted, so no byte of a later frame is
/// handed out before all of the earlier ones.
pub proof fn lemma_send_run_keeps_order(st: SendState, steps: Seq<SendStep>)
    requires
        st.published + st.pending == frames(st.accepted),
        send_run_allowed(st, steps),
    ensures
        send_run(st, steps).published + send_run(st, steps).pending == frames(
            send_run(st, steps).accepted,
        ),
        send_run(st, steps).published.len() <= frames(send_run(st, steps).accepted).len(),
        frames(send_run(st, steps).accepted).take(send_run(st, steps).published.len() as int)
            == send_run(st, steps).published,
    decreases steps.len(),
{
    if steps.len() == 0 {
        assert(frames(st.accepted).take(st.published.len() as int) =~= st.published);
    } else {
        let next = send_step(st, steps[0]);
        match steps[0] {
            SendStep::Flush(k) => {
                lemma_flush_keeps_stream(st.published, st.pending, st.accepted, k as int);
            },
            SendStep::Frame(m, k) => {
                assert(st.published =~= frames(st.accepted));
                lemma_accept_extends_stream(st.published, st.accepted, m, k as int);
            },
        }
        lemma_send_run_keeps_order(next, steps.drop_first());
    }
}

} // verus!
