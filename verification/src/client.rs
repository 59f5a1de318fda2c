use vstd::prelude::*;

use crate::errors::ShamanError;

verus! {

/// The token under which a client polls its socket.
pub const SOCK: usize = 0;

/// The token under which a client polls its send ring's notifier.
pub const TX: usize = 1;

/// The token under which a client polls its receive ring's notifier.
pub const RX: usize = 2;

/// What a client does with its socket after a poll event.
#[derive(Debug, Clone, Copy, PartialEq, Eq, Structural)]
pub enum SocketAction {
    /// Nothing.
    Nothing,
    /// Read and discard what the server wrote to the socket.
    Drain,
}

/// Whether a client may try its rings: it may send until a send would
/// block, and receive once its receive notifier has fired, until a receive
/// would block.
pub struct ClientState {
    sendable: bool,
    receivable: bool,
}

/// The readiness of a client: whether it may send, whether it may receive.
pub struct ClientView {
    pub sendable: bool,
    pub receivable: bool,
}

impl View for ClientState {
    type V = ClientView;

    closed spec fn view(&self) -> ClientView {
        ClientView { sendable: self.sendable, receivable: self.receivable }
    }
}

/// Whether a poll event is one a client knows: its socket hung up or became
/// readable, or one of its notifiers fired.
pub open spec fn known_event(token: usize, read_closed: bool, readable: bool) -> bool {
    token == TX || token == RX || (token == SOCK && (read_closed || readable))
}

/// The outcome of a blocking operation after one try: `None` to wait and
/// try again when the try would have blocked, else the try's result.
pub open spec fn settle<T>(r: Result<T, ShamanError>) -> Option<Result<T, ShamanError>> {
    match r {
        Err(ShamanError::WouldBlock) => None,
        _ => Some(r),
    }
}

/// What a poll event makes of the socket: an error if it hung up, a drain if
/// it is readable; a notifier's event asks nothing of it.
pub open spec fn event_result(token: usize, read_closed: bool) -> Result<SocketAction, ShamanError> {
    if token == SOCK {
        if read_closed {
            Err(ShamanError::ConnectionClosed)
        } else {
            Ok(SocketAction::Drain)
        }
    } else {
        Ok(SocketAction::Nothing)
    }
}

/// The readiness after a poll event: the send notifier makes the client
/// sendable, the receive notifier receivable.
pub open spec fn after_event(v: ClientView, token: usize) -> ClientView {
    if token == TX {
        ClientView { sendable: true, ..v }
    } else if token == RX {
        ClientView { receivable: true, ..v }
    } else {
        v
    }
}

/// A poll event only ever makes a client readier, and each notifier only for
/// its own ring: the send notifier makes it sendable and the receive notifier
/// receivable, and neither touches the other's readiness.
pub proof fn lemma_event_readiness(v: ClientView, token: usize)
    ensures
        after_event(v, token).sendable == (v.sendable || token == TX),
        after_event(v, token).receivable == (v.receivable || token == RX),
{
}

/// What a poll event makes of the socket: a hang-up of the socket closes the
/// connection whatever else the event reports, other readiness of the socket
/// asks for a drain, and a notifier's event asks nothing of the socket.
pub proof fn lemma_event_socket_outcome(token: usize, read_closed: bool)
    ensures
        token == SOCK && read_closed ==> (event_result(token, read_closed) matches Err(e)
            && e is ConnectionClosed),
        token == SOCK && !read_closed ==> event_result(token, read_closed) == Ok::<
            SocketAction,
            ShamanError,
        >(SocketAction::Drain),
        token != SOCK ==> event_result(token, read_closed) == Ok::<SocketAction, ShamanError>(
            SocketAction::Nothing,
        ),
{
}

/// A blocking operation waits exactly when its try would have blocked, and
/// otherwise ends with the try's own result.
pub proof fn lemma_settle_waits_only_on_would_block<T>(r: Result<T, ShamanError>)
    ensures
        settle(r) is None <==> (r matches Err(e) && e is WouldBlock),
        settle(r) is Some ==> settle(r) == Some(r),
{
}

impl ClientState {
    /// A new client may send but has nothing to receive yet.
    pub fn new() -> (s: Self)
        ensures
            s@ == (ClientView { sendable: true, receivable: false }),
    {
        ClientState { sendable: true, receivable: false }
    }

    /// Whether the client may try to send.
    pub fn sendable(&self) -> (b: bool)
        ensures
            b == self@.sendable,
    {
        self.sendable
    }

    /// Whether the client may try to receive.
    pub fn receivable(&self) -> (b: bool)
        ensures
            b == self@.receivable,
    {
        self.receivable
    }

    /// Takes one poll event: a hang-up of the socket is an error, readable
    /// data on the socket is drained, and a notifier makes its ring usable.
    pub fn on_event(&mut self, token: usize, read_closed: bool, readable: bool) -> (r: Result<
        SocketAction,
        ShamanError,
    >)
        requires
            known_event(token, read_closed, readable),
        ensures
            r == event_result(token, read_closed),
            final(self)@ == after_event(old(self)@, token),
    {
        if token == SOCK {
            if read_closed {
                Err(ShamanError::ConnectionClosed)
            } else {
                Ok(SocketAction::Drain)
            }
        } else if token == TX {
            self.sendable = true;
            Ok(SocketAction::Nothing)
        } else {
            self.receivable = true;
            Ok(SocketAction::Nothing)
        }
    }

    /// Takes the result of one receive try inside a blocking receive: a try
    /// that would block makes the client wait for its receive notifier.
    pub fn after_recv(&mut self, r: Result<Vec<u8>, ShamanError>) -> (out: Option<
        Result<Vec<u8>, ShamanError>,
    >)
        ensures
            out == settle(r),
            final(self)@ == (ClientView {
                receivable: old(self)@.receivable && !(r matches Err(e) && e is WouldBlock),
                ..old(self)@
            }),
    {
        match r {
            Err(ShamanError::WouldBlock) => {
                self.receivable = false;
                None
            },
            _ => Some(r),
        }
    }

    /// Takes the result of a receive try: a try that would block makes the
    /// client wait for its receive notifier, and is reported.
    pub fn after_try_recv(&mut self, r: Result<Vec<u8>, ShamanError>) -> (out: Result<
        Vec<u8>,
        ShamanError,
    >)
        ensures
            out == r,
            final(self)@ == (ClientView {
                receivable: old(self)@.receivable && !(r matches Err(e) && e is WouldBlock),
                ..old(self)@
            }),
    {
        match r {
            Err(ShamanError::WouldBlock) => {
                self.receivable = false;
                Err(ShamanError::WouldBlock)
            },
            _ => r,
        }
    }

    /// Takes the result of one send try inside a blocking send: a try that
    /// would block makes the client wait for its send notifier.
    pub fn after_send(&mut self, r: Result<(), ShamanError>) -> (out: Option<Result<(), ShamanError>>)
        ensures
            out == settle(r),
            final(self)@ == (ClientView {
                sendable: old(self)@.sendable && !(r matches Err(e) && e is WouldBlock),
                ..old(self)@
            }),
    {
        match r {
            Err(ShamanError::WouldBlock) => {
                self.sendable = false;
                None
            },
            _ => Some(r),
        }
    }

    /// Takes the result of a send try: a try that would block makes the
    /// client wait for its send notifier, and is reported.
    pub fn after_try_send(&mut self, r: Result<(), ShamanError>) -> (out: Result<(), ShamanError>)
        ensures
            out == r,
            final(self)@ == (ClientView {
                sendable: old(self)@.sendable && !(r matches Err(e) && e is WouldBlock),
                ..old(self)@
            }),
    {
        match r {
            Err(ShamanError::WouldBlock) => {
                self.sendable = false;
                Err(ShamanError::WouldBlock)
            },
            _ => r,
        }
    }
}

/// The outcome of one try inside a blocking operation of an asynchronous
/// client: `None` to wait for readiness and try again when the try would
/// have blocked, else the try's result.
pub fn settle_result<T>(r: Result<T, ShamanError>) -> (o: Option<Result<T, ShamanError>>)
    ensures
        o == settle(r),
{
    match r {
        Err(ShamanError::WouldBlock) => None,
        _ => Some(r),
    }
}

/// What waiting on the socket tells a client: a hang-up is the end of the
/// connection, anything else means the client may try again.
pub fn on_stream_ready(read_closed: bool) -> (r: Result<(), ShamanError>)
    ensures
        r is Err <==> read_closed,
        r matches Err(e) ==> e is ConnectionClosed,
{
    if read_closed {
        Err(ShamanError::ConnectionClosed)
    } else {
        Ok(())
    }
}

/// Nanoseconds in a second.
pub const NANOS_PER_SEC: u32 = 1_000_000_000;

/// A duration of `secs` seconds and `nanos` nanoseconds, in nanoseconds.
pub open spec fn total_nanos(secs: u64, nanos: u32) -> int {
    secs * 1_000_000_000 + nanos
}

/// How long a receive with a time limit may still wait: the limit less the
/// time already spent, or `None` once more time than the limit has passed.
/// Durations are given as seconds and nanoseconds below a second.
pub fn time_left(limit_secs: u64, limit_nanos: u32, spent_secs: u64, spent_nanos: u32) -> (r: Option<
    (u64, u32),
>)
    requires
        limit_nanos < NANOS_PER_SEC,
        spent_nanos < NANOS_PER_SEC,
    ensures
        r is None <==> total_nanos(spent_secs, spent_nanos) > total_nanos(limit_secs, limit_nanos),
        r matches Some(left) ==> left.1 < NANOS_PER_SEC && total_nanos(left.0, left.1) == total_nanos(
            limit_secs,
            limit_nanos,
        ) - total_nanos(spent_secs, spent_nanos),
{
    if spent_secs > limit_secs || (spent_secs == limit_secs && spent_nanos > limit_nanos) {
        None
    } else if spent_nanos <= limit_nanos {
        Some((limit_secs - spent_secs, limit_nanos - spent_nanos))
    } else {
        Some((limit_secs - spent_secs - 1, limit_nanos + NANOS_PER_SEC - spent_nanos))
    }
}

} // verus!
