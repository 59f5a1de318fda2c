use std::collections::{HashMap, HashSet};
use vstd::prelude::*;

use crate::errors::ShamanError;
use crate::types::ConnId;

verus! {

broadcast use vstd::std_specs::hash::group_hash_axioms;

/// What a server tells its user about its connections. Every method does
/// nothing unless the user's type says otherwise.
pub trait MessageHandler {
    /// When the handler can take a message: always, unless the type says
    /// otherwise.
    open spec fn takes_data(&self, conn: ConnId, data: &[u8]) -> bool {
        true
    }

    /// A connection finished its handshake.
    fn on_connect(&mut self, _conn: ConnId) {
    }

    /// A message arrived on a connection.
    fn on_data(&mut self, _conn: ConnId, _data: &[u8])
        requires
            old(self).takes_data(_conn, _data),
    {
    }

    /// A connection was closed.
    fn on_disconnect(&mut self, _conn: ConnId) {
    }
}

/// A closure over a connection id and a message handles messages.
impl<T> MessageHandler for T where T: FnMut(ConnId, &[u8]) {
    open spec fn takes_data(&self, conn: ConnId, data: &[u8]) -> bool {
        call_requires(*self, (conn, data))
    }

    fn on_connect(&mut self, _conn: ConnId)
        ensures
            *final(self) == *old(self),
    {
    }

    fn on_data(&mut self, conn_id: ConnId, data: &[u8])
        ensures
            call_ensures(*old(self), (conn_id, data), ()),
    {
        self(conn_id, data)
    }

    fn on_disconnect(&mut self, _conn: ConnId)
        ensures
            *final(self) == *old(self),
    {
    }
}

/// The token under which the listening socket is polled.
pub const SERVER_TOKEN: usize = 0;

/// What the server does with one poll event.
#[derive(Debug, Clone, Copy, PartialEq, Eq, Structural)]
pub enum Dispatch {
    /// The listening socket is ready: accept connections.
    Accept,
    /// The send ring of this connection has room again: flush it.
    Flush(ConnId),
    /// The receive ring of this connection has data: receive from it.
    Receive(ConnId),
    /// The peer of this connection hung up: close it.
    Close(ConnId),
    /// The peer of this connection sent its handshake: set up its rings.
    Establish(ConnId),
    /// The event names a connection that the server does not know.
    Unknown(ConnId),
    /// The event is of no kind the server handles.
    Unhandled,
}

/// The tokens of a connection table, as sets and maps.
pub struct TableView {
    /// Connections whose socket is open.
    pub streams: Set<usize>,
    /// Connection -> token of its send ring's notifier.
    pub senders: Map<usize, usize>,
    /// Connection -> token kept with its receive ring.
    pub receivers: Map<usize, usize>,
    /// Send-ring notifier token -> connection.
    pub tx_to_conn: Map<usize, usize>,
    /// Receive-ring notifier token -> connection.
    pub rx_to_conn: Map<usize, usize>,
    /// The next token to hand out.
    pub next: nat,
}

/// Whether `t` is a token that has been handed out.
pub open spec fn issued(v: TableView, t: usize) -> bool {
    1 <= t < v.next
}

/// The invariant of a connection table: every token in it has been handed
/// out, and every sender's notifier token leads back to its connection.
pub open spec fn table_wf(v: TableView) -> bool {
    &&& 1 <= v.next
    &&& forall|c: usize| #[trigger] v.streams.contains(c) ==> issued(v, c)
    &&& forall|c: usize| #[trigger] v.senders.contains_key(c) ==> issued(v, c) && issued(v, v.senders[c])
    &&& forall|c: usize| #[trigger] v.receivers.contains_key(c) ==> issued(v, c) && issued(v, v.receivers[c])
    &&& forall|t: usize| #[trigger] v.tx_to_conn.contains_key(t) ==> issued(v, t) && issued(v, v.tx_to_conn[t])
    &&& forall|t: usize| #[trigger] v.rx_to_conn.contains_key(t) ==> issued(v, t) && issued(v, v.rx_to_conn[t])
    &&& forall|c: usize| #[trigger] v.senders.contains_key(c) ==> v.tx_to_conn.contains_key(v.senders[c])
        && v.tx_to_conn[v.senders[c]] == c
    &&& forall|c: usize| #[trigger] v.senders.contains_key(c) ==> v.streams.contains(c)
    &&& forall|c: usize| #[trigger] v.receivers.contains_key(c) ==> v.streams.contains(c)
    &&& forall|t: usize| #[trigger] v.tx_to_conn.contains_key(t) ==> !v.streams.contains(t)
    &&& forall|t: usize| #[trigger] v.rx_to_conn.contains_key(t) ==> !v.streams.contains(t)
    &&& forall|t: usize| #[trigger] v.rx_to_conn.contains_key(t) ==> !v.tx_to_conn.contains_key(t)
}

/// Whether no part of the table holds token `t`.
pub open spec fn unused(v: TableView, t: usize) -> bool {
    &&& !v.streams.contains(t)
    &&& !v.senders.contains_key(t)
    &&& !v.receivers.contains_key(t)
    &&& !v.tx_to_conn.contains_key(t)
    &&& !v.rx_to_conn.contains_key(t)
}

/// What the server does with an event on `token`: the listening socket's
/// token accepts; a send or receive notifier's token flushes or receives on
/// its connection; otherwise the token is a connection's own, and a hang-up
/// closes it, readable data sets up its rings.
pub open spec fn spec_dispatch(v: TableView, token: usize, read_closed: bool, readable: bool) -> Dispatch {
    if token == SERVER_TOKEN {
        Dispatch::Accept
    } else if v.tx_to_conn.contains_key(token) {
        Dispatch::Flush(v.tx_to_conn[token])
    } else if v.rx_to_conn.contains_key(token) {
        Dispatch::Receive(v.rx_to_conn[token])
    } else if read_closed {
        if v.streams.contains(token) {
            Dispatch::Close(token)
        } else {
            Dispatch::Unknown(token)
        }
    } else if readable {
        if v.streams.contains(token) {
            Dispatch::Establish(token)
        } else {
            Dispatch::Unknown(token)
        }
    } else {
        Dispatch::Unhandled
    }
}

/// The table after accepting a connection under the next token.
pub open spec fn spec_accept(v: TableView) -> TableView {
    TableView { streams: v.streams.insert(v.next as usize), next: v.next + 1, ..v }
}

/// The table after setting up the rings of `conn`: its send notifier gets the
/// next token and its receive notifier the one after. The receive ring is
/// kept with the send notifier's token.
pub open spec fn spec_establish(v: TableView, conn: usize) -> TableView {
    let tx = v.next as usize;
    let rx = (v.next + 1) as usize;
    TableView {
        senders: v.senders.insert(conn, tx),
        receivers: v.receivers.insert(conn, tx),
        tx_to_conn: v.tx_to_conn.insert(tx, conn),
        rx_to_conn: v.rx_to_conn.insert(rx, conn),
        next: v.next + 2,
        ..v
    }
}

/// The table after closing `conn`: its socket, its send ring with its
/// notifier's token, and its receive ring go; the entry of the token kept
/// with the receive ring is dropped from the receive-notifier map.
pub open spec fn spec_close(v: TableView, conn: usize) -> TableView {
    TableView {
        streams: v.streams.remove(conn),
        senders: v.senders.remove(conn),
        receivers: v.receivers.remove(conn),
        tx_to_conn: if v.senders.contains_key(conn) {
            v.tx_to_conn.remove(v.senders[conn])
        } else {
            v.tx_to_conn
        },
        rx_to_conn: if v.receivers.contains_key(conn) {
            v.rx_to_conn.remove(v.receivers[conn])
        } else {
            v.rx_to_conn
        },
        ..v
    }
}

/// The maps behind a connection table.
struct TokenMaps {
    streams: HashSet<usize>,
    senders: HashMap<usize, usize>,
    receivers: HashMap<usize, usize>,
    tx_token_to_connection: HashMap<usize, usize>,
    rx_token_to_connection: HashMap<usize, usize>,
    next_poll_token: usize,
}

impl View for TokenMaps {
    type V = TableView;

    closed spec fn view(&self) -> TableView {
        TableView {
            streams: self.streams@,
            senders: self.senders@,
            receivers: self.receivers@,
            tx_to_conn: self.tx_token_to_connection@,
            rx_to_conn: self.rx_token_to_connection@,
            next: self.next_poll_token as nat,
        }
    }
}

impl TokenMaps {
    /// Maps with no entries whose next token is `next`.
    fn empty_at(next: usize) -> (t: Self)
        requires
            next >= 1,
        ensures
            t@ == (TableView {
                streams: Set::empty(),
                senders: Map::empty(),
                receivers: Map::empty(),
                tx_to_conn: Map::empty(),
                rx_to_conn: Map::empty(),
                next: next as nat,
            }),
            table_wf(t@),
    {
        TokenMaps {
            streams: HashSet::new(),
            senders: HashMap::new(),
            receivers: HashMap::new(),
            tx_token_to_connection: HashMap::new(),
            rx_token_to_connection: HashMap::new(),
            next_poll_token: next,
        }
    }

    /// An empty table; the first token it hands out is 1, after the
    /// listening socket's.
    fn new() -> (t: Self)
        ensures
            t@.streams == Set::<usize>::empty(),
            t@.senders == Map::<usize, usize>::empty(),
            t@.receivers == Map::<usize, usize>::empty(),
            t@.tx_to_conn == Map::<usize, usize>::empty(),
            t@.rx_to_conn == Map::<usize, usize>::empty(),
            t@.next == 1,
            table_wf(t@),
    {
        TokenMaps {
            streams: HashSet::new(),
            senders: HashMap::new(),
            receivers: HashMap::new(),
            tx_token_to_connection: HashMap::new(),
            rx_token_to_connection: HashMap::new(),
            next_poll_token: 1,
        }
    }

    /// The next token the table will hand out.
    fn next_poll_token(&self) -> (t: usize)
        ensures
            t == self@.next,
    {
        self.next_poll_token
    }

    /// Hands out the next token.
    fn next_token(&mut self) -> (t: usize)
        requires
            old(self)@.next < usize::MAX,
            table_wf(old(self)@),
        ensures
            t == old(self)@.next,
            final(self)@ == (TableView { next: old(self)@.next + 1, ..old(self)@ }),
            unused(old(self)@, t),
            table_wf(final(self)@),
    {
        let t = self.next_poll_token;
        self.next_poll_token = self.next_poll_token + 1;
        t
    }

    /// Records a newly accepted connection under the next token and returns
    /// that token.
    fn accept(&mut self) -> (id: usize)
        requires
            old(self)@.next < usize::MAX,
            table_wf(old(self)@),
        ensures
            id == old(self)@.next,
            unused(old(self)@, id),
            final(self)@ == spec_accept(old(self)@),
            table_wf(final(self)@),
    {
        let id = self.next_token();
        self.streams.insert(id);
        proof {
            assert(self@.streams == old(self)@.streams.insert(id));
        }
        id
    }

    /// What the server does with an event on `token`.
    fn dispatch(&self, token: usize, read_closed: bool, readable: bool) -> (d: Dispatch)
        ensures
            d == spec_dispatch(self@, token, read_closed, readable),
    {
        if token == SERVER_TOKEN {
            return Dispatch::Accept;
        }
        match self.tx_token_to_connection.get(&token) {
            Some(conn) => {
                return Dispatch::Flush(*conn);
            },
            None => {},
        }
        match self.rx_token_to_connection.get(&token) {
            Some(conn) => {
                return Dispatch::Receive(*conn);
            },
            None => {},
        }
        if read_closed {
            if self.streams.contains(&token) {
                Dispatch::Close(token)
            } else {
                Dispatch::Unknown(token)
            }
        } else if readable {
            if self.streams.contains(&token) {
                Dispatch::Establish(token)
            } else {
                Dispatch::Unknown(token)
            }
        } else {
            Dispatch::Unhandled
        }
    }

    /// Sets up the ring tokens of `conn`: returns the tokens of its send and
    /// receive notifiers.
    fn establish(&mut self, conn: ConnId) -> (tokens: (usize, usize))
        requires
            old(self)@.next + 2 <= usize::MAX,
            table_wf(old(self)@),
            old(self)@.streams.contains(conn),
        ensures
            tokens.0 == old(self)@.next,
            tokens.1 == old(self)@.next + 1,
            unused(old(self)@, tokens.0),
            unused(old(self)@, tokens.1),
            final(self)@ == spec_establish(old(self)@, conn),
            table_wf(final(self)@),
    {
        let tx_token = self.next_poll_token;
        self.next_poll_token = self.next_poll_token + 1;
        let rx_token = self.next_poll_token;
        self.next_poll_token = self.next_poll_token + 1;
        self.senders.insert(conn, tx_token);
        self.receivers.insert(conn, tx_token);
        self.tx_token_to_connection.insert(tx_token, conn);
        self.rx_token_to_connection.insert(rx_token, conn);
        proof {
            let v = self@;
            let o = old(self)@;
            assert(v.senders == o.senders.insert(conn, tx_token));
            assert(v.receivers == o.receivers.insert(conn, tx_token));
            assert(v.tx_to_conn == o.tx_to_conn.insert(tx_token, conn));
            assert(v.rx_to_conn == o.rx_to_conn.insert(rx_token, conn));
            assert(v == spec_establish(o, conn));
        }
        (tx_token, rx_token)
    }

    /// Forgets `conn`: returns the token of its send ring's notifier and the
    /// token kept with its receive ring, for those it had.
    fn close(&mut self, conn: ConnId) -> (tokens: (Option<usize>, Option<usize>))
        requires
            table_wf(old(self)@),
        ensures
            tokens.0 == (if old(self)@.senders.contains_key(conn) {
                Some(old(self)@.senders[conn])
            } else {
                None
            }),
            tokens.1 == (if old(self)@.receivers.contains_key(conn) {
                Some(old(self)@.receivers[conn])
            } else {
                None
            }),
            final(self)@ == spec_close(old(self)@, conn),
            table_wf(final(self)@),
    {
        self.streams.remove(&conn);
        let tx = self.senders.remove(&conn);
        match tx {
            Some(token) => {
                self.tx_token_to_connection.remove(&token);
            },
            None => {},
        }
        let rx = self.receivers.remove(&conn);
        match rx {
            Some(token) => {
                self.rx_token_to_connection.remove(&token);
            },
            None => {},
        }
        proof {
            let v = self@;
            let o = old(self)@;
            assert(v.streams == o.streams.remove(conn));
            assert(v.senders == o.senders.remove(conn));
            assert(v.receivers == o.receivers.remove(conn));
            assert(v == spec_close(o, conn));
            assert forall|c: usize| #[trigger] v.senders.contains_key(c) implies v.tx_to_conn.contains_key(
                v.senders[c],
            ) && v.tx_to_conn[v.senders[c]] == c by {
                assert(o.senders.contains_key(c));
                assert(o.tx_to_conn[o.senders[c]] == c);
            }
        }
        (tx, rx)
    }
}

/// The tokens that a server keeps for its connections: which sockets are
/// open, which rings each connection has, which notifier token belongs to
/// which connection, and the next token to hand out.
pub struct ConnectionTable {
    maps: TokenMaps,
}

impl View for ConnectionTable {
    type V = TableView;

    closed spec fn view(&self) -> TableView {
        self.maps@
    }
}

impl ConnectionTable {
    /// The table's invariant.
    #[verifier::type_invariant]
    spec fn inv(self) -> bool {
        table_wf(self.maps@)
    }

    /// Takes the maps out, leaving maps with no entries and the same next
    /// token in their place.
    fn take_maps(&mut self) -> (m: TokenMaps)
        ensures
            m@ == old(self)@,
            table_wf(m@),
            final(self)@.next == old(self)@.next,
    {
        proof {
            use_type_invariant(&*self);
        }
        let mut m = TokenMaps::empty_at(self.maps.next_poll_token);
        std::mem::swap(&mut m, &mut self.maps);
        m
    }

    /// An empty table; the first token it hands out is 1, after the
    /// listening socket's.
    pub fn new() -> (t: Self)
        ensures
            t@.streams == Set::<usize>::empty(),
            t@.senders == Map::<usize, usize>::empty(),
            t@.receivers == Map::<usize, usize>::empty(),
            t@.tx_to_conn == Map::<usize, usize>::empty(),
            t@.rx_to_conn == Map::<usize, usize>::empty(),
            t@.next == 1,
            table_wf(t@),
    {
        ConnectionTable { maps: TokenMaps::new() }
    }

    /// The next token the table will hand out.
    pub fn next_poll_token(&self) -> (t: usize)
        ensures
            t == self@.next,
    {
        self.maps.next_poll_token()
    }

    /// Whether the socket of connection `conn` is open.
    pub fn has_stream(&self, conn: ConnId) -> (b: bool)
        ensures
            b == self@.streams.contains(conn),
    {
        self.maps.streams.contains(&conn)
    }

    /// Hands out the next token.
    pub fn next_token(&mut self) -> (t: usize)
        requires
            old(self)@.next < usize::MAX,
        ensures
            t == old(self)@.next,
            final(self)@ == (TableView { next: old(self)@.next + 1, ..old(self)@ }),
            unused(old(self)@, t),
            table_wf(old(self)@),
            table_wf(final(self)@),
    {
        let mut m = self.take_maps();
        let t = m.next_token();
        self.maps = m;
        t
    }

    /// Records a newly accepted connection under the next token and returns
    /// that token.
    pub fn accept(&mut self) -> (id: usize)
        requires
            old(self)@.next < usize::MAX,
        ensures
            id == old(self)@.next,
            unused(old(self)@, id),
            final(self)@ == spec_accept(old(self)@),
            table_wf(old(self)@),
            table_wf(final(self)@),
    {
        let mut m = self.take_maps();
        let id = m.accept();
        self.maps = m;
        id
    }

    /// What the server does with an event on `token`.
    pub fn dispatch(&self, token: usize, read_closed: bool, readable: bool) -> (d: Dispatch)
        ensures
            d == spec_dispatch(self@, token, read_closed, readable),
    {
        self.maps.dispatch(token, read_closed, readable)
    }

    /// Sets up the ring tokens of the open connection `conn`: returns the
    /// tokens of its send and receive notifiers.
    pub fn establish(&mut self, conn: ConnId) -> (tokens: (usize, usize))
        requires
            old(self)@.next + 2 <= usize::MAX,
            old(self)@.streams.contains(conn),
        ensures
            tokens.0 == old(self)@.next,
            tokens.1 == old(self)@.next + 1,
            unused(old(self)@, tokens.0),
            unused(old(self)@, tokens.1),
            final(self)@ == spec_establish(old(self)@, conn),
            table_wf(old(self)@),
            table_wf(final(self)@),
    {
        let mut m = self.take_maps();
        let tokens = m.establish(conn);
        self.maps = m;
        tokens
    }

    /// Forgets `conn`: returns the token of its send ring's notifier and the
    /// token kept with its receive ring, for those it had.
    pub fn close(&mut self, conn: ConnId) -> (tokens: (Option<usize>, Option<usize>))
        ensures
            tokens.0 == (if old(self)@.senders.contains_key(conn) {
                Some(old(self)@.senders[conn])
            } else {
                None
            }),
            tokens.1 == (if old(self)@.receivers.contains_key(conn) {
                Some(old(self)@.receivers[conn])
            } else {
                None
            }),
            final(self)@ == spec_close(old(self)@, conn),
            table_wf(old(self)@),
            table_wf(final(self)@),
    {
        let mut m = self.take_maps();
        let tokens = m.close(conn);
        self.maps = m;
        tokens
    }
}

/// The listening socket's token always accepts.
pub proof fn lemma_server_token_accepts(v: TableView, read_closed: bool, readable: bool)
    ensures
        spec_dispatch(v, SERVER_TOKEN, read_closed, readable) == Dispatch::Accept,
{
}

/// After a connection's rings are set up, an event on its send notifier's
/// token flushes that connection and one on its receive notifier's token
/// receives on it, whatever the event says besides.
pub proof fn lemma_established_rings_dispatch(
    v: TableView,
    conn: ConnId,
    read_closed: bool,
    readable: bool,
)
    requires
        table_wf(v),
        v.streams.contains(conn),
        v.next + 2 <= usize::MAX,
    ensures
        spec_dispatch(spec_establish(v, conn), v.next as usize, read_closed, readable)
            == Dispatch::Flush(conn),
        spec_dispatch(spec_establish(v, conn), (v.next + 1) as usize, read_closed, readable)
            == Dispatch::Receive(conn),
{
    let w = spec_establish(v, conn);
    assert(!v.tx_to_conn.contains_key((v.next + 1) as usize));
    assert(w.tx_to_conn.contains_key(v.next as usize));
}

/// A hang-up on an open connection's socket closes that connection, whether
/// or not the event also reports the socket readable.
pub proof fn lemma_hang_up_closes(v: TableView, conn: ConnId, readable: bool)
    requires
        table_wf(v),
        v.streams.contains(conn),
    ensures
        spec_dispatch(v, conn, true, readable) == Dispatch::Close(conn),
{
}

/// Readable data on an open connection's socket, with no hang-up, sets up
/// that connection's rings.
pub proof fn lemma_readable_establishes(v: TableView, conn: ConnId)
    requires
        table_wf(v),
        v.streams.contains(conn),
    ensures
        spec_dispatch(v, conn, false, true) == Dispatch::Establish(conn),
{
}

/// A connection is closed or set up only on an event on its own open
/// socket's token, and only a hang-up closes it.
pub proof fn lemma_close_and_establish_only_open_sockets(
    v: TableView,
    token: usize,
    read_closed: bool,
    readable: bool,
)
    requires
        table_wf(v),
    ensures
        spec_dispatch(v, token, read_closed, readable) matches Dispatch::Close(c) ==> c == token
            && v.streams.contains(token) && read_closed,
        spec_dispatch(v, token, read_closed, readable) matches Dispatch::Establish(c) ==> c == token
            && v.streams.contains(token) && readable && !read_closed,
{
}

/// Only the listening socket's token accepts; an event on a token that is
/// neither the listening socket's, nor a notifier's, nor an open socket's
/// names an unknown connection when it reports a hang-up or data, and is left
/// unhandled otherwise, as is an event on an open socket that reports neither.
pub proof fn lemma_dispatch_other_events(
    v: TableView,
    token: usize,
    read_closed: bool,
    readable: bool,
)
    requires
        table_wf(v),
    ensures
        spec_dispatch(v, token, read_closed, readable) is Accept <==> token == SERVER_TOKEN,
        token != SERVER_TOKEN && !v.tx_to_conn.contains_key(token) && !v.rx_to_conn.contains_key(token)
            && !v.streams.contains(token) && (read_closed || readable) ==> spec_dispatch(
            v,
            token,
            read_closed,
            readable,
        ) == Dispatch::Unknown(token),
        token != SERVER_TOKEN && !v.tx_to_conn.contains_key(token) && !v.rx_to_conn.contains_key(token)
            && !read_closed && !readable ==> spec_dispatch(v, token, read_closed, readable)
            == Dispatch::Unhandled,
{
}

/// A newly accepted connection's socket is open: a hang-up on its token
/// closes it and data on it sets up its rings.
pub proof fn lemma_accepted_socket_dispatch(v: TableView, readable: bool)
    requires
        table_wf(v),
        v.next < usize::MAX,
    ensures
        spec_accept(v).streams.contains(v.next as usize),
        table_wf(spec_accept(v)),
        spec_dispatch(spec_accept(v), v.next as usize, true, readable) == Dispatch::Close(
            v.next as usize,
        ),
        spec_dispatch(spec_accept(v), v.next as usize, false, true) == Dispatch::Establish(
            v.next as usize,
        ),
{
    let w = spec_accept(v);
    assert(!v.tx_to_conn.contains_key(v.next as usize));
    assert(!v.rx_to_conn.contains_key(v.next as usize));
    assert forall|t: usize| #[trigger] w.tx_to_conn.contains_key(t) implies !w.streams.contains(t) by {
        assert(issued(v, t));
    }
    assert forall|t: usize| #[trigger] w.rx_to_conn.contains_key(t) implies !w.streams.contains(t) by {
        assert(issued(v, t));
    }
}

/// An event on a receive notifier's token receives on the connection that the
/// token belongs to, whatever the event says besides.
pub proof fn lemma_receive_token_dispatch(v: TableView, t: usize, read_closed: bool, readable: bool)
    requires
        table_wf(v),
        v.rx_to_conn.contains_key(t),
    ensures
        spec_dispatch(v, t, read_closed, readable) == Dispatch::Receive(v.rx_to_conn[t]),
{
}

/// An event on a send notifier's token flushes the connection that the token
/// belongs to, whatever the event says besides.
pub proof fn lemma_send_token_dispatch(v: TableView, t: usize, read_closed: bool, readable: bool)
    requires
        table_wf(v),
        v.tx_to_conn.contains_key(t),
    ensures
        spec_dispatch(v, t, read_closed, readable) == Dispatch::Flush(v.tx_to_conn[t]),
{
}

/// After a connection is closed, the table holds no socket and no rings for
/// it: a hang-up on its token names an unknown connection, and its send
/// notifier's token no longer flushes anything.
pub proof fn lemma_closed_connection_forgotten(
    v: TableView,
    conn: ConnId,
    read_closed: bool,
    readable: bool,
)
    requires
        table_wf(v),
        v.streams.contains(conn),
    ensures
        !spec_close(v, conn).streams.contains(conn),
        !spec_close(v, conn).senders.contains_key(conn),
        !spec_close(v, conn).receivers.contains_key(conn),
        spec_dispatch(spec_close(v, conn), conn, true, readable) == Dispatch::Unknown(conn),
        v.senders.contains_key(conn) ==> !(spec_dispatch(
            spec_close(v, conn),
            v.senders[conn],
            read_closed,
            readable,
        ) is Flush),
{
    let w = spec_close(v, conn);
    assert(!v.tx_to_conn.contains_key(conn));
    assert(!v.rx_to_conn.contains_key(conn));
    if v.senders.contains_key(conn) {
        assert(!w.tx_to_conn.contains_key(v.senders[conn]));
    }
}

/// The outcome of sending one message to every connection: the error of the
/// last send that failed, if any failed.
pub open spec fn broadcast_outcome(results: Seq<Result<(), ShamanError>>) -> Result<(), ShamanError>
    decreases results.len(),
{
    if results.len() == 0 {
        Ok(())
    } else if results.last() is Err {
        results.last()
    } else {
        broadcast_outcome(results.drop_last())
    }
}

/// A broadcast whose send `j` failed, and every later send succeeded, fails
/// with the error of send `j`: the last failure is the one reported.
pub proof fn lemma_broadcast_reports_last_failure(results: Seq<Result<(), ShamanError>>, j: int)
    requires
        0 <= j < results.len(),
        results[j] is Err,
        forall|k: int| j < k < results.len() ==> #[trigger] results[k] is Ok,
    ensures
        broadcast_outcome(results) == results[j],
    decreases results.len(),
{
    let n = results.len() - 1;
    if j < n {
        let rest = results.drop_last();
        assert(results[n] is Ok);
        assert(rest[j] == results[j]);
        assert forall|k: int| j < k < rest.len() implies #[trigger] rest[k] is Ok by {
            assert(rest[k] == results[k]);
        }
        lemma_broadcast_reports_last_failure(rest, j);
    }
}

/// A broadcast in which some send failed fails.
pub proof fn lemma_broadcast_fails_if_any_failed(results: Seq<Result<(), ShamanError>>, j: int)
    requires
        0 <= j < results.len(),
        results[j] is Err,
    ensures
        broadcast_outcome(results) is Err,
    decreases results.len(),
{
    let n = results.len() - 1;
    if !(results[n] is Err) {
        let rest = results.drop_last();
        assert(j < n);
        assert(rest[j] == results[j]);
        lemma_broadcast_fails_if_any_failed(rest, j);
    }
}

/// A broadcast in which every send succeeded succeeds.
pub proof fn lemma_broadcast_succeeds_if_all_succeeded(results: Seq<Result<(), ShamanError>>)
    requires
        forall|k: int| 0 <= k < results.len() ==> #[trigger] results[k] is Ok,
    ensures
        broadcast_outcome(results) == Ok::<(), ShamanError>(()),
    decreases results.len(),
{
    if results.len() > 0 {
        let rest = results.drop_last();
        assert(results[results.len() - 1] is Ok);
        assert forall|k: int| 0 <= k < rest.len() implies #[trigger] rest[k] is Ok by {
            assert(rest[k] == results[k]);
        }
        lemma_broadcast_succeeds_if_all_succeeded(rest);
    }
}

/// Folds the outcomes of sending one message to every connection: the error
/// of the last send that failed, or success if none failed.
pub fn broadcast_result(outcomes: Vec<Result<(), ShamanError>>) -> (r: Result<(), ShamanError>)
    ensures
        r == broadcast_outcome(outcomes@),
{
    let ghost all = outcomes@;
    let mut results = outcomes;
    while results.len() > 0
        invariant
            all == outcomes@,
            broadcast_outcome(all) == broadcast_outcome(results@),
        decreases results@.len(),
    {
        let ghost before = results@;
        let last = results.pop();
        match last {
            Some(Err(e)) => {
                assert(before.last() == Err::<(), ShamanError>(e));
                assert(broadcast_outcome(before) == Err::<(), ShamanError>(e));
                return Err(e);
            },
            Some(Ok(())) => {
                assert(results@ =~= before.drop_last());
            },
            None => {},
        }
    }
    Ok(())
}

} // verus!
