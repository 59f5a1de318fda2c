use shaman::{broadcast_result, ConnectionTable, Dispatch, MessageHandler, ShamanError, SERVER_TOKEN};

#[test]
fn listening_token_accepts() {
    let t = ConnectionTable::new();
    assert_eq!(t.dispatch(SERVER_TOKEN, false, true), Dispatch::Accept);
    assert_eq!(t.dispatch(SERVER_TOKEN, true, true), Dispatch::Accept);
    assert_eq!(t.next_poll_token(), 1);
}

#[test]
fn connection_lifecycle() {
    let mut t = ConnectionTable::new();
    let id = t.accept();
    assert_eq!(id, 1);
    assert_eq!(t.next_poll_token(), 2);
    assert_eq!(t.dispatch(1, false, true), Dispatch::Establish(1));
    assert_eq!(t.dispatch(1, false, false), Dispatch::Unhandled);
    assert!(t.has_stream(1));
    assert!(!t.has_stream(2));
    let (tx, rx) = t.establish(1);
    assert_eq!((tx, rx), (2, 3));
    assert_eq!(t.dispatch(2, false, false), Dispatch::Flush(1));
    assert_eq!(t.dispatch(3, true, true), Dispatch::Receive(1));
    let id2 = t.accept();
    assert_eq!(id2, 4);
    let (tx2, rx2) = t.establish(4);
    assert_eq!((tx2, rx2), (5, 6));
    assert_eq!(t.dispatch(1, true, false), Dispatch::Close(1));
    // the receive ring is kept with the send notifier's token
    assert_eq!(t.close(1), (Some(2), Some(2)));
    assert_eq!(t.dispatch(1, true, false), Dispatch::Unknown(1));
    assert_eq!(t.dispatch(1, false, true), Dispatch::Unknown(1));
    assert_eq!(t.dispatch(2, false, true), Dispatch::Unknown(2));
    // the receive notifier's token still leads to the closed connection
    assert_eq!(t.dispatch(3, false, false), Dispatch::Receive(1));
    assert_eq!(t.dispatch(5, false, false), Dispatch::Flush(4));
    assert_eq!(t.dispatch(6, false, false), Dispatch::Receive(4));
    assert_eq!(t.close(1), (None, None));
    assert!(!t.has_stream(1));
}

#[test]
fn next_token_counts_up() {
    let mut t = ConnectionTable::new();
    assert_eq!(t.next_token(), 1);
    assert_eq!(t.next_token(), 2);
    assert_eq!(t.accept(), 3);
}

#[test]
fn unknown_connection_events() {
    let t = ConnectionTable::new();
    assert_eq!(t.dispatch(42, true, false), Dispatch::Unknown(42));
    assert_eq!(t.dispatch(42, false, true), Dispatch::Unknown(42));
    assert_eq!(t.dispatch(42, false, false), Dispatch::Unhandled);
}

#[test]
fn broadcast_reports_last_error() {
    assert!(broadcast_result(vec![]).is_ok());
    assert!(broadcast_result(vec![Ok(()), Ok(())]).is_ok());
    let r = broadcast_result(vec![
        Err(ShamanError::WouldBlock),
        Ok(()),
        Err(ShamanError::ConnectionNotFound(7)),
        Ok(()),
    ]);
    assert!(matches!(r, Err(ShamanError::ConnectionNotFound(7))));
    let r = broadcast_result(vec![Err(ShamanError::WouldBlock), Ok(())]);
    assert!(matches!(r, Err(ShamanError::WouldBlock)));
}

struct Counter {
    connects: usize,
}

impl MessageHandler for Counter {
    fn on_connect(&mut self, _conn: usize) {
        self.connects += 1;
    }
}

#[test]
fn handler_defaults_do_nothing() {
    let mut c = Counter { connects: 0 };
    c.on_connect(1);
    c.on_data(1, b"x");
    c.on_disconnect(1);
    assert_eq!(c.connects, 1);
}

#[test]
fn closure_handles_data() {
    let mut seen: Vec<(usize, Vec<u8>)> = Vec::new();
    {
        let mut h = |conn: usize, data: &[u8]| seen.push((conn, data.to_vec()));
        h.on_data(3, b"abc");
        h.on_connect(3);
        h.on_disconnect(3);
        h.on_data(4, b"d");
    }
    assert_eq!(seen, vec![(3, b"abc".to_vec()), (4, b"d".to_vec())]);
}
