use shaman::{would_block, ClientState, IoErrorKind, Request, Response, ShamanError, SocketAction, RX, SOCK, TX};

#[test]
fn new_client_may_send_only() {
    let c = ClientState::new();
    assert!(c.sendable());
    assert!(!c.receivable());
}

#[test]
fn events_set_readiness() {
    let mut c = ClientState::new();
    assert!(matches!(c.on_event(RX, false, false), Ok(SocketAction::Nothing)));
    assert!(c.receivable());
    assert!(matches!(c.on_event(SOCK, false, true), Ok(SocketAction::Drain)));
    assert!(matches!(c.on_event(SOCK, true, true), Err(ShamanError::ConnectionClosed)));
    assert!(c.receivable());
}

#[test]
fn would_block_clears_readiness() {
    let mut c = ClientState::new();
    c.on_event(RX, false, false).unwrap();
    assert!(c.after_recv(Err(ShamanError::WouldBlock)).is_none());
    assert!(!c.receivable());
    assert!(matches!(c.after_try_send(Err(ShamanError::WouldBlock)), Err(ShamanError::WouldBlock)));
    assert!(!c.sendable());
    c.on_event(TX, false, false).unwrap();
    assert!(c.sendable());
    assert!(matches!(c.after_send(Ok(())), Some(Ok(()))));
    assert!(c.sendable());
}

#[test]
fn other_results_pass_through() {
    let mut c = ClientState::new();
    c.on_event(RX, false, false).unwrap();
    assert_eq!(c.after_try_recv(Ok(vec![1, 2])).unwrap(), vec![1, 2]);
    assert!(c.receivable());
    assert!(matches!(c.after_recv(Err(ShamanError::ConnectionClosed)), Some(Err(ShamanError::ConnectionClosed))));
    assert!(c.receivable());
    assert!(matches!(c.after_try_recv(Err(ShamanError::WouldBlock)), Err(ShamanError::WouldBlock)));
    assert!(!c.receivable());
    assert!(matches!(c.after_send(Err(ShamanError::WouldBlock)), None));
    assert!(!c.sendable());
}

#[test]
fn io_would_block_is_recognised() {
    let e = std::io::Error::from(std::io::ErrorKind::WouldBlock);
    assert!(would_block(&e));
    let e = std::io::Error::from(std::io::ErrorKind::NotFound);
    assert!(!would_block(&e));
    assert!(IoErrorKind::WouldBlock.is_would_block());
    assert!(!IoErrorKind::Other.is_would_block());
    assert!(ShamanError::WouldBlock.is_would_block());
    assert!(!ShamanError::ConnectionClosed.is_would_block());
}

#[test]
fn message_types() {
    let r = Request { id: 1, method: "clock".to_string(), params: vec![1] };
    assert_eq!(r, Request { id: 1, method: "clock".to_string(), params: vec![1] });
    let s = Response::Success { id: 1, data: vec![2] };
    assert!(matches!(s, Response::Success { id: 1, .. }));
    let e = Response::Error { id: 2, code: 5 };
    assert_ne!(e, s);
    let c = Response::Subscription { channel: "tick".to_string(), data: vec![] };
    assert!(matches!(c, Response::Subscription { .. }));
}

#[test]
fn async_decisions() {
    assert!(shaman::settle_result::<u8>(Err(ShamanError::WouldBlock)).is_none());
    assert!(matches!(shaman::settle_result::<u8>(Ok(3)), Some(Ok(3))));
    assert!(matches!(
        shaman::settle_result::<u8>(Err(ShamanError::ConnectionClosed)),
        Some(Err(ShamanError::ConnectionClosed))
    ));
    assert!(shaman::on_stream_ready(false).is_ok());
    assert!(matches!(shaman::on_stream_ready(true), Err(ShamanError::ConnectionClosed)));
}

#[test]
fn time_left_of_a_limit() {
    assert_eq!(shaman::time_left(2, 500, 1, 400), Some((1, 100)));
    assert_eq!(shaman::time_left(2, 100, 1, 400), Some((0, 999_999_700)));
    assert_eq!(shaman::time_left(2, 100, 2, 100), Some((0, 0)));
    assert_eq!(shaman::time_left(2, 100, 2, 101), None);
    assert_eq!(shaman::time_left(1, 0, 3, 0), None);
}
