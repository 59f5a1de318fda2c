use shaman::{write_slice, write_vec_deque_and_trunc, BufReceiver, BufSender, Delivery, ShamanError, SIZE};
use std::collections::VecDeque;

#[test]
fn write_slice_fills_short_buffer() {
    let mut buf = [9u8; 3];
    let n = write_slice(&mut buf, &[1, 2, 3, 4, 5]);
    assert_eq!(n, 3);
    assert_eq!(buf, [1, 2, 3]);
}

#[test]
fn write_slice_leaves_rest_of_long_buffer() {
    let mut buf = [9u8; 6];
    let n = write_slice(&mut buf, &[1, 2]);
    assert_eq!(n, 2);
    assert_eq!(buf, [1, 2, 9, 9, 9, 9]);
}

#[test]
fn write_slice_empty() {
    let mut buf: [u8; 0] = [];
    assert_eq!(write_slice(&mut buf, &[1, 2]), 0);
    let mut buf2 = [7u8; 2];
    assert_eq!(write_slice(&mut buf2, &[]), 0);
    assert_eq!(buf2, [7, 7]);
}

#[test]
fn write_vec_deque_moves_front_bytes() {
    let mut vd: VecDeque<u8> = VecDeque::new();
    vd.push_back(3);
    vd.push_back(4);
    vd.push_front(2);
    vd.push_front(1);
    let mut buf = [0u8; 3];
    let n = write_vec_deque_and_trunc(&mut buf, &mut vd);
    assert_eq!(n, 3);
    assert_eq!(buf, [1, 2, 3]);
    assert_eq!(vd.iter().copied().collect::<Vec<u8>>(), vec![4]);
}

#[test]
fn write_vec_deque_short_deque() {
    let mut vd: VecDeque<u8> = VecDeque::from(vec![5, 6]);
    let mut buf = [0u8; 4];
    let n = write_vec_deque_and_trunc(&mut buf, &mut vd);
    assert_eq!(n, 2);
    assert_eq!(buf, [5, 6, 0, 0]);
    assert!(vd.is_empty());
}

#[test]
fn frame_header_is_native_length() {
    let mut s = BufSender::new();
    let mut buf = [0u8; 32];
    let n = s.frame_into(&mut buf, b"hello");
    assert_eq!(n, SIZE + 5);
    assert_eq!(&buf[..SIZE], &5usize.to_ne_bytes()[..]);
    assert_eq!(&buf[SIZE..SIZE + 5], b"hello");
    assert!(s.is_flushed());
}

#[test]
fn frame_split_over_small_windows() {
    let mut s = BufSender::new();
    let mut w1 = [0u8; 3];
    assert_eq!(s.frame_into(&mut w1, b"abc"), 3);
    assert_eq!(&w1[..], &3usize.to_ne_bytes()[..3]);
    assert!(!s.is_flushed());
    assert!(matches!(s.check_flushed(), Err(ShamanError::WouldBlock)));
    assert!(s.should_flush(10));
    assert!(!s.should_flush(0));
    let mut w2 = [0u8; 6];
    assert_eq!(s.flush_into(&mut w2), 6);
    assert_eq!(&w2[..5], &3usize.to_ne_bytes()[3..]);
    assert_eq!(w2[5], b'a');
    let mut w3 = [0u8; 10];
    assert_eq!(s.flush_into(&mut w3), 2);
    assert_eq!(&w3[..2], b"bc");
    assert!(s.is_flushed());
    assert!(s.check_flushed().is_ok());
}

#[test]
fn frame_with_header_only_room() {
    let mut s = BufSender::new();
    let mut w = [0u8; 8];
    assert_eq!(s.frame_into(&mut w, b"xy"), 8);
    assert_eq!(w, 2usize.to_ne_bytes());
    let mut w2 = [0u8; 8];
    assert_eq!(s.flush_into(&mut w2), 2);
    assert_eq!(&w2[..2], b"xy");
}

#[test]
fn whole_frame_in_one_chunk_is_delivered() {
    let mut r = BufReceiver::new();
    let mut chunk = 4usize.to_ne_bytes().to_vec();
    chunk.extend_from_slice(b"ping");
    chunk.extend_from_slice(&[1, 2, 3]);
    let (n, m) = r.on_chunk(&chunk);
    assert_eq!(n, SIZE + 4);
    assert_eq!(m, Some(b"ping".to_vec()));
}

#[test]
fn short_chunk_is_spilled() {
    let mut r = BufReceiver::new();
    let h = 4usize.to_ne_bytes();
    let (n, m) = r.on_chunk(&h[..3]);
    assert_eq!((n, m), (3, None));
    // the rest of the header only
    let mut rest = h[3..].to_vec();
    rest.extend_from_slice(b"pong");
    let (n, m) = r.on_chunk(&rest);
    assert_eq!((n, m), (5, None));
    let (n, m) = r.on_chunk(b"po");
    assert_eq!((n, m), (2, None));
    let (n, m) = r.on_chunk(b"ngXX");
    assert_eq!(n, 2);
    assert_eq!(m, Some(b"pong".to_vec()));
}

#[test]
fn incomplete_frame_takes_whole_chunk() {
    let mut r = BufReceiver::new();
    let mut chunk = 10usize.to_ne_bytes().to_vec();
    chunk.extend_from_slice(b"abc");
    let (n, m) = r.on_chunk(&chunk);
    assert_eq!((n, m), (SIZE + 3, None));
    let (n, m) = r.on_chunk(b"defghijZZ");
    assert_eq!(n, 7);
    assert_eq!(m, Some(b"abcdefghij".to_vec()));
}

#[test]
fn empty_message_after_split_header() {
    let mut r = BufReceiver::new();
    let h = 0usize.to_ne_bytes();
    assert_eq!(r.on_chunk(&h[..3]), (3, None));
    // the step that completes the header hands out the empty message
    let (n, m) = r.on_chunk(&h[3..]);
    assert_eq!(n, 5);
    assert_eq!(m, Some(Vec::new()));
    // nothing is left over
    let (n, m) = r.on_chunk(&[1]);
    assert_eq!((n, m), (1, None));
}

#[test]
fn header_completion_with_data_stops_at_header() {
    let mut r = BufReceiver::new();
    let mut bytes = 2usize.to_ne_bytes().to_vec();
    bytes.extend_from_slice(b"hi");
    assert_eq!(r.on_chunk(&bytes[..1]), (1, None));
    assert_eq!(r.on_chunk(&bytes[1..]), (7, None));
    assert_eq!(r.on_chunk(&bytes[8..]), (2, Some(b"hi".to_vec())));
}

#[test]
fn header_codec_round_trip() {
    let h = shaman::header_for(1234);
    assert_eq!(h, 1234usize.to_ne_bytes());
    assert_eq!(shaman::read_header(&h), 1234);
    assert_eq!(shaman::read_header(&usize::MAX.to_ne_bytes()), usize::MAX);
}

#[test]
fn empty_message_in_one_chunk() {
    let mut r = BufReceiver::new();
    let (n, m) = r.on_chunk(&0usize.to_ne_bytes());
    assert_eq!(n, SIZE);
    assert_eq!(m, Some(Vec::new()));
}

#[test]
fn receive_loop_decisions() {
    assert!(BufReceiver::should_receive(false, 3));
    assert!(!BufReceiver::should_receive(true, 3));
    assert!(!BufReceiver::should_receive(false, 0));
    assert!(matches!(BufReceiver::into_message::<Vec<u8>>(None), Err(ShamanError::WouldBlock)));
    assert_eq!(BufReceiver::into_message(Some(vec![1])).unwrap(), vec![1]);
}

/// Sends messages through a simulated ring whose windows and chunks vary in
/// size, and checks that the receiver hands out the same messages in order.
fn round_trip(msgs: &[&[u8]], window: usize, chunk: usize) {
    let mut s = BufSender::new();
    let mut ring: Vec<u8> = Vec::new();
    for m in msgs {
        loop {
            let mut w = vec![0u8; window];
            let n = s.flush_into(&mut w);
            ring.extend_from_slice(&w[..n]);
            if s.is_flushed() {
                break;
            }
        }
        s.check_flushed().unwrap();
        let mut w = vec![0u8; window];
        let n = s.frame_into(&mut w, m);
        ring.extend_from_slice(&w[..n]);
    }
    while !s.is_flushed() {
        let mut w = vec![0u8; window];
        let n = s.flush_into(&mut w);
        ring.extend_from_slice(&w[..n]);
    }
    let mut r = BufReceiver::new();
    let mut got: Vec<Vec<u8>> = Vec::new();
    let mut pos = 0;
    let mut idle = 0;
    while pos < ring.len() || idle < 2 {
        let end = std::cmp::min(ring.len(), pos + chunk);
        let (n, m) = r.on_chunk(&ring[pos..end]);
        pos += n;
        if let Some(m) = m {
            got.push(m);
            idle = 0;
        } else if pos >= ring.len() {
            idle += 1;
        }
    }
    let want: Vec<Vec<u8>> = msgs.iter().map(|m| m.to_vec()).collect();
    assert_eq!(got, want);
}

#[test]
fn round_trip_various_chunkings() {
    let msgs: Vec<&[u8]> = vec![b"hello world", b"", b"x", b"0123456789abcdef0123", b"end"];
    for window in [1usize, 3, 8, 9, 13, 64] {
        for chunk in [1usize, 2, 7, 8, 11, 100] {
            round_trip(&msgs, window, chunk);
        }
    }
}

#[test]
fn in_place_delivery_points_into_chunk() {
    let mut r = BufReceiver::new();
    let mut chunk = 3usize.to_ne_bytes().to_vec();
    chunk.extend_from_slice(b"abcdef");
    let (n, d) = r.on_chunk_in_place(&chunk);
    assert_eq!(n, SIZE + 3);
    match d {
        Some(Delivery::InChunk { start, len }) => assert_eq!(&chunk[start..start + len], b"abc"),
        _ => panic!("expected a message inside the chunk"),
    }
    let h = 2usize.to_ne_bytes();
    assert!(r.on_chunk_in_place(&h[..4]).1.is_none());
    assert!(r.on_chunk_in_place(&h[4..]).1.is_none());
    match r.on_chunk_in_place(b"xyz") {
        (2, Some(Delivery::Held(m))) => assert_eq!(m, b"xy".to_vec()),
        _ => panic!("expected a held message"),
    }
}

#[test]
fn full_ring_keeps_whole_frame() {
    let mut s = BufSender::new();
    let mut no_room: [u8; 0] = [];
    assert_eq!(s.frame_into(&mut no_room, b"abc"), 0);
    let mut w = [0u8; 16];
    assert_eq!(s.flush_into(&mut w), SIZE + 3);
    assert_eq!(&w[..SIZE], &3usize.to_ne_bytes()[..]);
    assert_eq!(&w[SIZE..SIZE + 3], b"abc");
    // flushing again with nothing pending does nothing
    let mut w2 = [7u8; 4];
    assert_eq!(s.flush_into(&mut w2), 0);
    assert_eq!(w2, [7u8; 4]);
    assert!(!s.should_flush(5));
}

#[test]
fn header_width_is_usize_width() {
    assert_eq!(SIZE, std::mem::size_of::<usize>());
}
