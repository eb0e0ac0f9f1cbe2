//! The WebSocket client.
use talk_with_anyone::ws::{read_head, WsClient, WsError, WsFrameKind};

fn server_frame(op: u8, last: bool, p: &[u8]) -> Vec<u8> {
    let mut f = vec![op | if last { 0x80 } else { 0 }];
    if p.len() < 126 {
        f.push(p.len() as u8);
    } else if p.len() <= 0xffff {
        f.push(126);
        f.extend_from_slice(&(p.len() as u16).to_be_bytes());
    } else {
        f.push(127);
        f.extend_from_slice(&(p.len() as u64).to_be_bytes());
    }
    f.extend_from_slice(p);
    f
}

fn unmasked(f: &[u8]) -> (u8, Vec<u8>) {
    assert_eq!(f[1] & 0x80, 0x80);
    let (len, at) = match f[1] & 0x7f {
        126 => (u16::from_be_bytes([f[2], f[3]]) as usize, 4),
        127 => {
            let mut b = [0u8; 8];
            b.copy_from_slice(&f[2..10]);
            (u64::from_be_bytes(b) as usize, 10)
        }
        n => (n as usize, 2),
    };
    let mask = &f[at..at + 4];
    let p: Vec<u8> = f[at + 4..].iter().enumerate().map(|(i, b)| b ^ mask[i % 4]).collect();
    assert_eq!(p.len(), len);
    (f[0], p)
}

/// Everything that comes out of a stream handed over in pieces of the given size.
fn read_all(bytes: &[u8], piece: usize, cap: usize) -> Vec<Result<(WsFrameKind, Vec<u8>), WsError>> {
    let mut c = WsClient::connect(7);
    let mut out = vec![0u8; cap];
    let mut got = Vec::new();
    for part in bytes.chunks(piece) {
        let mut at = 0;
        while at < part.len() {
            let (used, r) = c.next_frame(&part[at..], &mut out);
            at += used;
            match r {
                Ok(Some((k, n))) => {
                    let p = if k == WsFrameKind::Ping { Vec::new() } else { out[..n].to_vec() };
                    got.push(Ok((k, p)));
                }
                Ok(None) => {}
                Err(e) => got.push(Err(e)),
            }
        }
    }
    got
}

#[test]
fn frames_come_out_whole_however_they_arrive() {
    let mut bytes = server_frame(1, true, b"hello");
    bytes.extend(server_frame(2, true, &[9; 300]));
    bytes.extend(server_frame(1, true, b""));
    bytes.extend(server_frame(1, true, &[b'x'; 70000]));
    let want = vec![
        Ok((WsFrameKind::Text, b"hello".to_vec())),
        Ok((WsFrameKind::Binary, vec![9; 300])),
        Ok((WsFrameKind::Text, vec![])),
        Ok((WsFrameKind::Text, vec![b'x'; 70000])),
    ];
    for piece in [1, 2, 3, 7, 1000, 100000] {
        assert_eq!(read_all(&bytes, piece, 70000), want);
    }
}

#[test]
fn frames_are_taken_one_at_a_time() {
    let mut c = WsClient::connect(1);
    let mut out = [0u8; 16];
    let mut bytes = server_frame(1, true, b"one");
    let first = bytes.len();
    bytes.extend(server_frame(1, true, b"two"));
    let (used, r) = c.next_frame(&bytes, &mut out);
    assert_eq!((used, r), (first, Ok(Some((WsFrameKind::Text, 3)))));
    assert_eq!(&out[..3], b"one");
    let (used, r) = c.next_frame(&bytes[first..], &mut out);
    assert_eq!((used, r), (bytes.len() - first, Ok(Some((WsFrameKind::Text, 3)))));
    assert_eq!(&out[..3], b"two");
}

#[test]
fn an_oversized_message_is_dropped_whole() {
    let mut bytes = server_frame(1, true, &[b'a'; 500]);
    bytes.extend(server_frame(1, true, b"next"));
    for piece in [1, 100, 1000] {
        assert_eq!(
            read_all(&bytes, piece, 100),
            vec![Err(WsError::TooLarge), Ok((WsFrameKind::Text, b"next".to_vec()))]
        );
    }
}

#[test]
fn fragments_are_joined() {
    let mut bytes = server_frame(1, false, b"ab");
    bytes.extend(server_frame(9, true, b"p"));
    bytes.extend(server_frame(0, false, b"cd"));
    bytes.extend(server_frame(0, true, b"ef"));
    for piece in [1, 4, 100] {
        assert_eq!(
            read_all(&bytes, piece, 6),
            vec![Ok((WsFrameKind::Ping, vec![])), Ok((WsFrameKind::Text, b"abcdef".to_vec()))]
        );
    }
    assert_eq!(
        read_all(&bytes, 100, 5),
        vec![Ok((WsFrameKind::Ping, vec![])), Err(WsError::TooLarge)]
    );
}

#[test]
fn stray_and_reserved_frames_are_dropped() {
    let mut bytes = server_frame(0, true, b"stray");
    bytes.extend(server_frame(3, true, b"reserved"));
    bytes.extend(server_frame(10, true, b"pong"));
    bytes.extend(server_frame(1, true, b"ok"));
    assert_eq!(read_all(&bytes, 5, 64), vec![Ok((WsFrameKind::Text, b"ok".to_vec()))]);
}

#[test]
fn a_reserved_frame_does_not_join_a_message() {
    for op in [3u8, 4, 5, 6, 7, 10, 11, 15] {
        for last in [false, true] {
            let mut bytes = server_frame(1, false, b"ab");
            bytes.extend(server_frame(op, last, b"X"));
            bytes.extend(server_frame(0, true, b"cd"));
            for piece in [1, 100] {
                assert_eq!(
                    read_all(&bytes, piece, 4),
                    vec![Ok((WsFrameKind::Text, b"abcd".to_vec()))]
                );
            }
        }
    }
    let mut bytes = server_frame(1, false, b"ab");
    bytes.extend(server_frame(3, true, b"too long"));
    bytes.extend(server_frame(0, true, b"cd"));
    assert_eq!(
        read_all(&bytes, 3, 4),
        vec![Err(WsError::TooLarge), Ok((WsFrameKind::Text, b"abcd".to_vec()))]
    );
}

#[test]
fn a_ping_is_answered() {
    let mut c = WsClient::connect(12345);
    let mut out = [0u8; 64];
    let bytes = server_frame(9, true, b"data");
    let (used, r) = c.next_frame(&bytes, &mut out);
    assert_eq!((used, r), (bytes.len(), Ok(Some((WsFrameKind::Ping, 4)))));
    assert_eq!(unmasked(c.pending()), (0x8a, b"data".to_vec()));
}

#[test]
fn a_close_is_confirmed() {
    let mut c = WsClient::connect(3);
    let mut out = [0u8; 64];
    let (_, r) = c.next_frame(&server_frame(8, true, &[3, 232]), &mut out);
    assert_eq!(r, Err(WsError::Closed));
    assert_eq!(unmasked(c.pending()), (0x88, vec![]));
}

#[test]
fn sent_frames_are_masked() {
    let mut c = WsClient::connect(0);
    c.send_text("hi");
    // The first mask is the first value of the generator, lowest byte first.
    assert_eq!(c.pending(), &[0x81, 0x82, 0x5f, 0xf3, 0x6e, 0x3c, b'h' ^ 0x5f, b'i' ^ 0xf3]);
    let mut c = WsClient::connect(99);
    c.send_binary(&[7; 126]);
    assert_eq!(unmasked(c.pending()), (0x82, vec![7; 126]));
    let mut c = WsClient::connect(99);
    c.send_binary(&[8; 65536]);
    assert_eq!(unmasked(c.pending()), (0x82, vec![8; 65536]));
}

#[test]
fn a_frame_cut_short_is_finished_before_the_next() {
    let mut c = WsClient::connect(5);
    c.send_text("first");
    let first = c.pending().to_vec();
    let mut wire = first[..3].to_vec();
    assert_eq!(c.flush_pending(3), Ok(()));
    c.send_binary(&[1, 2, 3]);
    while !c.pending().is_empty() {
        let n = if c.pending().len() < 4 { c.pending().len() } else { 4 };
        wire.extend_from_slice(&c.pending()[..n]);
        assert_eq!(c.flush_pending(n), Ok(()));
    }
    assert_eq!(&wire[..first.len()], &first[..]);
    assert_eq!(unmasked(&wire[..first.len()]), (0x81, b"first".to_vec()));
    assert_eq!(unmasked(&wire[first.len()..]), (0x82, vec![1, 2, 3]));
}

#[test]
fn a_write_of_nothing_means_closed() {
    let mut c = WsClient::connect(5);
    c.send_text("x");
    assert_eq!(c.flush_pending(0), Err(WsError::Closed));
    assert!(c.pending().is_empty());
}

#[test]
fn reconnecting_forgets_half_frames() {
    let mut c = WsClient::connect(5);
    let mut out = [0u8; 64];
    c.send_text("unsent");
    assert_eq!(c.next_frame(&server_frame(1, false, b"half"), &mut out).1, Ok(None));
    assert_eq!(c.next_frame(&[0x81, 0x05, b'a'], &mut out).1, Ok(None));
    c.reconnect();
    assert!(c.pending().is_empty());
    assert_eq!(c.next_frame(&server_frame(0, true, b"tail"), &mut out).1, Ok(None));
    assert_eq!(
        c.next_frame(&server_frame(1, true, b"new"), &mut out).1,
        Ok(Some((WsFrameKind::Text, 3)))
    );
}

#[test]
fn the_upgrade_request() {
    let c = WsClient::connect(0);
    assert_eq!(
        c.handshake(&[192, 168, 1, 7], "/ws/voice?token=t"),
        "GET /ws/voice?token=t HTTP/1.1\r\nHost: 192.168.1.7\r\nUpgrade: websocket\r\n\
         Connection: Upgrade\r\nSec-WebSocket-Key: X/NuPDIpUEfp9szRNFP5qg==\r\n\
         Sec-WebSocket-Version: 13\r\n\r\n"
    );
}

#[test]
fn an_accepting_head() {
    let mut head = Vec::new();
    let bytes = b"HTTP/1.1 101 Switching Protocols\r\nUpgrade: websocket\r\n\r\n\x81\x00";
    assert_eq!(read_head(&mut head, &bytes[..20]), (20, None));
    let (used, v) = read_head(&mut head, &bytes[20..]);
    assert_eq!((used, v), (bytes.len() - 22, Some(Ok(()))));
    let mut head = Vec::new();
    assert_eq!(read_head(&mut head, b"HTTP/1.0 101 \r\n\r\n").1, Some(Ok(())));
}

#[test]
fn a_refusing_head() {
    let fail = Some(Err(WsError::HandshakeFailed));
    let mut head = Vec::new();
    assert_eq!(read_head(&mut head, b"HTTP/1.1 403 Forbidden\r\n\r\n").1, fail);
    let mut head = Vec::new();
    assert_eq!(read_head(&mut head, b"HTTP/1.1 101 \xff\r\n\r\n").1, fail);
    let mut head = Vec::new();
    assert_eq!(read_head(&mut head, &[b'a'; 4096]), (4096, None));
    assert_eq!(read_head(&mut head, b"aa"), (1, fail));
}
