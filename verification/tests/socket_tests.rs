use net_servers::socket::chunk::{sweep_step, ChunkCursor, Placement, INITIAL_CHUNKS, MAX_CONNECTIONS};
use net_servers::socket::framing::{length_in_text, message_length};
use net_servers::socket::message::{announce, listen_outcome, Message};
use net_servers::socket::registry::{ConnectionRegistry, Dispatch};
use net_servers::text::{push_int_text, split_exec};

#[test]
fn message_length_reads_decimal_prefix() {
    assert_eq!(message_length(b"12 "), Some(12));
    assert_eq!(message_length(b"0 "), Some(0));
    assert_eq!(message_length(b"007 "), Some(7));
    assert_eq!(message_length(b"+5 "), Some(5));
    assert_eq!(message_length(b"42"), Some(42));
}

#[test]
fn message_length_ignores_spaces() {
    assert_eq!(message_length(b" 1 2 "), Some(12));
}

#[test]
fn message_length_rejects_bad_prefixes() {
    assert_eq!(message_length(b" "), None);
    assert_eq!(message_length(b""), None);
    assert_eq!(message_length(b"+ "), None);
    assert_eq!(message_length(b"-1 "), None);
    assert_eq!(message_length(b"12a "), None);
    assert_eq!(message_length(b"\xff1 "), None);
    assert_eq!(message_length(b"99999999999999999999999 "), None);
}

#[test]
fn message_length_at_usize_limit() {
    let max = usize::MAX.to_string() + " ";
    assert_eq!(message_length(max.as_bytes()), Some(usize::MAX));
}

#[test]
fn length_text_roundtrip_examples() {
    for n in [0usize, 9, 10, 123456, usize::MAX / 3] {
        let mut digits = Vec::new();
        push_int_text(&mut digits, n as i64);
        let mut text: String = digits.iter().collect();
        text.push(' ');
        assert_eq!(message_length(text.as_bytes()), Some(n));
    }
}

#[test]
fn announce_gives_version_4_ids() {
    let (id, msg) = announce::<u8>(7);
    assert_eq!((id >> 76) & 0xF, 4);
    assert_eq!((id >> 62) & 0x3, 0b10);
    match msg {
        Message::CONNECT(s, i) => {
            assert_eq!(s, 7);
            assert_eq!(i, id);
        },
        other => panic!("unexpected message {:?}", other),
    }
    let (other, _) = announce::<u8>(8);
    assert_ne!(id, other);
}

#[test]
fn listen_outcome_passes_messages_and_departures() {
    let (m, r) = listen_outcome::<u8>(5, Ok(vec![1, 2]));
    assert!(r.is_ok());
    assert!(matches!(m, Message::MESSAGE(5, ref b) if b == &vec![1, 2]));
    let (m, r) = listen_outcome::<u8>(5, Err(()));
    assert!(r.is_err());
    assert!(matches!(m, Message::DISCONNECT(5)));
}

#[test]
fn registry_dispatches_events() {
    let mut reg: ConnectionRegistry<String> = ConnectionRegistry::new();
    assert!(matches!(reg.receive(Message::CONNECT("a".to_string(), 1)), Dispatch::Connected(1)));
    assert!(matches!(reg.receive(Message::CONNECT("b".to_string(), 2)), Dispatch::Connected(2)));
    assert_eq!(reg.len(), 2);
    let mut ids = reg.ids();
    ids.sort();
    assert_eq!(ids, vec![1, 2]);
    match reg.receive(Message::MESSAGE(2, vec![9])) {
        Dispatch::Delivered(2, b) => assert_eq!(b, vec![9]),
        other => panic!("unexpected dispatch {:?}", other),
    }
    assert!(matches!(reg.receive(Message::MESSAGE(3, vec![])), Dispatch::UnknownConnection(3)));
    match reg.receive(Message::BROADCAST(vec![4, 5])) {
        Dispatch::Broadcast(b) => assert_eq!(b, vec![4, 5]),
        other => panic!("unexpected dispatch {:?}", other),
    }
    match reg.receive(Message::DISCONNECT(1)) {
        Dispatch::Disconnected(1, s) => assert_eq!(s, "a"),
        other => panic!("unexpected dispatch {:?}", other),
    }
    assert!(!reg.contains(1));
    assert!(matches!(reg.receive(Message::DISCONNECT(1)), Dispatch::UnknownConnection(1)));
    assert_eq!(reg.ids(), vec![2]);
}

#[test]
fn registry_connect_then_disconnect_restores_table() {
    let mut reg: ConnectionRegistry<u8> = ConnectionRegistry::new();
    reg.insert(10, 1);
    reg.receive(Message::CONNECT(2, 11));
    match reg.receive(Message::DISCONNECT(11)) {
        Dispatch::Disconnected(11, s) => assert_eq!(s, 2),
        other => panic!("unexpected dispatch {:?}", other),
    }
    assert_eq!(reg.ids(), vec![10]);
    assert_eq!(reg.stream_mut(10).map(|s| *s), Some(1));
}

#[test]
fn registry_reconnect_same_id_replaces_stream() {
    let mut reg: ConnectionRegistry<u8> = ConnectionRegistry::new();
    reg.receive(Message::CONNECT(1, 7));
    reg.receive(Message::CONNECT(2, 7));
    assert_eq!(reg.len(), 1);
    if let Some(s) = reg.stream_mut(7) {
        assert_eq!(*s, 2);
        *s = 3;
    }
    assert_eq!(reg.remove(7), Some(3));
    assert_eq!(reg.remove(7), None);
    assert!(reg.stream_mut(7).is_none());
}

#[test]
fn cursor_fills_fresh_pool_round_robin() {
    let mut cursor = ChunkCursor::new();
    let p = cursor.place(0).unwrap();
    assert_eq!(p, Placement { fresh_chunks: INITIAL_CHUNKS, target: 0, check_capacity: false });
    assert!(!cursor.advance(&p, 2, 1));
    assert_eq!(cursor.index(), 1);
    let p = cursor.place(2).unwrap();
    assert_eq!(p, Placement { fresh_chunks: 0, target: 1, check_capacity: true });
    assert!(!cursor.advance(&p, 2, 1));
    assert_eq!(cursor.index(), 0);
}

#[test]
fn cursor_grows_pool_when_last_chunk_full() {
    let mut cursor = ChunkCursor::new();
    let p = cursor.place(3).unwrap();
    assert!(!cursor.advance(&p, 3, MAX_CONNECTIONS + 5));
    let p = cursor.place(3).unwrap();
    assert!(!cursor.advance(&p, 3, 0));
    let p = cursor.place(3).unwrap();
    assert!(p.check_capacity);
    assert!(cursor.advance(&p, 3, MAX_CONNECTIONS));
    assert_eq!(cursor.index(), 3);
    let p = cursor.place(4).unwrap();
    assert_eq!(p.target, 3);
}

#[test]
fn cursor_outside_pool_is_refused() {
    let mut cursor = ChunkCursor::new();
    let p = cursor.place(5).unwrap();
    cursor.advance(&p, 5, 0);
    assert_eq!(cursor.place(1), None);
    assert!(cursor.place(0).is_some());
}

#[test]
fn sweep_step_drops_failed_connections() {
    let mut conns = vec!['a', 'b', 'c'];
    let mut i = 0;
    let failures = [false, true, false];
    let mut k = 0;
    while i < conns.len() {
        i = sweep_step(&mut conns, i, failures[k]);
        k += 1;
    }
    assert_eq!(conns, vec!['a', 'c']);
}

#[test]
fn split_matches_str_split() {
    let cases = [("a\r\nb\r\n\r\nc", "\r\n"), ("", ","), (",,", ","), ("aaa", "aa"), ("x: y: z", ": ")];
    for (s, pat) in cases {
        let chars: Vec<char> = s.chars().collect();
        let p: Vec<char> = pat.chars().collect();
        let got: Vec<String> = split_exec(&chars, &p).iter().map(|v| v.iter().collect()).collect();
        let want: Vec<String> = s.split(pat).map(|x| x.to_string()).collect();
        assert_eq!(got, want);
    }
}

#[test]
fn int_text_matches_display() {
    for n in [0i64, 7, -7, 10, 1234567890, i64::MIN, i64::MAX] {
        let mut v = Vec::new();
        push_int_text(&mut v, n);
        let s: String = v.iter().collect();
        assert_eq!(s, n.to_string());
    }
}

#[test]
fn sweep_round_keeps_readable_connections_in_order() {
    let failures = [true, false, true, true, false, false];
    let mut conns: Vec<u32> = vec![10, 11, 12, 13, 14, 15];
    let mut reads: Vec<u32> = Vec::new();
    let mut i = 0;
    while i < conns.len() {
        reads.push(conns[i]);
        i = sweep_step(&mut conns, i, failures[reads.len() - 1]);
    }
    assert_eq!(reads, vec![10, 11, 12, 13, 14, 15]);
    assert_eq!(conns, vec![11, 14, 15]);
    assert_eq!(i, 3);
}

#[test]
fn sweep_round_all_failed_empties_chunk() {
    let mut conns = vec!['x', 'y'];
    let mut i = 0;
    while i < conns.len() {
        i = sweep_step(&mut conns, i, true);
    }
    assert!(conns.is_empty());
    assert_eq!(i, 0);
}

#[test]
fn registry_ignores_client_after_disconnect_until_reconnect() {
    let mut reg: ConnectionRegistry<u8> = ConnectionRegistry::new();
    assert!(matches!(reg.receive(Message::MESSAGE(4, vec![1])), Dispatch::UnknownConnection(4)));
    assert!(matches!(reg.receive(Message::CONNECT(1, 4)), Dispatch::Connected(4)));
    assert!(matches!(reg.receive(Message::MESSAGE(4, vec![1])), Dispatch::Delivered(4, _)));
    assert!(matches!(reg.receive(Message::DISCONNECT(4)), Dispatch::Disconnected(4, 1)));
    assert!(matches!(reg.receive(Message::MESSAGE(4, vec![2])), Dispatch::UnknownConnection(4)));
    assert!(matches!(reg.receive(Message::DISCONNECT(4)), Dispatch::UnknownConnection(4)));
    assert!(matches!(reg.receive(Message::CONNECT(9, 4)), Dispatch::Connected(4)));
    assert!(matches!(reg.receive(Message::DISCONNECT(4)), Dispatch::Disconnected(4, 9)));
}

#[test]
fn length_in_decoded_text() {
    assert_eq!(length_in_text("3 "), Some(3));
    assert_eq!(length_in_text("\u{FFFD}3 "), None);
    assert_eq!(length_in_text("1 0 0"), Some(100));
}

#[test]
fn registry_delivers_each_message_in_order_then_one_disconnect() {
    let mut reg: ConnectionRegistry<u8> = ConnectionRegistry::new();
    let events = vec![
        Message::CONNECT(3, 21),
        Message::MESSAGE(21, vec![1]),
        Message::CONNECT(4, 22),
        Message::MESSAGE(22, vec![9]),
        Message::MESSAGE(21, vec![2]),
        Message::DISCONNECT(21),
        Message::MESSAGE(21, vec![3]),
        Message::DISCONNECT(21),
    ];
    let mut delivered: Vec<Vec<u8>> = Vec::new();
    let mut departures: Vec<u8> = Vec::new();
    for e in events {
        match reg.receive(e) {
            Dispatch::Delivered(21, b) => delivered.push(b),
            Dispatch::Disconnected(21, s) => departures.push(s),
            _ => {}
        }
    }
    assert_eq!(delivered, vec![vec![1], vec![2]]);
    assert_eq!(departures, vec![3]);
    assert_eq!(reg.ids(), vec![22]);
}
