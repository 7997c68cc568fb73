use avaria::ipc::{ChannelTable, Message, RingBuffer, MAX_CHANNELS, MSG_DATA};

#[test]
fn message_constructors_zero_the_payload() {
    let m = Message::empty();
    assert_eq!((m.src, m.msg_type), (0, 0));
    assert!(m.data.iter().all(|&b| b == 0));
    let m = Message::new(7, 3);
    assert_eq!((m.src, m.msg_type), (7, 3));
    assert!(m.data.iter().all(|&b| b == 0));
}

#[test]
fn message_u64_round_trip() {
    let m = Message::new(1, 2).with_u64(0x0102_0304_0506_0708);
    assert_eq!(m.read_u64(), 0x0102_0304_0506_0708);
    assert_eq!(&m.data[..8], &[8, 7, 6, 5, 4, 3, 2, 1]);
    assert_eq!(m.src, 1);
    let m2 = m.with_bytes(b"xy").with_u64(42);
    assert_eq!(m2.read_u64(), 42);
}

#[test]
fn message_with_bytes_truncates() {
    let long = [0xAAu8; 80];
    let m = Message::new(0, 0).with_bytes(&long);
    assert!(m.data.iter().all(|&b| b == 0xAA));
    let m = Message::new(0, 0).with_u64(u64::MAX).with_bytes(b"hi");
    assert_eq!(&m.data[..3], &[b'h', b'i', 0xFF]);
    assert_eq!(m.data.len(), MSG_DATA);
}

#[test]
fn ring_is_fifo_and_bounded() {
    let mut r = RingBuffer::new();
    assert!(r.is_empty());
    assert_eq!(r.pop().map(|m| m.src), None);
    for i in 0..63u32 {
        assert!(r.push(Message::new(i, 0)));
    }
    assert!(!r.push(Message::new(99, 0)));
    assert_eq!(r.len(), 63);
    for i in 0..63u32 {
        assert_eq!(r.pop().map(|m| m.src), Some(i));
    }
    assert!(r.is_empty());
    for i in 0..100u32 {
        assert!(r.push(Message::new(i, 1)));
        assert_eq!(r.pop().map(|m| m.src), Some(i));
    }
    assert_eq!(r.len(), 0);
}

#[test]
fn channels_are_numbered_and_limited() {
    let mut t = ChannelTable::new();
    for i in 0..MAX_CHANNELS as u32 {
        assert_eq!(t.create_channel(5), Some(i));
    }
    assert_eq!(t.create_channel(5), None);
}

#[test]
fn channel_send_recv_peek_pending() {
    let mut t = ChannelTable::new();
    let id = t.create_channel(1).unwrap();
    assert!(!t.peek(id));
    assert!(t.send(id, Message::new(1, 10).with_u64(5)));
    assert!(t.send(id, Message::new(1, 11)));
    assert!(t.peek(id));
    assert_eq!(t.pending(id), 2);
    let m = t.recv(id).unwrap();
    assert_eq!((m.msg_type, m.read_u64()), (10, 5));
    assert_eq!(t.recv(id).map(|m| m.msg_type), Some(11));
    assert!(t.recv(id).is_none());
}

#[test]
fn channel_rejects_inactive_and_out_of_range() {
    let mut t = ChannelTable::new();
    assert!(!t.send(0, Message::empty()));
    assert!(t.recv(0).is_none());
    assert!(!t.send(40, Message::empty()));
    assert!(!t.peek(40));
    assert_eq!(t.pending(40), 0);
    let id = t.create_channel(2).unwrap();
    assert!(t.send(id, Message::empty()));
    t.destroy_channel(id);
    assert!(!t.send(id, Message::empty()));
    assert!(t.recv(id).is_none());
    assert!(t.peek(id));
    assert_eq!(t.pending(id), 1);
    t.destroy_channel(99);
}
