//! Message passing: fixed-size messages, per-channel ring buffers, and a
//! table of channels.
use vstd::prelude::*;
use vstd::bytes::{spec_u64_to_le_bytes, spec_u64_from_le_bytes, u64_to_le_bytes, u64_from_le_bytes};

verus! {

pub const MAX_CHANNELS: usize = 32;

pub const RING_SIZE: usize = 64;

/// Bytes of a whole message, header included.
pub const MSG_SIZE: usize = 64;

/// Bytes of payload in a message.
pub const MSG_DATA: usize = 56;

#[derive(Clone, Copy)]
pub struct Message {
    pub src: u32,
    pub msg_type: u32,
    pub data: [u8; 56],
}

impl Message {
    /// A message with every field zero.
    pub fn empty() -> (r: Self)
        ensures
            r.src == 0,
            r.msg_type == 0,
            r.data@ == Seq::new(MSG_DATA as nat, |i: int| 0u8),
    {
        let r = Message { src: 0, msg_type: 0, data: [0u8; 56] };
        assert(r.data@ =~= Seq::new(MSG_DATA as nat, |i: int| 0u8));
        r
    }

    /// A message from `src` of type `msg_type` with a zero payload.
    pub fn new(src: u32, msg_type: u32) -> (r: Self)
        ensures
            r.src == src,
            r.msg_type == msg_type,
            r.data@ == Seq::new(MSG_DATA as nat, |i: int| 0u8),
    {
        let r = Message { src, msg_type, data: [0u8; 56] };
        assert(r.data@ =~= Seq::new(MSG_DATA as nat, |i: int| 0u8));
        r
    }

    /// The message with its first eight payload bytes replaced by `val` in
    /// little-endian order.
    pub fn with_u64(self, val: u64) -> (r: Self)
        ensures
            r.src == self.src,
            r.msg_type == self.msg_type,
            r.data@ == spec_u64_to_le_bytes(val) + self.data@.subrange(8, MSG_DATA as int),
    {
        let mut m = self;
        let bytes = u64_to_le_bytes(val);
        let mut i: usize = 0;
        while i < 8
            invariant
                i <= 8,
                bytes@ == spec_u64_to_le_bytes(val),
                bytes@.len() == 8,
                m.src == self.src,
                m.msg_type == self.msg_type,
                m.data@.len() == MSG_DATA,
                forall|k: int| 0 <= k < i ==> #[trigger] m.data@[k] == bytes@[k],
                forall|k: int| i <= k < MSG_DATA ==> #[trigger] m.data@[k] == self.data@[k],
            decreases 8 - i,
        {
            m.data[i] = bytes[i];
            i += 1;
        }
        assert(m.data@ =~= spec_u64_to_le_bytes(val) + self.data@.subrange(8, MSG_DATA as int));
        m
    }

    /// The first eight payload bytes read as a little-endian integer.
    pub fn read_u64(&self) -> (r: u64)
        ensures
            r == spec_u64_from_le_bytes(self.data@.subrange(0, 8)),
    {
        let s: &[u8] = &self.data;
        u64_from_le_bytes(&s[0..8])
    }

    /// The message with the payload's prefix replaced by as much of `bytes`
    /// as fits.
    pub fn with_bytes(self, bytes: &[u8]) -> (r: Self)
        ensures
            r.src == self.src,
            r.msg_type == self.msg_type,
            r.data@ == (if bytes@.len() < MSG_DATA {
                bytes@ + self.data@.subrange(bytes@.len() as int, MSG_DATA as int)
            } else {
                bytes@.subrange(0, MSG_DATA as int)
            }),
    {
        let mut m = self;
        let len = if bytes.len() < MSG_DATA { bytes.len() } else { MSG_DATA };
        let mut i: usize = 0;
        while i < len
            invariant
                i <= len,
                len <= MSG_DATA,
                len <= bytes@.len(),
                len == (if bytes@.len() < MSG_DATA { bytes@.len() } else { MSG_DATA as nat }),
                m.src == self.src,
                m.msg_type == self.msg_type,
                m.data@.len() == MSG_DATA,
                forall|k: int| 0 <= k < i ==> #[trigger] m.data@[k] == bytes@[k],
                forall|k: int| i <= k < MSG_DATA ==> #[trigger] m.data@[k] == self.data@[k],
            decreases len - i,
        {
            m.data[i] = bytes[i];
            i += 1;
        }
        proof {
            if bytes@.len() < MSG_DATA {
                assert(m.data@ =~= bytes@ + self.data@.subrange(bytes@.len() as int, MSG_DATA as int));
            } else {
                assert(m.data@ =~= bytes@.subrange(0, MSG_DATA as int));
            }
        }
        m
    }
}

/// Reading back the integer written by `with_u64` gives that integer, whatever
/// the rest of the payload holds.
pub proof fn lemma_with_u64_read_u64(val: u64, rest: Seq<u8>)
    requires
        rest.len() == MSG_DATA - 8,
    ensures
        spec_u64_from_le_bytes((spec_u64_to_le_bytes(val) + rest).subrange(0, 8)) == val,
{
    vstd::bytes::lemma_auto_spec_u64_to_from_le_bytes();
    assert((spec_u64_to_le_bytes(val) + rest).subrange(0, 8) =~= spec_u64_to_le_bytes(val));
}

/// The messages queued in a ring, oldest first.
pub open spec fn ring_queue(buf: Seq<Message>, head: nat, tail: nat) -> Seq<Message> {
    Seq::new(
        ((head + RING_SIZE - tail) % (RING_SIZE as int)) as nat,
        |k: int| buf[(tail + k) % (RING_SIZE as int)],
    )
}

/// A single-producer single-consumer ring of RING_SIZE slots; one slot is
/// always left unused, so it holds at most RING_SIZE - 1 messages.
pub struct RingBuffer {
    buf: Vec<Message>,
    head: u32,
    tail: u32,
}

impl View for RingBuffer {
    type V = Seq<Message>;

    closed spec fn view(&self) -> Seq<Message> {
        ring_queue(self.buf@, self.head as nat, self.tail as nat)
    }
}

impl RingBuffer {
    pub closed spec fn wf(&self) -> bool {
        &&& self.buf.len() == RING_SIZE
        &&& self.head < RING_SIZE
        &&& self.tail < RING_SIZE
    }

    pub proof fn lemma_len(&self)
        requires
            self.wf(),
        ensures
            self@.len() < RING_SIZE,
    {
    }

    /// An empty ring.
    pub fn new() -> (r: Self)
        ensures
            r.wf(),
            r@ == Seq::<Message>::empty(),
    {
        let mut buf: Vec<Message> = Vec::new();
        let mut i: usize = 0;
        while i < RING_SIZE
            invariant
                i <= RING_SIZE,
                buf.len() == i,
            decreases RING_SIZE - i,
        {
            buf.push(Message::empty());
            i += 1;
        }
        let r = RingBuffer { buf, head: 0, tail: 0 };
        assert(r@ =~= Seq::<Message>::empty());
        r
    }

    /// Appends `msg` unless the ring already holds RING_SIZE - 1 messages.
    pub fn push(&mut self, msg: Message) -> (r: bool)
        requires
            old(self).wf(),
        ensures
            final(self).wf(),
            r == (old(self)@.len() < RING_SIZE - 1),
            r ==> final(self)@ == old(self)@.push(msg),
            !r ==> final(self)@ == old(self)@,
    {
        let head = self.head;
        let tail = self.tail;
        let next = (head + 1) % (RING_SIZE as u32);
        if next == tail {
            return false;
        }
        let ghost q0 = self@;
        self.buf.set(head as usize, msg);
        self.head = next;
        proof {
            assert(self@ =~= q0.push(msg)) by {
                assert forall|k: int| 0 <= k < self@.len() implies #[trigger] self@[k] == q0.push(msg)[k] by {
                    if k < q0.len() {
                        assert((tail + k) % (RING_SIZE as int) != head as int);
                    }
                }
            }
        }
        true
    }

    /// Removes and returns the oldest message; `None` when the ring is empty.
    pub fn pop(&mut self) -> (r: Option<Message>)
        requires
            old(self).wf(),
        ensures
            final(self).wf(),
            old(self)@.len() == 0 ==> r is None && final(self)@ == old(self)@,
            old(self)@.len() > 0 ==> r == Some(old(self)@[0]) && final(self)@ == old(self)@.drop_first(),
    {
        let tail = self.tail;
        let head = self.head;
        if tail == head {
            return None;
        }
        let msg = self.buf[tail as usize];
        let nt = (tail + 1) % (RING_SIZE as u32);
        assert(nt == (tail + 1) % 64);
        assert(tail < 63 ==> (tail + 1) % 64 == tail + 1);
        assert(tail < 63 ==> nt == tail + 1);
        assert(tail == 63 ==> nt == 0);
        self.tail = nt;
        let ghost q0 = old(self)@;
        assert(self@ =~= q0.drop_first()) by {
            if tail < 63 {
                assert(self.tail == tail + 1);
            } else {
                assert(self.tail == 0);
            }
            assert(self@.len() == q0.len() - 1);
            assert forall|k: int| 0 <= k < self@.len() implies #[trigger] self@[k] == q0.drop_first()[k] by {
                if tail < 63 {
                    assert((self.tail + k) % (RING_SIZE as int) == (tail + (k + 1)) % (RING_SIZE as int));
                } else {
                    assert((self.tail + k) % (RING_SIZE as int) == (tail + (k + 1)) % (RING_SIZE as int));
                }
            }
        }
        Some(msg)
    }

    pub fn is_empty(&self) -> (r: bool)
        requires
            self.wf(),
        ensures
            r == (self@.len() == 0),
    {
        self.tail == self.head
    }

    pub fn len(&self) -> (r: usize)
        requires
            self.wf(),
        ensures
            r == self@.len(),
    {
        let head = self.head as usize;
        let tail = self.tail as usize;
        (head + RING_SIZE - tail) % RING_SIZE
    }
}

/// Pushing onto a ring that has room and then popping gives the oldest
/// message, and the queue keeps the new message at its end.
pub proof fn lemma_ring_fifo(q: Seq<Message>, m: Message)
    requires
        q.len() < RING_SIZE - 1,
    ensures
        q.push(m)[0] == (if q.len() == 0 { m } else { q[0] }),
        q.push(m).drop_first() == (if q.len() == 0 { q } else { q.drop_first().push(m) }),
{
    assert(q.push(m).drop_first() =~= (if q.len() == 0 { q } else { q.drop_first().push(m) }));
}

pub struct Channel {
    active: bool,
    ring: RingBuffer,
    owner: u32,
}

/// The abstract state of one channel.
pub struct ChannelView {
    pub active: bool,
    pub owner: u32,
    pub queue: Seq<Message>,
}

impl View for Channel {
    type V = ChannelView;

    closed spec fn view(&self) -> ChannelView {
        ChannelView { active: self.active, owner: self.owner, queue: self.ring@ }
    }
}

impl Channel {
    pub closed spec fn wf(&self) -> bool {
        self.ring.wf()
    }

    /// An inactive channel with an empty ring.
    pub fn new() -> (r: Self)
        ensures
            r.wf(),
            r@ == (ChannelView { active: false, owner: 0, queue: Seq::empty() }),
    {
        Channel { active: false, ring: RingBuffer::new(), owner: 0 }
    }
}

/// The abstract state of the channel table.
pub struct ChannelTableView {
    pub channels: Seq<ChannelView>,
    pub next: nat,
}

/// The kernel's table of channels; identifiers are handed out in order and
/// never reused.
pub struct ChannelTable {
    channels: Vec<Channel>,
    next: u32,
}

impl View for ChannelTable {
    type V = ChannelTableView;

    closed spec fn view(&self) -> ChannelTableView {
        ChannelTableView {
            channels: self.channels@.map_values(|c: Channel| c@),
            next: self.next as nat,
        }
    }
}

impl ChannelTable {
    pub closed spec fn wf(&self) -> bool {
        &&& self.channels.len() == MAX_CHANNELS
        &&& self.next <= MAX_CHANNELS
        &&& forall|i: int| 0 <= i < MAX_CHANNELS ==> (#[trigger] self.channels@[i]).wf()
    }

    pub proof fn lemma_wf(&self)
        requires
            self.wf(),
        ensures
            self@.channels.len() == MAX_CHANNELS,
            self@.next <= MAX_CHANNELS,
            forall|i: int| 0 <= i < MAX_CHANNELS ==> (#[trigger] self@.channels[i]).queue.len() < RING_SIZE,
    {
        assert forall|i: int| 0 <= i < MAX_CHANNELS implies (#[trigger] self@.channels[i]).queue.len() < RING_SIZE by {
            self.channels@[i].ring.lemma_len();
        }
    }

    /// A table of inactive channels.
    pub fn new() -> (r: Self)
        ensures
            r.wf(),
            r@.next == 0,
            r@.channels.len() == MAX_CHANNELS,
            forall|i: int| 0 <= i < MAX_CHANNELS ==> #[trigger] r@.channels[i] == (ChannelView {
                active: false,
                owner: 0,
                queue: Seq::empty(),
            }),
    {
        let mut channels: Vec<Channel> = Vec::new();
        let mut i: usize = 0;
        while i < MAX_CHANNELS
            invariant
                i <= MAX_CHANNELS,
                channels.len() == i,
                forall|k: int| 0 <= k < i ==> (#[trigger] channels@[k]).wf() && channels@[k]@ == (ChannelView {
                    active: false,
                    owner: 0,
                    queue: Seq::empty(),
                }),
            decreases MAX_CHANNELS - i,
        {
            channels.push(Channel::new());
            i += 1;
        }
        ChannelTable { channels, next: 0 }
    }

    /// Activates the next unused channel for `owner` and returns its id;
    /// `None` once all MAX_CHANNELS ids are taken.
    pub fn create_channel(&mut self, owner: u32) -> (r: Option<u32>)
        requires
            old(self).wf(),
        ensures
            final(self).wf(),
            old(self)@.next >= MAX_CHANNELS ==> r is None && final(self)@ == old(self)@,
            old(self)@.next < MAX_CHANNELS ==> {
                &&& r == Some(old(self)@.next as u32)
                &&& final(self)@.next == old(self)@.next + 1
                &&& final(self)@.channels == old(self)@.channels.update(
                    old(self)@.next as int,
                    ChannelView { active: true, owner, ..old(self)@.channels[old(self)@.next as int] },
                )
            },
    {
        let id = self.next;
        if id as usize >= MAX_CHANNELS {
            return None;
        }
        let mut ch = self.channels.remove(id as usize);
        ch.active = true;
        ch.owner = owner;
        self.channels.insert(id as usize, ch);
        self.next = id + 1;
        proof {
            assert(self@.channels =~= old(self)@.channels.update(
                id as int,
                ChannelView { active: true, owner, ..old(self)@.channels[id as int] },
            ));
            assert forall|i: int| 0 <= i < MAX_CHANNELS implies (#[trigger] self.channels@[i]).wf() by {
                if i != id {
                    assert(self.channels@[i] == old(self).channels@[i]);
                }
            }
        }
        Some(id)
    }

    /// Queues `msg` on an active channel; `false` for an unknown or inactive
    /// channel or a full ring.
    pub fn send(&mut self, channel_id: u32, msg: Message) -> (r: bool)
        requires
            old(self).wf(),
        ensures
            final(self).wf(),
            final(self)@.next == old(self)@.next,
            r == (channel_id < MAX_CHANNELS && old(self)@.channels[channel_id as int].active
                && old(self)@.channels[channel_id as int].queue.len() < RING_SIZE - 1),
            r ==> final(self)@.channels == old(self)@.channels.update(
                channel_id as int,
                ChannelView {
                    queue: old(self)@.channels[channel_id as int].queue.push(msg),
                    ..old(self)@.channels[channel_id as int]
                },
            ),
            !r ==> final(self)@ == old(self)@,
    {
        let idx = channel_id as usize;
        if idx >= MAX_CHANNELS {
            return false;
        }
        if !self.channels[idx].active {
            return false;
        }
        let ghost ec = self.channels@;
        let mut ch = self.channels.remove(idx);
        let ok = ch.ring.push(msg);
        self.channels.insert(idx, ch);
        proof {
            assert forall|i: int| 0 <= i < MAX_CHANNELS implies (#[trigger] self.channels@[i]).wf() by {
                if i != idx {
                    assert(self.channels@[i] == ec[i]);
                }
            }
            if ok {
                assert(self@.channels =~= old(self)@.channels.update(
                    channel_id as int,
                    ChannelView {
                        queue: old(self)@.channels[channel_id as int].queue.push(msg),
                        ..old(self)@.channels[channel_id as int]
                    },
                ));
            } else {
                assert(self@.channels =~= old(self)@.channels);
            }
        }
        ok
    }

    /// Takes the oldest message of an active channel; `None` for an unknown
    /// or inactive channel or an empty ring.
    pub fn recv(&mut self, channel_id: u32) -> (r: Option<Message>)
        requires
            old(self).wf(),
        ensures
            final(self).wf(),
            final(self)@.next == old(self)@.next,
            (channel_id < MAX_CHANNELS && old(self)@.channels[channel_id as int].active
                && old(self)@.channels[channel_id as int].queue.len() > 0) ==> {
                &&& r == Some(old(self)@.channels[channel_id as int].queue[0])
                &&& final(self)@.channels == old(self)@.channels.update(
                    channel_id as int,
                    ChannelView {
                        queue: old(self)@.channels[channel_id as int].queue.drop_first(),
                        ..old(self)@.channels[channel_id as int]
                    },
                )
            },
            !(channel_id < MAX_CHANNELS && old(self)@.channels[channel_id as int].active
                && old(self)@.channels[channel_id as int].queue.len() > 0) ==> r is None
                && final(self)@ == old(self)@,
    {
        let idx = channel_id as usize;
        if idx >= MAX_CHANNELS {
            return None;
        }
        if !self.channels[idx].active {
            return None;
        }
        let ghost ec = self.channels@;
        let mut ch = self.channels.remove(idx);
        let r = ch.ring.pop();
        self.channels.insert(idx, ch);
        proof {
            assert forall|i: int| 0 <= i < MAX_CHANNELS implies (#[trigger] self.channels@[i]).wf() by {
                if i != idx {
                    assert(self.channels@[i] == ec[i]);
                }
            }
            if r is Some {
                assert(self@.channels =~= old(self)@.channels.update(
                    channel_id as int,
                    ChannelView {
                        queue: old(self)@.channels[channel_id as int].queue.drop_first(),
                        ..old(self)@.channels[channel_id as int]
                    },
                ));
            } else {
                assert(self@.channels =~= old(self)@.channels);
            }
        }
        r
    }

    /// Whether a message waits on the channel (active or not).
    pub fn peek(&self, channel_id: u32) -> (r: bool)
        requires
            self.wf(),
        ensures
            r == (channel_id < MAX_CHANNELS && self@.channels[channel_id as int].queue.len() > 0),
    {
        let idx = channel_id as usize;
        if idx >= MAX_CHANNELS {
            return false;
        }
        !self.channels[idx].ring.is_empty()
    }

    /// Number of messages waiting on the channel (active or not); 0 for an
    /// unknown channel.
    pub fn pending(&self, channel_id: u32) -> (r: usize)
        requires
            self.wf(),
        ensures
            r == (if channel_id < MAX_CHANNELS { self@.channels[channel_id as int].queue.len() } else { 0 }),
    {
        let idx = channel_id as usize;
        if idx >= MAX_CHANNELS {
            return 0;
        }
        self.channels[idx].ring.len()
    }

    /// Deactivates the channel; its queued messages stay.
    pub fn destroy_channel(&mut self, channel_id: u32)
        requires
            old(self).wf(),
        ensures
            final(self).wf(),
            final(self)@.next == old(self)@.next,
            channel_id >= MAX_CHANNELS ==> final(self)@ == old(self)@,
            channel_id < MAX_CHANNELS ==> final(self)@.channels == old(self)@.channels.update(
                channel_id as int,
                ChannelView { active: false, ..old(self)@.channels[channel_id as int] },
            ),
    {
        let idx = channel_id as usize;
        if idx >= MAX_CHANNELS {
            return;
        }
        let ghost ec = self.channels@;
        let mut ch = self.channels.remove(idx);
        ch.active = false;
        self.channels.insert(idx, ch);
        proof {
            assert forall|i: int| 0 <= i < MAX_CHANNELS implies (#[trigger] self.channels@[i]).wf() by {
                if i != idx {
                    assert(self.channels@[i] == ec[i]);
                }
            }
            assert(self@.channels =~= old(self)@.channels.update(
                channel_id as int,
                ChannelView { active: false, ..old(self)@.channels[channel_id as int] },
            ));
        }
    }
}

} // verus!
