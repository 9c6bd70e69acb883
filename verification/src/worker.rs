//! The worker role's decision logic.
//!
//! A worker parses the completion ring's receive framing, validates inbound
//! pixel writes against its cooldown bitset, enqueues accepted writes to the
//! master, and fans broadcast payloads (full snapshots or diffs) out to its
//! connections. The I/O itself stays outside the library; these functions
//! take the received bytes and clock readings as plain values.

use vstd::prelude::*;
use vstd::pervasive::VecAdditionalExecFns;
use crate::canvas::BufferPool;
use crate::cooldown::CooldownArray;
use crate::master::PixelWrite;
use crate::settings::{
    CANVAS_BUFFER_POOL_SIZE, CANVAS_SIZE, CONN_TIMEOUT_THROTTLE_MS, FULL_BROADCAST_INTERVAL,
    MAX_CONNECTIONS_PER_WORKER, MSG_CONTROL_LEN, PKT_BUF_SIZE, SPSC_CAPACITY, TX_CAPACITY,
};
use crate::spsc::SpscRingBuffer;
use crate::timing_wheel::{wheel_step, TimingWheel};
use crate::transport::PixelDatagram;
use crate::wire::{be16_val, be32_val, diff_bytes, le32_val, le64_val};

verus! {

/// Offset of the peer address inside a receive-framing buffer (after the
/// 16-byte completion summary).
pub const FRAME_NAME_POS: usize = 16;

/// Capacity reserved for the peer address (an IPv4 socket address).
pub const FRAME_NAME_CAP: usize = 16;

/// Offset of the ancillary (cmsg) region.
pub const FRAME_CONTROL_POS: usize = 32;

/// Offset of the datagram payload: summary, address and ancillary regions.
pub const FRAME_PAYLOAD_POS: usize = 96;

/// Ancillary level value for IPv4-level control messages.
pub const CMSG_LEVEL_IP: u32 = 0;

/// Ancillary type value for packet-info control messages.
pub const CMSG_TYPE_PKTINFO: u32 = 8;

/// One parsed receive frame: addresses as plain values and the payload's
/// position within the framing buffer.
#[derive(Clone, Copy, PartialEq, Eq, Structural, Debug)]
pub struct RecvMsgFrame {
    pub peer_ip: u32,
    pub peer_port: u16,
    pub local_ip: u32,
    pub local_port: u16,
    pub payload_pos: usize,
    pub payload_len: usize,
}

/// The peer-address byte count recorded in the framing summary.
pub open spec fn frame_namelen(b: Seq<u8>) -> u32 {
    le32_val(b[0], b[1], b[2], b[3])
}

/// The ancillary byte count recorded in the framing summary.
pub open spec fn frame_controllen(b: Seq<u8>) -> u32 {
    le32_val(b[4], b[5], b[6], b[7])
}

/// The payload byte count recorded in the framing summary.
pub open spec fn frame_payloadlen(b: Seq<u8>) -> u32 {
    le32_val(b[8], b[9], b[10], b[11])
}

/// The peer IPv4 address: read big-endian from the recorded socket address
/// when one full IPv4 address is present, else the loopback placeholder.
pub open spec fn frame_peer_ip(b: Seq<u8>) -> u32 {
    if frame_namelen(b) == 16 {
        be32_val(b[20], b[21], b[22], b[23])
    } else {
        0x7F000001
    }
}

/// The peer port, big-endian from the recorded socket address.
pub open spec fn frame_peer_port(b: Seq<u8>) -> u16 {
    if frame_namelen(b) == 16 {
        be16_val(b[18], b[19])
    } else {
        0
    }
}

/// The local IPv4 address carried by a packet-info control message in
/// `b[pos..end]`, or zero (unspecified) when none is found. Mirrors a cmsg
/// walk: each header holds its length (8 bytes), level and type (4 bytes
/// each); entries advance by their length rounded up to 8.
pub open spec fn cmsg_local_ip(b: Seq<u8>, pos: int, end: int) -> u32
    decreases end - pos,
    via cmsg_local_ip_decreases
{
    if pos + 16 > end {
        0
    } else {
        let level = le32_val(b[pos + 8], b[pos + 9], b[pos + 10], b[pos + 11]);
        let ty = le32_val(b[pos + 12], b[pos + 13], b[pos + 14], b[pos + 15]);
        if level == CMSG_LEVEL_IP && ty == CMSG_TYPE_PKTINFO {
            be32_val(b[pos + 24], b[pos + 25], b[pos + 26], b[pos + 27])
        } else {
            let clen = le64_val(
                b[pos],
                b[pos + 1],
                b[pos + 2],
                b[pos + 3],
                b[pos + 4],
                b[pos + 5],
                b[pos + 6],
                b[pos + 7],
            );
            let adv = clen.wrapping_add(7) & !7u64;
            if adv == 0 || pos + adv > end {
                0
            } else {
                cmsg_local_ip(b, pos + adv, end)
            }
        }
    }
}

#[via_fn]
proof fn cmsg_local_ip_decreases(b: Seq<u8>, pos: int, end: int) {
    if pos + 16 <= end {
        let clen = le64_val(
            b[pos],
            b[pos + 1],
            b[pos + 2],
            b[pos + 3],
            b[pos + 4],
            b[pos + 5],
            b[pos + 6],
            b[pos + 7],
        );
        let adv = clen.wrapping_add(7) & !7u64;
        assert(adv >= 0);
    }
}

/// The local IPv4 address of a frame: the ancillary region is scanned only
/// when its recorded length is positive and within the configured capacity.
pub open spec fn frame_local_ip(b: Seq<u8>) -> u32 {
    let controllen = frame_controllen(b) as int;
    if 0 < controllen <= MSG_CONTROL_LEN {
        cmsg_local_ip(b, FRAME_CONTROL_POS as int, FRAME_CONTROL_POS + controllen)
    } else {
        0
    }
}

/// Full parse of one receive-framing buffer: the frame's addresses and its
/// payload bounds, or nothing when the recorded payload overruns the buffer.
pub open spec fn parse_frame(b: Seq<u8>, local_port: u16) -> Option<RecvMsgFrame> {
    if FRAME_PAYLOAD_POS + frame_payloadlen(b) <= b.len() {
        Some(
            RecvMsgFrame {
                peer_ip: frame_peer_ip(b),
                peer_port: frame_peer_port(b),
                local_ip: frame_local_ip(b),
                local_port,
                payload_pos: FRAME_PAYLOAD_POS,
                payload_len: frame_payloadlen(b) as usize,
            },
        )
    } else {
        None
    }
}

/// Parser for the completion ring's receive framing, bound to the worker's
/// listening port.
pub struct Framing {
    local_port: u16,
}

impl Framing {
    /// The port every parsed frame reports as its local port.
    pub closed spec fn port(self) -> u16 {
        self.local_port
    }

    pub fn new(local_port: u16) -> (r: Self)
        ensures
            r.port() == local_port,
    {
        Framing { local_port }
    }

    /// Parses one provided buffer as returned by a multishot receive:
    /// the framing summary, the peer socket address, the packet-info
    /// control message, and the payload bounds.
    pub fn parse(&self, buf: &[u8]) -> (r: Option<RecvMsgFrame>)
        requires
            buf@.len() == PKT_BUF_SIZE,
        ensures
            r == parse_frame(buf@, self.port()),
    {
        let namelen = (buf[0] as u32) | ((buf[1] as u32) << 8) | ((buf[2] as u32) << 16) | ((
        buf[3] as u32) << 24);
        let controllen = (buf[4] as u32) | ((buf[5] as u32) << 8) | ((buf[6] as u32) << 16) | ((
        buf[7] as u32) << 24);
        let payloadlen = (buf[8] as u32) | ((buf[9] as u32) << 8) | ((buf[10] as u32) << 16) | ((
        buf[11] as u32) << 24);

        if (FRAME_PAYLOAD_POS as u64) + (payloadlen as u64) > PKT_BUF_SIZE as u64 {
            return None;
        }

        let (peer_ip, peer_port) = if namelen == 16 {
            let port = be16_read(buf, FRAME_NAME_POS + 2);
            let ip = be32_read(buf, FRAME_NAME_POS + 4);
            (ip, port)
        } else {
            (0x7F000001u32, 0u16)
        };

        let mut local_ip: u32 = 0;
        if controllen > 0 && controllen <= MSG_CONTROL_LEN as u32 {
            let end = FRAME_CONTROL_POS + controllen as usize;
            let mut pos: usize = FRAME_CONTROL_POS;
            while pos + 16 <= end
                invariant_except_break
                    FRAME_CONTROL_POS <= pos <= end,
                    end == FRAME_CONTROL_POS + controllen as int,
                    0 < controllen <= MSG_CONTROL_LEN,
                    buf@.len() == PKT_BUF_SIZE,
                    local_ip == 0,
                    cmsg_local_ip(buf@, FRAME_CONTROL_POS as int, end as int) == cmsg_local_ip(
                        buf@,
                        pos as int,
                        end as int,
                    ),
                ensures
                    local_ip == cmsg_local_ip(buf@, FRAME_CONTROL_POS as int, end as int),
                decreases end - pos,
            {
                let level = (buf[pos + 8] as u32) | ((buf[pos + 9] as u32) << 8) | ((buf[pos
                    + 10] as u32) << 16) | ((buf[pos + 11] as u32) << 24);
                let ty = (buf[pos + 12] as u32) | ((buf[pos + 13] as u32) << 8) | ((buf[pos
                    + 14] as u32) << 16) | ((buf[pos + 15] as u32) << 24);
                if level == CMSG_LEVEL_IP && ty == CMSG_TYPE_PKTINFO {
                    local_ip = be32_read(buf, pos + 24);
                    break ;
                }
                let clen = (buf[pos] as u64) | ((buf[pos + 1] as u64) << 8) | ((buf[pos
                    + 2] as u64) << 16) | ((buf[pos + 3] as u64) << 24) | ((buf[pos + 4] as u64)
                    << 32) | ((buf[pos + 5] as u64) << 40) | ((buf[pos + 6] as u64) << 48) | ((
                buf[pos + 7] as u64) << 56);
                let adv = clen.wrapping_add(7) & !7u64;
                if adv == 0 {
                    break ;
                }
                if adv > (end - pos) as u64 {
                    break ;
                }
                pos = pos + (adv as usize);
            }
        }

        Some(
            RecvMsgFrame {
                peer_ip,
                peer_port,
                local_ip,
                local_port: self.local_port,
                payload_pos: FRAME_PAYLOAD_POS,
                payload_len: payloadlen as usize,
            },
        )
    }
}

/// Reads a big-endian 16-bit value at `pos`.
fn be16_read(buf: &[u8], pos: usize) -> (r: u16)
    requires
        pos + 2 <= buf@.len(),
    ensures
        r == be16_val(buf@[pos as int], buf@[pos + 1]),
{
    ((buf[pos] as u16) << 8) | (buf[pos + 1] as u16)
}

/// Reads a big-endian 32-bit value at `pos`.
fn be32_read(buf: &[u8], pos: usize) -> (r: u32)
    requires
        pos + 4 <= buf@.len(),
    ensures
        r == be32_val(buf@[pos as int], buf@[pos + 1], buf@[pos + 2], buf@[pos + 3]),
{
    ((buf[pos] as u32) << 24) | ((buf[pos + 1] as u32) << 16) | ((buf[pos + 2] as u32) << 8) | (
    buf[pos + 3] as u32)
}

/// Whether a broadcast tick calls for a full snapshot rather than a diff:
/// the very first broadcast, then every `FULL_BROADCAST_INTERVAL`-th.
pub open spec fn full_due(t: u32) -> bool {
    t == 1 || t % FULL_BROADCAST_INTERVAL == 0
}

/// What a worker sends for one observed publication.
#[derive(Debug)]
pub enum BroadcastPayload {
    /// The active index has not moved: nothing to send.
    Quiet,
    /// The full compressed snapshot of the active slot.
    Full(Vec<u8>),
    /// The diff stream against the previously sent canvas.
    Diff(Vec<u8>),
}

/// Per-worker broadcast bookkeeping: the last observed active index, the
/// broadcast tick counter, and the canvas as last sent to this worker's
/// clients.
pub struct BroadcastState {
    last_broadcast_index: usize,
    broadcast_ticks: u32,
    last_sent: Vec<u8>,
}

impl BroadcastState {
    pub closed spec fn wf(self) -> bool {
        &&& self.last_sent@.len() == CANVAS_SIZE
        &&& self.last_broadcast_index < CANVAS_BUFFER_POOL_SIZE
    }

    /// The pool index of the last observed publication.
    pub closed spec fn last_index(self) -> int {
        self.last_broadcast_index as int
    }

    /// How many publications this worker has observed.
    pub closed spec fn ticks(self) -> u32 {
        self.broadcast_ticks
    }

    /// The canvas as this worker's clients last received it.
    pub closed spec fn last_sent_view(self) -> Seq<u8> {
        self.last_sent@
    }

    pub fn new(initial_index: usize) -> (r: Self)
        requires
            initial_index < CANVAS_BUFFER_POOL_SIZE,
        ensures
            r.wf(),
            r.last_index() == initial_index,
            r.ticks() == 0,
            r.last_sent_view() == Seq::new(CANVAS_SIZE as nat, |i: int| 0u8),
    {
        let last_sent = vec![0u8; CANVAS_SIZE];
        proof {
            assert(last_sent@ =~= Seq::new(CANVAS_SIZE as nat, |i: int| 0u8));
        }
        BroadcastState { last_broadcast_index: initial_index, broadcast_ticks: 0, last_sent }
    }

    /// One broadcast step: if the pool's active index moved since the last
    /// look, count the publication and produce either the full compressed
    /// snapshot (on the first broadcast and every `FULL_BROADCAST_INTERVAL`th)
    /// or the diff stream against the canvas as last sent; either way the
    /// last-sent copy is synchronised to the new snapshot.
    pub fn observe(&mut self, pool: &BufferPool) -> (r: BroadcastPayload)
        requires
            old(self).wf(),
            pool.wf(),
        ensures
            final(self).wf(),
            pool.active() == old(self).last_index() ==> r is Quiet && *final(self) == *old(self),
            pool.active() != old(self).last_index() ==> {
                let t = old(self).ticks().wrapping_add(1);
                &&& final(self).ticks() == t
                &&& final(self).last_index() == pool.active()
                &&& final(self).last_sent_view() == pool.raw_at(pool.active())
                &&& full_due(t) ==> (r matches BroadcastPayload::Full(p) && p@ == pool.payload_at(
                    pool.active(),
                ))
                &&& !full_due(t) ==> (r matches BroadcastPayload::Diff(d) && d@ == diff_bytes(
                    old(self).last_sent_view(),
                    pool.raw_at(pool.active()),
                    0,
                ))
            },
    {
        let active = pool.active_slot();
        if active == self.last_broadcast_index {
            return BroadcastPayload::Quiet;
        }
        self.last_broadcast_index = active;
        self.broadcast_ticks = self.broadcast_ticks.wrapping_add(1);
        let t = self.broadcast_ticks;
        let raw = pool.raw_slice(active);
        if t == 1 || t % FULL_BROADCAST_INTERVAL == 0 {
            let payload = pool.payload_of(active);
            let mut i: usize = 0;
            while i < CANVAS_SIZE
                invariant
                    i <= CANVAS_SIZE,
                    raw@.len() == CANVAS_SIZE,
                    self.last_sent@.len() == CANVAS_SIZE,
                    self.last_broadcast_index == active,
                    active < CANVAS_BUFFER_POOL_SIZE,
                    self.broadcast_ticks == t,
                    forall|j: int| 0 <= j < i ==> self.last_sent@[j] == raw@[j],
                decreases CANVAS_SIZE - i,
            {
                self.last_sent.set(i, raw[i]);
                i = i + 1;
            }
            proof {
                assert(self.last_sent@ =~= raw@);
            }
            BroadcastPayload::Full(payload)
        } else {
            let d = crate::wire::compute_diff(&mut self.last_sent, raw);
            BroadcastPayload::Diff(d)
        }
    }
}

/// Validates one decoded pixel write against the cooldown policy: a user
/// not on cooldown is marked (bitset and timing wheel) and the write is
/// queued towards the master, dropped silently when the queue is full; a
/// user on cooldown changes nothing.
pub fn admit_pixel(
    cooldown: &mut CooldownArray,
    wheel: &mut TimingWheel,
    queue: &mut SpscRingBuffer<PixelWrite>,
    user_id: u32,
    p: PixelDatagram,
) -> (accepted: bool)
    requires
        old(cooldown).wf(),
        old(wheel).wf(),
        old(queue).wf(),
        (user_id as int) < (MAX_CONNECTIONS_PER_WORKER as int),
    ensures
        final(cooldown).wf(),
        final(wheel).wf(),
        final(queue).wf(),
        accepted == !old(cooldown).marked().contains(user_id),
        !accepted ==> *final(cooldown) == *old(cooldown) && *final(wheel) == *old(wheel)
            && *final(queue) == *old(queue),
        accepted ==> {
            &&& final(cooldown).marked() == old(cooldown).marked().insert(user_id)
            &&& final(wheel).current() == old(wheel).current()
            &&& final(wheel).slots() == old(wheel).slots().update(
                old(wheel).current(),
                old(wheel).slots()[old(wheel).current()].insert(user_id),
            )
            &&& final(queue).pushed_log() == if old(queue).contents().len() < SPSC_CAPACITY {
                old(queue).pushed_log().push(PixelWrite { x: p.x, y: p.y, color: p.color })
            } else {
                old(queue).pushed_log()
            }
            &&& final(queue).popped_log() == old(queue).popped_log()
        },
{
    if cooldown.is_on_cooldown(user_id) {
        return false;
    }
    cooldown.set_cooldown(user_id);
    wheel.add_cooldown(user_id);
    let write = PixelWrite { x: p.x, y: p.y, color: p.color };
    let _ = queue.push(write);
    true
}

/// Validates the pixel writes decoded from one packet, in order, for one
/// user. Since the first accepted write puts the user on cooldown, at most
/// one write of a packet is accepted. Returns how many were accepted.
pub fn admit_datagrams(
    cooldown: &mut CooldownArray,
    wheel: &mut TimingWheel,
    queue: &mut SpscRingBuffer<PixelWrite>,
    user_id: u32,
    pixels: &Vec<PixelDatagram>,
) -> (n: usize)
    requires
        old(cooldown).wf(),
        old(wheel).wf(),
        old(queue).wf(),
        (user_id as int) < (MAX_CONNECTIONS_PER_WORKER as int),
    ensures
        final(cooldown).wf(),
        final(wheel).wf(),
        final(queue).wf(),
        n == if !old(cooldown).marked().contains(user_id) && pixels@.len() > 0 {
            1int
        } else {
            0int
        },
        n == 0 ==> *final(cooldown) == *old(cooldown) && *final(wheel) == *old(wheel)
            && *final(queue) == *old(queue),
        n == 1 ==> {
            &&& final(cooldown).marked() == old(cooldown).marked().insert(user_id)
            &&& final(wheel).current() == old(wheel).current()
            &&& final(wheel).slots() == old(wheel).slots().update(
                old(wheel).current(),
                old(wheel).slots()[old(wheel).current()].insert(user_id),
            )
            &&& final(queue).pushed_log() == if old(queue).contents().len() < SPSC_CAPACITY {
                old(queue).pushed_log().push(
                    PixelWrite { x: pixels@[0].x, y: pixels@[0].y, color: pixels@[0].color },
                )
            } else {
                old(queue).pushed_log()
            }
            &&& final(queue).popped_log() == old(queue).popped_log()
        },
{
    let mut n: usize = 0;
    let mut i: usize = 0;
    while i < pixels.len()
        invariant
            old(cooldown).wf(),
            cooldown.wf(),
            wheel.wf(),
            queue.wf(),
            i <= pixels@.len(),
            (user_id as int) < (MAX_CONNECTIONS_PER_WORKER as int),
            n == if !old(cooldown).marked().contains(user_id) && i > 0 {
                1int
            } else {
                0int
            },
            n == 0 ==> *cooldown == *old(cooldown) && *wheel == *old(wheel) && *queue
                == *old(queue),
            n == 1 ==> {
                &&& cooldown.marked() == old(cooldown).marked().insert(user_id)
                &&& wheel.current() == old(wheel).current()
                &&& wheel.slots() == old(wheel).slots().update(
                    old(wheel).current(),
                    old(wheel).slots()[old(wheel).current()].insert(user_id),
                )
                &&& queue.pushed_log() == if old(queue).contents().len() < SPSC_CAPACITY {
                    old(queue).pushed_log().push(
                        PixelWrite { x: pixels@[0].x, y: pixels@[0].y, color: pixels@[0].color },
                    )
                } else {
                    old(queue).pushed_log()
                }
                &&& queue.popped_log() == old(queue).popped_log()
            },
        decreases pixels@.len() - i,
    {
        let accepted = admit_pixel(cooldown, wheel, queue, user_id, pixels[i]);
        if accepted {
            n = n + 1;
        }
        proof {
            if i > 0 && accepted {
                assert(old(cooldown).marked().contains(user_id)
                    || cooldown.marked().contains(user_id));
            }
        }
        i = i + 1;
    }
    n
}

/// Free-list of the worker's pre-allocated outgoing send slots. An index is
/// either on the free list or in flight, never both, so no two in-flight
/// sends ever share a slot; a completion returns its slot for reuse.
pub struct TxSlotPool {
    free: Vec<usize>,
}

impl TxSlotPool {
    /// The currently free slot indices.
    pub closed spec fn free_v(self) -> Seq<usize> {
        self.free@
    }

    pub closed spec fn wf(self) -> bool {
        &&& forall|i: int, j: int| 0 <= i < j < self.free@.len() ==> self.free@[i] != self.free@[j]
        &&& forall|i: int| 0 <= i < self.free@.len() ==> self.free@[i] < TX_CAPACITY
    }

    /// A fresh pool: every slot free.
    pub fn new() -> (r: Self)
        ensures
            r.wf(),
            r.free_v().len() == TX_CAPACITY,
            forall|k: int| 0 <= k < TX_CAPACITY ==> r.free_v()[k] == k,
    {
        let mut free: Vec<usize> = Vec::new();
        let mut i: usize = 0;
        while i < TX_CAPACITY
            invariant
                i <= TX_CAPACITY,
                free@.len() == i,
                forall|k: int| 0 <= k < i ==> free@[k] == k,
            decreases TX_CAPACITY - i,
        {
            free.push(i);
            i = i + 1;
        }
        TxSlotPool { free }
    }

    /// Takes a slot for an outgoing send; the taken slot is no longer free,
    /// so no later acquire can hand it out again before its release.
    pub fn acquire(&mut self) -> (r: Option<usize>)
        requires
            old(self).wf(),
        ensures
            final(self).wf(),
            old(self).free_v().len() == 0 ==> r is None && final(self).free_v() == old(
                self,
            ).free_v(),
            old(self).free_v().len() > 0 ==> {
                &&& r == Some(old(self).free_v().last())
                &&& final(self).free_v() == old(self).free_v().drop_last()
                &&& forall|k: int|
                    0 <= k < final(self).free_v().len() ==> final(self).free_v()[k] != old(
                        self,
                    ).free_v().last()
            },
    {
        let r = self.free.pop();
        proof {
            if old(self).free_v().len() > 0 {
                assert(self.free@ =~= old(self).free@.drop_last());
                assert forall|k: int|
                    0 <= k < self.free@.len() implies self.free@[k] != old(
                    self,
                ).free@.last() by {
                    assert(self.free@[k] == old(self).free@[k]);
                }
            }
        }
        r
    }

    /// Returns a completed send's slot to the free list; a slot that is
    /// already free is left alone, so the free list never holds duplicates.
    pub fn release(&mut self, idx: usize) -> (r: bool)
        requires
            old(self).wf(),
            idx < TX_CAPACITY,
        ensures
            final(self).wf(),
            r == !old(self).free_v().contains(idx),
            r ==> final(self).free_v() == old(self).free_v().push(idx),
            !r ==> final(self).free_v() == old(self).free_v(),
    {
        let mut i: usize = 0;
        while i < self.free.len()
            invariant
                i <= self.free@.len(),
                old(self).wf(),
                self.free@ == old(self).free@,
                forall|k: int| 0 <= k < i ==> self.free@[k] != idx,
            decreases self.free@.len() - i,
        {
            if self.free[i] == idx {
                proof {
                    assert(old(self).free_v().contains(idx));
                    assert forall|a: int, b: int|
                        0 <= a < b < self.free@.len() implies self.free@[a] != self.free@[b] by {
                        assert(self.free@[a] == old(self).free@[a]);
                        assert(self.free@[b] == old(self).free@[b]);
                    }
                    assert forall|a: int|
                        0 <= a < self.free@.len() implies self.free@[a] < TX_CAPACITY by {
                        assert(self.free@[a] == old(self).free@[a]);
                    }
                }
                return false;
            }
            i = i + 1;
        }
        proof {
            assert(!old(self).free_v().contains(idx));
        }
        self.free.push(idx);
        true
    }
}

/// The worker's once-a-second decision: when the wall clock has advanced to
/// a new second, run one timing-wheel tick against the master cooldown
/// bitset and remember the second.
pub fn tick_if_second_elapsed(
    wheel: &mut TimingWheel,
    cooldown: &mut CooldownArray,
    now_sec: u64,
    last_tick_sec: &mut u64,
) -> (ticked: bool)
    requires
        old(wheel).wf(),
        old(cooldown).wf(),
    ensures
        final(wheel).wf(),
        final(cooldown).wf(),
        ticked == (now_sec > *old(last_tick_sec)),
        !ticked ==> *final(wheel) == *old(wheel) && *final(cooldown) == *old(cooldown)
            && *final(last_tick_sec) == *old(last_tick_sec),
        ticked ==> {
            &&& *final(last_tick_sec) == now_sec
            &&& ({
                let stepped = wheel_step(
                    old(wheel).slots(),
                    old(wheel).current(),
                    old(cooldown).marked(),
                );
                &&& final(wheel).slots() == stepped.0
                &&& final(wheel).current() == stepped.1
                &&& final(cooldown).marked() == stepped.2
            })
        },
{
    if now_sec > *last_tick_sec {
        wheel.tick(cooldown);
        *last_tick_sec = now_sec;
        true
    } else {
        false
    }
}

/// The connection-maintenance throttle: a sweep is due when at least
/// `CONN_TIMEOUT_THROTTLE_MS` milliseconds have passed since the last one,
/// and running it remembers the time.
pub fn maintenance_due(now_ms: u64, last_maintenance_ms: &mut u64) -> (due: bool)
    requires
        now_ms >= *old(last_maintenance_ms),
    ensures
        due == (now_ms - *old(last_maintenance_ms) >= CONN_TIMEOUT_THROTTLE_MS),
        due ==> *final(last_maintenance_ms) == now_ms,
        !due ==> *final(last_maintenance_ms) == *old(last_maintenance_ms),
{
    if now_ms - *last_maintenance_ms >= CONN_TIMEOUT_THROTTLE_MS {
        *last_maintenance_ms = now_ms;
        true
    } else {
        false
    }
}

} // verus!
