//! Transport bookkeeping: the pixel datagram format and the per-worker
//! connection table.
//!
//! The QUIC state machines themselves live outside the library; the table
//! decides, from a packet's destination connection id and type, whether the
//! datagram routes to an existing connection, opens a new one (allocating a
//! user id from the free list), or is dropped.

use vstd::prelude::*;
use vstd::pervasive::VecAdditionalExecFns;
use rand::Rng;
use crate::settings::{MAX_CONNECTIONS_PER_WORKER, MAX_CONN_ID_LEN, PIXEL_DATAGRAM_SIZE};
use crate::wire::le16_val;

verus! {

/// One decoded client pixel write, exactly as it appears in a 5-byte
/// application datagram.
#[derive(Clone, Copy, PartialEq, Eq, Structural, Debug)]
pub struct PixelDatagram {
    pub x: u16,
    pub y: u16,
    pub color: u8,
}

/// The 5-byte wire form of a pixel datagram:
/// x (u16 little-endian), y (u16 little-endian), colour (u8).
pub open spec fn pixel_datagram_bytes(p: PixelDatagram) -> Seq<u8> {
    seq![
        (p.x & 0xFF) as u8,
        ((p.x >> 8) & 0xFF) as u8,
        (p.y & 0xFF) as u8,
        ((p.y >> 8) & 0xFF) as u8,
        p.color,
    ]
}

/// Parsing a datagram payload: defined exactly on 5-byte payloads; any
/// other length is dropped.
pub open spec fn parse_pixel_bytes(b: Seq<u8>) -> Option<PixelDatagram> {
    if b.len() == PIXEL_DATAGRAM_SIZE {
        Some(PixelDatagram { x: le16_val(b[0], b[1]), y: le16_val(b[2], b[3]), color: b[4] })
    } else {
        None
    }
}

/// Encode/parse round trip: a pixel datagram survives the wire unchanged.
pub proof fn lemma_pixel_datagram_round_trip(p: PixelDatagram)
    ensures
        parse_pixel_bytes(pixel_datagram_bytes(p)) == Some(p),
{
    let x = p.x;
    let y = p.y;
    assert(((x & 0xFF) as u8 as u16) | ((((x >> 8) & 0xFF) as u8 as u16) << 8) == x)
        by (bit_vector);
    assert(((y & 0xFF) as u8 as u16) | ((((y >> 8) & 0xFF) as u8 as u16) << 8) == y)
        by (bit_vector);
}

/// Parses an application datagram payload; exactly 5-byte payloads yield a
/// pixel write, every other length is rejected.
pub fn parse_pixel_datagram(buf: &[u8]) -> (r: Option<PixelDatagram>)
    ensures
        r == parse_pixel_bytes(buf@),
{
    if buf.len() != PIXEL_DATAGRAM_SIZE {
        return None;
    }
    let x = (buf[0] as u16) | ((buf[1] as u16) << 8);
    let y = (buf[2] as u16) | ((buf[3] as u16) << 8);
    Some(PixelDatagram { x, y, color: buf[4] })
}

/// Encodes a pixel write into its 5-byte wire form.
pub fn encode_pixel_datagram(p: &PixelDatagram) -> (r: Vec<u8>)
    ensures
        r@ == pixel_datagram_bytes(*p),
{
    let mut r: Vec<u8> = Vec::new();
    r.push((p.x & 0xFF) as u8);
    r.push(((p.x >> 8) & 0xFF) as u8);
    r.push((p.y & 0xFF) as u8);
    r.push(((p.y >> 8) & 0xFF) as u8);
    r.push(p.color);
    proof {
        assert(r@ =~= pixel_datagram_bytes(*p));
    }
    r
}

/// A QUIC source connection id (server-chosen).
#[derive(Debug, Clone, Hash, Eq, PartialEq)]
pub struct SourceConnectionId(pub Vec<u8>);

/// A QUIC destination connection id (as received on the wire).
#[derive(Debug, Clone, Hash, Eq, PartialEq)]
pub struct DestinationConnectionId(pub Vec<u8>);

/// Byte-wise equality of two byte strings.
pub fn bytes_eq(a: &[u8], b: &[u8]) -> (r: bool)
    ensures
        r == (a@ == b@),
{
    if a.len() != b.len() {
        return false;
    }
    let mut i: usize = 0;
    while i < a.len()
        invariant
            i <= a@.len(),
            a@.len() == b@.len(),
            forall|j: int| 0 <= j < i ==> a@[j] == b@[j],
        decreases a@.len() - i,
    {
        if a[i] != b[i] {
            return false;
        }
        i = i + 1;
    }
    proof {
        assert(a@ =~= b@);
    }
    true
}

/// Copy of a byte string.
fn clone_bytes(v: &Vec<u8>) -> (r: Vec<u8>)
    ensures
        r@ == v@,
{
    let mut r: Vec<u8> = Vec::new();
    let mut i: usize = 0;
    while i < v.len()
        invariant
            i <= v@.len(),
            r@ =~= v@.take(i as int),
        decreases v@.len() - i,
    {
        r.push(v[i]);
        i = i + 1;
    }
    proof {
        assert(r@ =~= v@);
    }
    r
}

/// One installed connection: server-chosen source id, the worker-local user
/// id, and the peer's destination id.
pub struct ConnEntry {
    pub scid: Vec<u8>,
    pub user_id: u32,
    pub dcid: Vec<u8>,
}

/// What the table decides for one incoming packet.
#[derive(Debug)]
pub enum RouteDecision {
    /// The packet belongs to the installed connection with this user id and
    /// source connection id.
    Existing(u32, Vec<u8>),
    /// A new connection was accepted: the allocated user id and the fresh
    /// source connection id now installed for it.
    Accepted(u32, Vec<u8>),
    /// The packet is dropped: unknown non-Initial, worker at capacity, or a
    /// fresh id collision.
    Dropped,
}

/// Per-worker connection table: source-id-keyed connections, the reverse
/// destination-id index, and the free list of user ids.
pub struct ConnectionTable {
    entries: Vec<ConnEntry>,
    cid_map: Vec<(Vec<u8>, Vec<u8>)>,
    free_user_ids: Vec<u32>,
}

impl ConnectionTable {
    pub closed spec fn entries_v(self) -> Seq<ConnEntry> {
        self.entries@
    }

    pub closed spec fn links_v(self) -> Seq<(Vec<u8>, Vec<u8>)> {
        self.cid_map@
    }

    pub closed spec fn free_v(self) -> Seq<u32> {
        self.free_user_ids@
    }

    /// Whether a connection with this source id is installed.
    pub open spec fn has_conn(self, scid: Seq<u8>) -> bool {
        exists|i: int| 0 <= i < self.entries_v().len() && self.entries_v()[i].scid@ == scid
    }

    /// The user id of the installed connection with this source id.
    pub open spec fn user_of(self, scid: Seq<u8>) -> u32 {
        let i = choose|i: int|
            0 <= i < self.entries_v().len() && self.entries_v()[i].scid@ == scid;
        self.entries_v()[i].user_id
    }

    /// The destination id recorded for the installed connection.
    pub open spec fn dcid_of(self, scid: Seq<u8>) -> Seq<u8> {
        let i = choose|i: int|
            0 <= i < self.entries_v().len() && self.entries_v()[i].scid@ == scid;
        self.entries_v()[i].dcid@
    }

    /// Whether the reverse index maps this destination id.
    pub open spec fn has_link(self, dcid: Seq<u8>) -> bool {
        exists|i: int| 0 <= i < self.links_v().len() && self.links_v()[i].0@ == dcid
    }

    /// The source id the reverse index maps this destination id to.
    pub open spec fn link_of(self, dcid: Seq<u8>) -> Seq<u8> {
        let i = choose|i: int| 0 <= i < self.links_v().len() && self.links_v()[i].0@ == dcid;
        self.links_v()[i].1@
    }

    /// The source id a packet with this destination id is routed towards:
    /// through the reverse index when it is linked, else the id itself.
    pub open spec fn routing_target(self, dcid: Seq<u8>) -> Seq<u8> {
        if self.has_link(dcid) {
            self.link_of(dcid)
        } else {
            dcid
        }
    }

    /// No two installed connections share a source id.
    spec fn entries_distinct(self) -> bool {
        forall|i: int, j: int|
            0 <= i < j < self.entries@.len() ==> self.entries@[i].scid@ != self.entries@[j].scid@
    }

    /// No two reverse-index links share a destination id.
    spec fn links_distinct(self) -> bool {
        forall|i: int, j: int|
            0 <= i < j < self.cid_map@.len() ==> self.cid_map@[i].0@ != self.cid_map@[j].0@
    }

    pub closed spec fn wf(self) -> bool {
        &&& self.entries_distinct()
        &&& forall|i: int, j: int|
            0 <= i < j < self.entries@.len() ==> self.entries@[i].user_id
                != self.entries@[j].user_id
        &&& self.links_distinct()
        &&& forall|i: int, j: int|
            0 <= i < j < self.free_user_ids@.len() ==> self.free_user_ids@[i]
                != self.free_user_ids@[j]
        &&& forall|i: int, j: int|
            0 <= i < self.entries@.len() && 0 <= j < self.free_user_ids@.len()
                ==> self.entries@[i].user_id != self.free_user_ids@[j]
        &&& forall|i: int|
            0 <= i < self.entries@.len() ==> (self.entries@[i].user_id as int)
                < (MAX_CONNECTIONS_PER_WORKER as int)
        &&& forall|i: int|
            0 <= i < self.free_user_ids@.len() ==> (self.free_user_ids@[i] as int)
                < (MAX_CONNECTIONS_PER_WORKER as int)
    }

    /// A fresh table: no connections, no links, and every user id free.
    pub fn new() -> (r: Self)
        ensures
            r.wf(),
            r.entries_v().len() == 0,
            r.links_v().len() == 0,
            r.free_v().len() == MAX_CONNECTIONS_PER_WORKER,
            forall|k: int|
                0 <= k < MAX_CONNECTIONS_PER_WORKER ==> r.free_v()[k] == k as u32,
    {
        let mut free_user_ids: Vec<u32> = Vec::new();
        let mut i: usize = 0;
        while i < MAX_CONNECTIONS_PER_WORKER
            invariant
                i <= MAX_CONNECTIONS_PER_WORKER,
                free_user_ids@.len() == i,
                forall|k: int| 0 <= k < i ==> free_user_ids@[k] == k as u32,
            decreases MAX_CONNECTIONS_PER_WORKER - i,
        {
            free_user_ids.push(i as u32);
            i = i + 1;
        }
        ConnectionTable { entries: Vec::new(), cid_map: Vec::new(), free_user_ids }
    }

    /// Number of installed connections.
    pub fn active_connections(&self) -> (r: usize)
        ensures
            r == self.entries_v().len(),
    {
        self.entries.len()
    }

    /// Number of free user ids: how many more connections can be accepted.
    pub fn free_slots(&self) -> (r: usize)
        ensures
            r == self.free_v().len(),
    {
        self.free_user_ids.len()
    }

    fn find_entry(&self, scid: &[u8]) -> (r: Option<usize>)
        ensures
            match r {
                Some(i) => 0 <= i < self.entries_v().len() && self.entries_v()[i as int].scid@
                    == scid@,
                None => !self.has_conn(scid@),
            },
    {
        let mut i: usize = 0;
        while i < self.entries.len()
            invariant
                i <= self.entries_v().len(),
                forall|j: int| 0 <= j < i ==> self.entries_v()[j].scid@ != scid@,
            decreases self.entries_v().len() - i,
        {
            if bytes_eq(self.entries[i].scid.as_slice(), scid) {
                return Some(i);
            }
            i = i + 1;
        }
        None
    }

    fn find_link(&self, dcid: &[u8]) -> (r: Option<usize>)
        ensures
            match r {
                Some(i) => 0 <= i < self.links_v().len() && self.links_v()[i as int].0@ == dcid@,
                None => !self.has_link(dcid@),
            },
    {
        let mut i: usize = 0;
        while i < self.cid_map.len()
            invariant
                i <= self.links_v().len(),
                forall|j: int| 0 <= j < i ==> self.links_v()[j].0@ != dcid@,
            decreases self.links_v().len() - i,
        {
            if bytes_eq(self.cid_map[i].0.as_slice(), dcid) {
                return Some(i);
            }
            i = i + 1;
        }
        None
    }

    /// With distinct source ids, any matching index determines the user id.
    proof fn lemma_entry_unique(self, i: int, scid: Seq<u8>)
        requires
            self.entries_distinct(),
            0 <= i < self.entries_v().len(),
            self.entries_v()[i].scid@ == scid,
        ensures
            self.has_conn(scid),
            self.user_of(scid) == self.entries_v()[i].user_id,
            self.dcid_of(scid) == self.entries_v()[i].dcid@,
    {
        let j = choose|j: int|
            0 <= j < self.entries_v().len() && self.entries_v()[j].scid@ == scid;
        if i != j {
            if i < j {
                assert(self.entries@[i].scid@ != self.entries@[j].scid@);
            } else {
                assert(self.entries@[j].scid@ != self.entries@[i].scid@);
            }
        }
    }

    /// With distinct destination ids, any matching index determines the link.
    proof fn lemma_link_unique(self, i: int, dcid: Seq<u8>)
        requires
            self.links_distinct(),
            0 <= i < self.links_v().len(),
            self.links_v()[i].0@ == dcid,
        ensures
            self.has_link(dcid),
            self.link_of(dcid) == self.links_v()[i].1@,
    {
        let j = choose|j: int| 0 <= j < self.links_v().len() && self.links_v()[j].0@ == dcid;
        if i != j {
            if i < j {
                assert(self.cid_map@[i].0@ != self.cid_map@[j].0@);
            } else {
                assert(self.cid_map@[j].0@ != self.cid_map@[i].0@);
            }
        }
    }

    /// The user id of the installed connection with this source id, if any.
    pub fn lookup_user(&self, scid: &[u8]) -> (r: Option<u32>)
        requires
            self.wf(),
        ensures
            match r {
                Some(u) => self.has_conn(scid@) && u == self.user_of(scid@),
                None => !self.has_conn(scid@),
            },
    {
        match self.find_entry(scid) {
            Some(i) => {
                proof {
                    self.lemma_entry_unique(i as int, scid@);
                }
                Some(self.entries[i].user_id)
            },
            None => None,
        }
    }

    /// Routes one incoming packet by its destination connection id and
    /// packet type, exactly as the ingress path decides it:
    /// a linked or directly-known id routes to its connection; an unknown
    /// non-Initial is dropped; an Initial is accepted with a freshly
    /// installed source id and an allocated user id when a free id exists
    /// (and the fresh id does not collide), and dropped otherwise.
    pub fn route(&mut self, dcid: &Vec<u8>, is_initial: bool, fresh_scid: Vec<u8>) -> (r:
        RouteDecision)
        requires
            old(self).wf(),
        ensures
            final(self).wf(),
            old(self).has_conn(old(self).routing_target(dcid@)) ==> {
                &&& (r matches RouteDecision::Existing(u, s) && u == old(self).user_of(
                    old(self).routing_target(dcid@),
                ) && s@ == old(self).routing_target(dcid@))
                &&& *final(self) == *old(self)
            },
            !old(self).has_conn(old(self).routing_target(dcid@)) && !is_initial ==> r is Dropped
                && *final(self) == *old(self),
            !old(self).has_conn(old(self).routing_target(dcid@)) && is_initial && old(
                self,
            ).free_v().len() == 0 ==> r is Dropped && *final(self) == *old(self),
            !old(self).has_conn(old(self).routing_target(dcid@)) && is_initial && old(
                self,
            ).free_v().len() > 0 ==> {
                ||| (r is Dropped && *final(self) == *old(self))
                ||| {
                    &&& (r matches RouteDecision::Accepted(u, s) && s@ == fresh_scid@ && u == old(
                        self,
                    ).free_v().last())
                    &&& final(self).free_v() == old(self).free_v().drop_last()
                    &&& final(self).has_conn(fresh_scid@)
                    &&& final(self).user_of(fresh_scid@) == old(self).free_v().last()
                    &&& final(self).dcid_of(fresh_scid@) == dcid@
                    &&& forall|s: Seq<u8>|
                        old(self).has_conn(s) ==> final(self).has_conn(s) && final(self).user_of(
                            s,
                        ) == old(self).user_of(s)
                    &&& forall|s: Seq<u8>|
                        s != fresh_scid@ && !old(self).has_conn(s) ==> !final(self).has_conn(s)
                    &&& final(self).has_link(dcid@) && final(self).link_of(dcid@) == fresh_scid@
                    &&& forall|d: Seq<u8>|
                        d != dcid@ ==> (final(self).has_link(d) <==> old(self).has_link(d))
                    &&& forall|d: Seq<u8>|
                        d != dcid@ && old(self).has_link(d) ==> final(self).link_of(d) == old(
                            self,
                        ).link_of(d)
                }
            },
    {
        let link_idx = self.find_link(dcid.as_slice());
        let target: Vec<u8> = match link_idx {
            Some(i) => {
                proof {
                    self.lemma_link_unique(i as int, dcid@);
                }
                clone_bytes(&self.cid_map[i].1)
            },
            None => clone_bytes(dcid),
        };
        proof {
            assert(target@ == self.routing_target(dcid@));
        }

        match self.find_entry(target.as_slice()) {
            Some(i) => {
                proof {
                    self.lemma_entry_unique(i as int, target@);
                }
                RouteDecision::Existing(self.entries[i].user_id, target)
            },
            None => {
                if !is_initial {
                    return RouteDecision::Dropped;
                }
                if self.free_user_ids.len() == 0 {
                    return RouteDecision::Dropped;
                }
                if self.find_entry(fresh_scid.as_slice()).is_some() {
                    return RouteDecision::Dropped;
                }
                let user_id = match self.free_user_ids.pop() {
                    Some(u) => u,
                    None => {
                        return RouteDecision::Dropped;
                    },
                };
                self.entries.push(
                    ConnEntry {
                        scid: clone_bytes(&fresh_scid),
                        user_id,
                        dcid: clone_bytes(dcid),
                    },
                );
                match link_idx {
                    Some(j) => {
                        self.cid_map.set(j, (clone_bytes(dcid), clone_bytes(&fresh_scid)));
                    },
                    None => {
                        self.cid_map.push((clone_bytes(dcid), clone_bytes(&fresh_scid)));
                    },
                }
                proof {
                    let n = self.entries@.len() - 1;
                    let m = self.cid_map@.len() - 1;
                    assert forall|a: int, b: int|
                        0 <= a < b < self.entries@.len() implies self.entries@[a].scid@
                        != self.entries@[b].scid@ by {
                        if b == n {
                            if old(self).entries_v()[a].scid@ == fresh_scid@ {
                                assert(old(self).has_conn(fresh_scid@));
                            }
                        }
                    }
                    match link_idx {
                        Some(j) => {
                            assert(old(self).links_v()[j as int].0@ == dcid@);
                            assert forall|a: int, b: int|
                                0 <= a < b < self.cid_map@.len() implies self.cid_map@[a].0@
                                != self.cid_map@[b].0@ by {
                                if a != j && b != j {
                                    assert(self.cid_map@[a] == old(self).links_v()[a]);
                                    assert(self.cid_map@[b] == old(self).links_v()[b]);
                                } else if a == j {
                                    assert(self.cid_map@[b] == old(self).links_v()[b]);
                                    assert(old(self).links_v()[b].0@ != old(
                                        self,
                                    ).links_v()[j as int].0@);
                                } else {
                                    assert(self.cid_map@[a] == old(self).links_v()[a]);
                                    assert(old(self).links_v()[a].0@ != old(
                                        self,
                                    ).links_v()[j as int].0@);
                                }
                            }
                        },
                        None => {
                            assert forall|a: int, b: int|
                                0 <= a < b < self.cid_map@.len() implies self.cid_map@[a].0@
                                != self.cid_map@[b].0@ by {
                                if b == m {
                                    if old(self).links_v()[a].0@ == dcid@ {
                                        assert(old(self).has_link(dcid@));
                                    }
                                } else {
                                    assert(self.cid_map@[a] == old(self).links_v()[a]);
                                    assert(self.cid_map@[b] == old(self).links_v()[b]);
                                }
                            }
                        },
                    }
                    assert(self.wf());
                    self.lemma_entry_unique(n, fresh_scid@);
                    assert forall|s: Seq<u8>| old(self).has_conn(s) implies self.has_conn(s)
                        && self.user_of(s) == old(self).user_of(s) by {
                        let k = choose|k: int|
                            0 <= k < old(self).entries_v().len() && old(
                                self,
                            ).entries_v()[k].scid@ == s;
                        assert(self.entries_v()[k].scid@ == s);
                        assert(self.has_conn(s));
                        self.lemma_entry_unique(k, s);
                    }
                    assert forall|s: Seq<u8>|
                        s != fresh_scid@ && !old(self).has_conn(s) implies !self.has_conn(s) by {
                        if self.has_conn(s) {
                            let k = choose|k: int|
                                0 <= k < self.entries_v().len() && self.entries_v()[k].scid@ == s;
                            if k < n {
                                assert(old(self).entries_v()[k].scid@ == s);
                                assert(old(self).has_conn(s));
                            }
                        }
                    }
                    match link_idx {
                        Some(j) => {
                            self.lemma_link_unique(j as int, dcid@);
                            assert(old(self).links_v()[j as int].0@ == dcid@);
                            assert(self.links_v()[j as int].0@ == dcid@);
                            assert forall|d: Seq<u8>| d != dcid@ implies (self.has_link(d) <==> old(
                                self,
                            ).has_link(d)) by {
                                if self.has_link(d) {
                                    let k = choose|k: int|
                                        0 <= k < self.links_v().len() && self.links_v()[k].0@ == d;
                                    assert(k != j);
                                    assert(old(self).links_v()[k].0@ == d);
                                    assert(old(self).has_link(d));
                                }
                                if old(self).has_link(d) {
                                    let k = choose|k: int|
                                        0 <= k < old(self).links_v().len() && old(
                                            self,
                                        ).links_v()[k].0@ == d;
                                    assert(k != j);
                                    assert(self.links_v()[k].0@ == d);
                                    assert(self.has_link(d));
                                }
                            }
                            assert forall|d: Seq<u8>|
                                d != dcid@ && old(self).has_link(d) implies self.link_of(d) == old(
                                self,
                            ).link_of(d) by {
                                let k = choose|k: int|
                                    0 <= k < old(self).links_v().len() && old(
                                        self,
                                    ).links_v()[k].0@ == d;
                                assert(k != j);
                                assert(self.links_v()[k] == old(self).links_v()[k]);
                                assert(self.links_v()[k].0@ == d);
                                self.lemma_link_unique(k, d);
                                old(self).lemma_link_unique(k, d);
                            }
                        },
                        None => {
                            self.lemma_link_unique(m, dcid@);
                            assert(self.links_v()[m].0@ == dcid@);
                            assert forall|d: Seq<u8>| d != dcid@ implies (self.has_link(d) <==> old(
                                self,
                            ).has_link(d)) by {
                                if self.has_link(d) {
                                    let k = choose|k: int|
                                        0 <= k < self.links_v().len() && self.links_v()[k].0@ == d;
                                    assert(k != m);
                                    assert(old(self).links_v()[k].0@ == d);
                                    assert(old(self).has_link(d));
                                }
                                if old(self).has_link(d) {
                                    let k = choose|k: int|
                                        0 <= k < old(self).links_v().len() && old(
                                            self,
                                        ).links_v()[k].0@ == d;
                                    assert(self.links_v()[k].0@ == d);
                                    assert(self.has_link(d));
                                }
                            }
                            assert forall|d: Seq<u8>|
                                d != dcid@ && old(self).has_link(d) implies self.link_of(d) == old(
                                self,
                            ).link_of(d) by {
                                let k = choose|k: int|
                                    0 <= k < old(self).links_v().len() && old(
                                        self,
                                    ).links_v()[k].0@ == d;
                                assert(self.links_v()[k] == old(self).links_v()[k]);
                                assert(self.links_v()[k].0@ == d);
                                self.lemma_link_unique(k, d);
                                old(self).lemma_link_unique(k, d);
                            }
                        },
                    }
                }
                RouteDecision::Accepted(user_id, fresh_scid)
            },
        }
    }

    /// Removes the connection with this source id, if installed: its user id
    /// returns to the free list and its destination id leaves the reverse
    /// index. Returns whether a connection was removed.
    pub fn remove_connection(&mut self, scid: &[u8]) -> (r: bool)
        requires
            old(self).wf(),
        ensures
            final(self).wf(),
            r == old(self).has_conn(scid@),
            !old(self).has_conn(scid@) ==> *final(self) == *old(self),
            old(self).has_conn(scid@) ==> {
                &&& !final(self).has_conn(scid@)
                &&& forall|s: Seq<u8>|
                    s != scid@ ==> (final(self).has_conn(s) <==> old(self).has_conn(s))
                &&& forall|s: Seq<u8>|
                    s != scid@ && old(self).has_conn(s) ==> final(self).user_of(s) == old(
                        self,
                    ).user_of(s)
                &&& final(self).free_v() == old(self).free_v().push(old(self).user_of(scid@))
                &&& !final(self).has_link(old(self).dcid_of(scid@))
                &&& forall|d: Seq<u8>|
                    d != old(self).dcid_of(scid@) ==> (final(self).has_link(d) <==> old(
                        self,
                    ).has_link(d))
            },
    {
        let i = match self.find_entry(scid) {
            Some(i) => i,
            None => {
                return false;
            },
        };
        proof {
            self.lemma_entry_unique(i as int, scid@);
        }
        let removed = self.entries.remove(i);
        let user_id = removed.user_id;
        let dcid = removed.dcid;
        self.free_user_ids.push(user_id);
        let ghost d0 = old(self).dcid_of(scid@);
        proof {
            assert(dcid@ == d0);
            assert(self.links_distinct());
        }
        match self.find_link(dcid.as_slice()) {
            Some(j) => {
                proof {
                    self.lemma_link_unique(j as int, dcid@);
                }
                let ghost links_before = self.cid_map@;
                self.cid_map.remove(j);
                proof {
                    links_before.remove_ensures(j as int);
                    assert(self.cid_map@ == links_before.remove(j as int));
                    assert forall|a: int|
                        0 <= a < self.cid_map@.len() implies self.links_v()[a]
                        == links_before[if a < j {
                        a
                    } else {
                        a + 1
                    }] by {
                        if a < j {
                            assert(links_before.remove(j as int)[a] == links_before[a]);
                        } else {
                            assert(links_before.remove(j as int)[a] == links_before[a + 1]);
                        }
                    }
                    assert forall|a: int, b: int|
                        0 <= a < b < self.cid_map@.len() implies self.cid_map@[a].0@
                        != self.cid_map@[b].0@ by {
                        assert(self.links_v()[a] == links_before[if a < j {
                            a
                        } else {
                            a + 1
                        }]);
                        assert(self.links_v()[b] == links_before[if b < j {
                            b
                        } else {
                            b + 1
                        }]);
                    }
                    assert(!self.has_link(d0)) by {
                        if self.has_link(d0) {
                            let k = choose|k: int|
                                0 <= k < self.links_v().len() && self.links_v()[k].0@ == d0;
                            let k0 = if k < j { k } else { k + 1 };
                            assert(self.links_v()[k] == links_before[k0]);
                            assert(k0 != j);
                        }
                    }
                    assert forall|d: Seq<u8>| d != d0 implies (self.has_link(d) <==> old(
                        self,
                    ).has_link(d)) by {
                        if self.has_link(d) {
                            let k = choose|k: int|
                                0 <= k < self.links_v().len() && self.links_v()[k].0@ == d;
                            let k0 = if k < j { k } else { k + 1 };
                            assert(self.links_v()[k] == links_before[k0]);
                            assert(old(self).links_v()[k0].0@ == d);
                            assert(old(self).has_link(d));
                        }
                        if old(self).has_link(d) {
                            let k0 = choose|k0: int|
                                0 <= k0 < old(self).links_v().len() && old(self).links_v()[k0].0@
                                    == d;
                            assert(k0 != j);
                            let k = if k0 < j { k0 } else { k0 - 1 };
                            assert(self.links_v()[k] == links_before[k0]);
                            assert(self.links_v()[k].0@ == d);
                            assert(self.has_link(d));
                        }
                    }
                }
            },
            None => {
                proof {
                    assert(!self.has_link(d0));
                    assert forall|d: Seq<u8>| d != d0 implies (self.has_link(d) <==> old(
                        self,
                    ).has_link(d)) by {
                        if self.has_link(d) {
                            let k = choose|k: int|
                                0 <= k < self.links_v().len() && self.links_v()[k].0@ == d;
                            assert(old(self).links_v()[k].0@ == d);
                            assert(old(self).has_link(d));
                        }
                        if old(self).has_link(d) {
                            let k = choose|k: int|
                                0 <= k < old(self).links_v().len() && old(self).links_v()[k].0@
                                    == d;
                            assert(self.links_v()[k].0@ == d);
                            assert(self.has_link(d));
                        }
                    }
                }
            },
        }
        proof {
            let before = old(self).entries@;
            before.remove_ensures(i as int);
            assert(self.entries@ == before.remove(i as int));
            assert forall|a: int|
                0 <= a < self.entries@.len() implies self.entries_v()[a] == before[if a < i {
                a
            } else {
                a + 1
            }] by {
                if a < i {
                    assert(before.remove(i as int)[a] == before[a]);
                } else {
                    assert(before.remove(i as int)[a] == before[a + 1]);
                }
            }
            assert forall|a: int, b: int|
                0 <= a < b < self.entries@.len() implies self.entries@[a].scid@
                != self.entries@[b].scid@ && self.entries@[a].user_id
                != self.entries@[b].user_id by {
                assert(self.entries_v()[a] == before[if a < i {
                    a
                } else {
                    a + 1
                }]);
                assert(self.entries_v()[b] == before[if b < i {
                    b
                } else {
                    b + 1
                }]);
            }
            assert forall|a: int, b: int|
                0 <= a < self.entries@.len() && 0 <= b < self.free_user_ids@.len() implies
                self.entries@[a].user_id != self.free_user_ids@[b] by {
                let a0 = if a < i { a } else { a + 1 };
                assert(self.entries_v()[a] == before[a0]);
                if b < old(self).free_user_ids@.len() {
                    assert(self.free_user_ids@[b] == old(self).free_user_ids@[b]);
                } else {
                    assert(self.free_user_ids@[b] == user_id);
                    assert(before[a0].user_id != before[i as int].user_id);
                }
            }
            assert forall|a: int, b: int|
                0 <= a < b < self.free_user_ids@.len() implies self.free_user_ids@[a]
                != self.free_user_ids@[b] by {
                if b == old(self).free_user_ids@.len() {
                    assert(self.free_user_ids@[b] == user_id);
                    assert(before[i as int].user_id != old(self).free_user_ids@[a]);
                }
            }
            assert forall|a: int|
                0 <= a < self.entries@.len() implies (self.entries@[a].user_id as int) < (
            MAX_CONNECTIONS_PER_WORKER as int) by {
                let a0 = if a < i { a } else { a + 1 };
                assert(self.entries_v()[a] == before[a0]);
            }
            assert(self.wf());
            assert(!self.has_conn(scid@)) by {
                if self.has_conn(scid@) {
                    let k = choose|k: int|
                        0 <= k < self.entries_v().len() && self.entries_v()[k].scid@ == scid@;
                    let k0 = if k < i { k } else { k + 1 };
                    assert(self.entries_v()[k] == before[k0]);
                    assert(k0 != i);
                }
            }
            assert forall|s: Seq<u8>| s != scid@ implies (self.has_conn(s) <==> old(
                self,
            ).has_conn(s)) by {
                if self.has_conn(s) {
                    let k = choose|k: int|
                        0 <= k < self.entries_v().len() && self.entries_v()[k].scid@ == s;
                    let k0 = if k < i { k } else { k + 1 };
                    assert(self.entries_v()[k] == before[k0]);
                    assert(old(self).entries_v()[k0].scid@ == s);
                    assert(old(self).has_conn(s));
                }
                if old(self).has_conn(s) {
                    let k0 = choose|k0: int|
                        0 <= k0 < old(self).entries_v().len() && old(self).entries_v()[k0].scid@
                            == s;
                    assert(k0 != i);
                    let k = if k0 < i { k0 } else { k0 - 1 };
                    assert(self.entries_v()[k] == before[k0]);
                    assert(self.entries_v()[k].scid@ == s);
                    assert(self.has_conn(s));
                }
            }
            assert forall|s: Seq<u8>| s != scid@ && old(self).has_conn(s) implies self.user_of(s)
                == old(self).user_of(s) by {
                let k0 = choose|k0: int|
                    0 <= k0 < old(self).entries_v().len() && old(self).entries_v()[k0].scid@ == s;
                old(self).lemma_entry_unique(k0, s);
                assert(k0 != i);
                let k = if k0 < i { k0 } else { k0 - 1 };
                assert(self.entries_v()[k] == before[k0]);
                assert(self.entries_v()[k].scid@ == s);
                self.lemma_entry_unique(k, s);
            }
        }
        true
    }
}

/// Relies on `rand`'s thread-local generator (`rand::thread_rng` and
/// `Rng::fill`) to fill the buffer with random bytes; nothing is assumed of
/// the bytes beyond their count.
#[verifier::external_body]
fn fill_random_bytes(out: &mut Vec<u8>)
    ensures
        final(out)@.len() == old(out)@.len(),
{
    rand::thread_rng().fill(out.as_mut_slice());
}

/// Generates a random source connection id of the QUIC maximum length.
/// Two calls may (and almost surely do) return different values.
pub fn random_connection_id() -> (r: Vec<u8>)
    ensures
        r@.len() == MAX_CONN_ID_LEN,
{
    let mut v = vec![0u8; MAX_CONN_ID_LEN];
    fill_random_bytes(&mut v);
    v
}

} // verus!
