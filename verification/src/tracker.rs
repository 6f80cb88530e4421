//! Tracking of outbound QoS 1/2 publishes awaiting acknowledgment.
//!
//! The tracker owns the in-flight entries and the packet-identifier
//! allocator. Its central invariant, kept by every operation, is that
//! no two in-flight entries ever hold the same identifier, and no
//! entry holds identifier zero.
//!
//! Retransmission policy: an entry past its deadline is resent with
//! the duplicate flag, without bound on the number of retries, at the
//! fixed interval the caller supplies; the retry counter saturates
//! rather than wraps.

use crate::codec::{Packet, PacketS};
use crate::qos::QoS;
use crate::wire::{is_valid_utf8, MAX_REMAINING_LEN};
use vstd::prelude::*;
use vstd::set_lib::{lemma_int_range, lemma_len_subset, set_int_range};
use vstd::slice::slice_to_vec;

verus! {

/// Stage of the acknowledgment handshake of one outbound publish.
#[derive(Clone, Copy, Debug, PartialEq, Eq, Structural)]
pub enum HandshakeStage {
    /// PUBLISH sent; awaiting PUBACK (QoS 1) or PUBREC (QoS 2).
    Sent,
    /// PUBREC received (QoS 2 only); PUBREL not yet sent.
    Received,
    /// PUBREL sent (QoS 2 only); awaiting PUBCOMP.
    ReleaseSent,
}

/// One outbound QoS 1/2 publish awaiting its handshake.
#[derive(Debug, Clone, PartialEq, Eq)]
pub struct PendingPublish {
    pub packet_id: u16,
    pub qos: QoS,
    pub topic: Vec<u8>,
    pub payload: Vec<u8>,
    pub retain: bool,
    pub retry_count: u32,
    pub next_retry_at: u64,
    pub stage: HandshakeStage,
}

impl PendingPublish {
    /// Well-formedness: a nonzero identifier, an acknowledged QoS
    /// level, a stage its level can reach, and fields from which a
    /// well-formed PUBLISH can be rebuilt for retransmission.
    pub open spec fn wf(self) -> bool {
        &&& self.packet_id != 0
        &&& (self.qos is AtLeastOnce || self.qos is ExactlyOnce)
        &&& (self.qos is AtLeastOnce ==> self.stage is Sent)
        &&& is_valid_utf8(self.topic@)
        &&& 1 <= self.topic@.len() <= 0xFFFF
        &&& 2 + self.topic@.len() + 2 + self.payload@.len() <= MAX_REMAINING_LEN
    }

    /// The packet retransmission resends for this entry: the PUBLISH
    /// itself (duplicate flag set) until the release stage, the PUBREL
    /// after.
    pub open spec fn resend_packet(self) -> PacketS {
        if self.stage is ReleaseSent {
            PacketS::Pubrel { packet_id: self.packet_id }
        } else {
            PacketS::Publish {
                dup: true,
                qos: self.qos,
                retain: self.retain,
                topic: self.topic@,
                packet_id: self.packet_id,
                payload: self.payload@,
            }
        }
    }
}

/// Tracks the in-flight publishes of one connection and allocates
/// their packet identifiers.
pub struct PublishTracker {
    pub entries: Vec<PendingPublish>,
    pub next_id: u16,
}

impl PublishTracker {
    /// Well-formedness: every entry well formed, identifiers pairwise
    /// distinct, and the allocation cursor a legal identifier.
    pub open spec fn wf(self) -> bool {
        &&& 1 <= self.next_id <= 0xFFFF
        &&& forall|i: int| 0 <= i < self.entries@.len() ==> (#[trigger] self.entries@[i]).wf()
        &&& forall|i: int, j: int|
            0 <= i < j < self.entries@.len() ==> (#[trigger] self.entries@[i]).packet_id != (
            #[trigger] self.entries@[j]).packet_id
    }

    /// Whether identifier `id` is held by some in-flight entry.
    pub open spec fn in_flight(self, id: u16) -> bool {
        exists|i: int|
            0 <= i < self.entries@.len() && (#[trigger] self.entries@[i]).packet_id == id
    }

    /// A fresh tracker: nothing in flight, allocation starting at 1.
    pub fn new() -> (r: PublishTracker)
        ensures
            r.wf(),
            r.entries@.len() == 0,
            r.next_id == 1,
    {
        PublishTracker { entries: Vec::new(), next_id: 1 }
    }

    /// Whether some in-flight entry holds identifier `id`.
    pub fn contains_id(&self, id: u16) -> (r: bool)
        ensures
            r == self.in_flight(id),
    {
        let n: usize = self.entries.len();
        let mut i: usize = 0;
        while i < n
            invariant
                i <= n,
                n == self.entries@.len(),
                forall|j: int| 0 <= j < i ==> (#[trigger] self.entries@[j]).packet_id != id,
            decreases n - i,
        {
            if self.entries[i].packet_id == id {
                return true;
            }
            i = i + 1;
        }
        false
    }

    /// The position of the entry holding `id`, if one does.
    fn find_index(&self, id: u16) -> (r: Option<usize>)
        ensures
            match r {
                Some(i) => i < self.entries@.len() && self.entries@[i as int].packet_id == id,
                None => !self.in_flight(id),
            },
    {
        let n: usize = self.entries.len();
        let mut i: usize = 0;
        while i < n
            invariant
                i <= n,
                n == self.entries@.len(),
                forall|j: int| 0 <= j < i ==> (#[trigger] self.entries@[j]).packet_id != id,
            decreases n - i,
        {
            if self.entries[i].packet_id == id {
                return Some(i);
            }
            i = i + 1;
        }
        None
    }

    /// Allocates a packet identifier: the first free one at or after
    /// the cursor, wrapping past 65535 and skipping identifiers still
    /// in flight. Returns `None` exactly when every one of the 65535
    /// identifiers is in flight.
    pub fn allocate(&mut self) -> (r: Option<u16>)
        requires
            old(self).wf(),
        ensures
            final(self).wf(),
            final(self).entries == old(self).entries,
            match r {
                Some(id) => id != 0 && !old(self).in_flight(id) && final(self).next_id == (
                if id == 0xFFFF {
                    1u16
                } else {
                    (id + 1) as u16
                }),
                None => *final(self) == *old(self) && (forall|id: u16|
                    id != 0 ==> old(self).in_flight(id)),
            },
    {
        let start: u16 = self.next_id;
        let mut c: u32 = start as u32;
        while c <= 0xFFFF
            invariant
                self == old(self),
                old(self).wf(),
                1 <= start <= 0xFFFF,
                start == self.next_id,
                start as u32 <= c <= 0x10000,
                forall|x: u16| start <= x && (x as u32) < c ==> self.in_flight(x),
            decreases 0x10000 - c,
        {
            let id: u16 = c as u16;
            if !self.contains_id(id) {
                self.next_id = if id == 0xFFFF {
                    1
                } else {
                    id + 1
                };
                return Some(id);
            }
            c = c + 1;
        }
        let mut c: u32 = 1;
        while c < start as u32
            invariant
                self == old(self),
                old(self).wf(),
                1 <= start <= 0xFFFF,
                start == self.next_id,
                1 <= c <= start as u32,
                forall|x: u16| start <= x ==> self.in_flight(x),
                forall|x: u16| 1 <= x && (x as u32) < c ==> self.in_flight(x),
            decreases start as u32 - c,
        {
            let id: u16 = c as u16;
            if !self.contains_id(id) {
                self.next_id = if id == 0xFFFF {
                    1
                } else {
                    id + 1
                };
                return Some(id);
            }
            c = c + 1;
        }
        None
    }

    /// Starts tracking a new in-flight publish.
    pub fn track(&mut self, entry: PendingPublish)
        requires
            old(self).wf(),
            entry.wf(),
            !old(self).in_flight(entry.packet_id),
        ensures
            final(self).wf(),
            final(self).entries@ == old(self).entries@.push(entry),
            final(self).next_id == old(self).next_id,
    {
        self.entries.push(entry);
    }

    /// Removes the entry at position `i`; distinctness survives.
    fn remove_at(&mut self, i: usize) -> (r: PendingPublish)
        requires
            old(self).wf(),
            i < old(self).entries@.len(),
        ensures
            final(self).wf(),
            final(self).entries@ == old(self).entries@.remove(i as int),
            final(self).next_id == old(self).next_id,
            r == old(self).entries@[i as int],
            forall|id: u16|
                final(self).in_flight(id) <==> (old(self).in_flight(id) && id != old(
                    self,
                ).entries@[i as int].packet_id),
    {
        let r = self.entries.remove(i);
        proof {
            let oldseq = old(self).entries@;
            let newseq = self.entries@;
            assert forall|id: u16|
                self.in_flight(id) <==> (old(self).in_flight(id) && id != oldseq[
                i as int].packet_id) by {
                if self.in_flight(id) {
                    let k = choose|k: int|
                        0 <= k < newseq.len() && (#[trigger] newseq[k]).packet_id == id;
                    if k < i {
                        assert(oldseq[k].packet_id == id);
                    } else {
                        assert(oldseq[k + 1].packet_id == id);
                    }
                }
                if old(self).in_flight(id) && id != oldseq[i as int].packet_id {
                    let k = choose|k: int|
                        0 <= k < oldseq.len() && (#[trigger] oldseq[k]).packet_id == id;
                    if k < i {
                        assert(newseq[k].packet_id == id);
                    } else {
                        assert(newseq[k - 1].packet_id == id);
                    }
                }
            }
        }
        r
    }

    /// Handles a PUBACK for identifier `id`: a QoS 1 entry awaiting it
    /// completes and is removed; anything else (unknown identifier,
    /// wrong level or stage) is ignored as a duplicate or stale
    /// acknowledgment.
    pub fn on_puback(&mut self, id: u16) -> (completed: bool)
        requires
            old(self).wf(),
        ensures
            final(self).wf(),
            final(self).next_id == old(self).next_id,
            completed <==> exists|i: int|
                0 <= i < old(self).entries@.len() && {
                    let e = #[trigger] old(self).entries@[i];
                    e.packet_id == id && e.qos is AtLeastOnce && e.stage is Sent
                },
            completed ==> !final(self).in_flight(id) && final(self).entries@.len() == old(
                self,
            ).entries@.len() - 1 && (forall|x: u16|
                x != id ==> (final(self).in_flight(x) <==> old(self).in_flight(x))),
            !completed ==> *final(self) == *old(self),
    {
        match self.find_index(id) {
            Some(i) => {
                let matches_ack = matches!(self.entries[i].qos, QoS::AtLeastOnce) && matches!(
                    self.entries[i].stage,
                    HandshakeStage::Sent,
                );
                if matches_ack {
                    let ghost oldself = *old(self);
                    self.remove_at(i);
                    proof {
                        assert(oldself.entries@[i as int].packet_id == id);
                    }
                    true
                } else {
                    proof {
                        if exists|j: int|
                            0 <= j < self.entries@.len() && {
                                let e = #[trigger] self.entries@[j];
                                e.packet_id == id && e.qos is AtLeastOnce && e.stage is Sent
                            } {
                            let j = choose|j: int|
                                0 <= j < self.entries@.len() && {
                                    let e = #[trigger] self.entries@[j];
                                    e.packet_id == id && e.qos is AtLeastOnce && e.stage is Sent
                                };
                            assert(j != i);
                            assert(false);
                        }
                    }
                    false
                }
            },
            None => false,
        }
    }

    /// Handles a PUBREC for identifier `id`: a QoS 2 entry that sent
    /// its PUBLISH moves to `Received` and the caller owes the broker a
    /// PUBREL; anything else is ignored.
    pub fn on_pubrec(&mut self, id: u16) -> (matched: bool)
        requires
            old(self).wf(),
        ensures
            final(self).wf(),
            final(self).next_id == old(self).next_id,
            matched <==> exists|i: int|
                0 <= i < old(self).entries@.len() && {
                    let e = #[trigger] old(self).entries@[i];
                    e.packet_id == id && e.qos is ExactlyOnce && e.stage is Sent
                },
            matched ==> exists|i: int|
                0 <= i < old(self).entries@.len() && {
                    let e = #[trigger] old(self).entries@[i];
                    e.packet_id == id && final(self).entries@ == old(self).entries@.remove(i).push(
                        PendingPublish { stage: HandshakeStage::Received, ..e },
                    )
                },
            (forall|x: u16| final(self).in_flight(x) <==> old(self).in_flight(x)),
            !matched ==> *final(self) == *old(self),
    {
        self.set_stage(id, HandshakeStage::Sent, HandshakeStage::Received)
    }

    /// Records that the PUBREL for identifier `id` has been written
    /// out: the entry moves from `Received` to `ReleaseSent`.
    pub fn pubrel_sent(&mut self, id: u16) -> (matched: bool)
        requires
            old(self).wf(),
        ensures
            final(self).wf(),
            final(self).next_id == old(self).next_id,
            matched <==> exists|i: int|
                0 <= i < old(self).entries@.len() && {
                    let e = #[trigger] old(self).entries@[i];
                    e.packet_id == id && e.qos is ExactlyOnce && e.stage is Received
                },
            matched ==> exists|i: int|
                0 <= i < old(self).entries@.len() && {
                    let e = #[trigger] old(self).entries@[i];
                    e.packet_id == id && final(self).entries@ == old(self).entries@.remove(i).push(
                        PendingPublish { stage: HandshakeStage::ReleaseSent, ..e },
                    )
                },
            (forall|x: u16| final(self).in_flight(x) <==> old(self).in_flight(x)),
            !matched ==> *final(self) == *old(self),
    {
        self.set_stage(id, HandshakeStage::Received, HandshakeStage::ReleaseSent)
    }

    /// Moves the QoS 2 entry holding `id` from stage `from` to stage
    /// `to`, if one awaits exactly that; reports whether one did.
    fn set_stage(&mut self, id: u16, from: HandshakeStage, to: HandshakeStage) -> (r: bool)
        requires
            old(self).wf(),
            !(to is Sent),
        ensures
            final(self).wf(),
            final(self).next_id == old(self).next_id,
            r <==> exists|i: int|
                0 <= i < old(self).entries@.len() && {
                    let e = #[trigger] old(self).entries@[i];
                    e.packet_id == id && e.qos is ExactlyOnce && e.stage == from
                },
            r ==> exists|i: int|
                0 <= i < old(self).entries@.len() && {
                    let e = #[trigger] old(self).entries@[i];
                    e.packet_id == id && final(self).entries@ == old(self).entries@.remove(i).push(
                        PendingPublish { stage: to, ..e },
                    )
                },
            (forall|x: u16| final(self).in_flight(x) <==> old(self).in_flight(x)),
            !r ==> *final(self) == *old(self),
    {
        match self.find_index(id) {
            Some(i) => {
                let stage_matches = self.entries[i].qos == QoS::ExactlyOnce && self.entries[i].stage
                    == from;
                if stage_matches {
                    let ghost oldself = *old(self);
                    let e = self.remove_at(i);
                    let updated = PendingPublish { stage: to, ..e };
                    proof {
                        assert(updated.wf());
                        assert(!self.in_flight(id));
                    }
                    self.entries.push(updated);
                    proof {
                        let oldseq = oldself.entries@;
                        let newseq = self.entries@;
                        assert(newseq == oldseq.remove(i as int).push(updated));
                        assert forall|x: u16| self.in_flight(x) <==> oldself.in_flight(x) by {
                            if self.in_flight(x) {
                                let k = choose|k: int|
                                    0 <= k < newseq.len() && (#[trigger] newseq[k]).packet_id == x;
                                if k == newseq.len() - 1 {
                                    assert(oldseq[i as int].packet_id == x);
                                } else if k < i {
                                    assert(oldseq[k].packet_id == x);
                                } else {
                                    assert(oldseq[k + 1].packet_id == x);
                                }
                            }
                            if oldself.in_flight(x) {
                                if x == id {
                                    assert(newseq[newseq.len() - 1].packet_id == x);
                                } else {
                                    let k = choose|k: int|
                                        0 <= k < oldseq.len() && (#[trigger] oldseq[k]).packet_id
                                            == x;
                                    if k < i {
                                        assert(newseq[k].packet_id == x);
                                    } else {
                                        assert(newseq[k - 1].packet_id == x);
                                    }
                                }
                            }
                        }
                    }
                    true
                } else {
                    proof {
                        if exists|j: int|
                            0 <= j < self.entries@.len() && {
                                let e = #[trigger] self.entries@[j];
                                e.packet_id == id && e.qos is ExactlyOnce && e.stage == from
                            } {
                            let j = choose|j: int|
                                0 <= j < self.entries@.len() && {
                                    let e = #[trigger] self.entries@[j];
                                    e.packet_id == id && e.qos is ExactlyOnce && e.stage == from
                                };
                            assert(j != i);
                            assert(false);
                        }
                    }
                    false
                }
            },
            None => false,
        }
    }

    /// Drops every in-flight entry, returning their identifiers in
    /// order, so the caller can report each as failed.
    pub fn fail_all(&mut self) -> (ids: Vec<u16>)
        requires
            old(self).wf(),
        ensures
            final(self).wf(),
            final(self).entries@.len() == 0,
            final(self).next_id == old(self).next_id,
            ids@ == old(self).entries@.map_values(|e: PendingPublish| e.packet_id),
    {
        let mut ids: Vec<u16> = Vec::new();
        let n: usize = self.entries.len();
        let mut i: usize = 0;
        proof {
            assert(self.entries@.take(0).map_values(|e: PendingPublish| e.packet_id) =~= Seq::<
                u16,
            >::empty());
        }
        while i < n
            invariant
                i <= n,
                self == old(self),
                n == self.entries@.len(),
                ids@ == self.entries@.take(i as int).map_values(|e: PendingPublish| e.packet_id),
            decreases n - i,
        {
            ids.push(self.entries[i].packet_id);
            proof {
                assert(self.entries@.take(i as int + 1).map_values(
                    |e: PendingPublish| e.packet_id,
                ) =~= self.entries@.take(i as int).map_values(|e: PendingPublish| e.packet_id).push(
                    self.entries@[i as int].packet_id,
                ));
            }
            i = i + 1;
        }
        self.entries = Vec::new();
        proof {
            assert(old(self).entries@.take(n as int) =~= old(self).entries@);
        }
        ids
    }

    /// Handles a PUBCOMP for identifier `id`: a QoS 2 entry whose
    /// PUBREL is out completes and is removed; anything else is
    /// ignored.
    pub fn on_pubcomp(&mut self, id: u16) -> (completed: bool)
        requires
            old(self).wf(),
        ensures
            final(self).wf(),
            final(self).next_id == old(self).next_id,
            completed <==> exists|i: int|
                0 <= i < old(self).entries@.len() && {
                    let e = #[trigger] old(self).entries@[i];
                    e.packet_id == id && e.qos is ExactlyOnce && e.stage is ReleaseSent
                },
            completed ==> !final(self).in_flight(id) && final(self).entries@.len() == old(
                self,
            ).entries@.len() - 1 && (forall|x: u16|
                x != id ==> (final(self).in_flight(x) <==> old(self).in_flight(x))),
            !completed ==> *final(self) == *old(self),
    {
        match self.find_index(id) {
            Some(i) => {
                let matches_comp = matches!(self.entries[i].qos, QoS::ExactlyOnce) && matches!(
                    self.entries[i].stage,
                    HandshakeStage::ReleaseSent,
                );
                if matches_comp {
                    let ghost oldself = *old(self);
                    self.remove_at(i);
                    proof {
                        assert(oldself.entries@[i as int].packet_id == id);
                    }
                    true
                } else {
                    proof {
                        if exists|j: int|
                            0 <= j < self.entries@.len() && {
                                let e = #[trigger] self.entries@[j];
                                e.packet_id == id && e.qos is ExactlyOnce && e.stage is ReleaseSent
                            } {
                            let j = choose|j: int|
                                0 <= j < self.entries@.len() && {
                                    let e = #[trigger] self.entries@[j];
                                    e.packet_id == id && e.qos is ExactlyOnce
                                        && e.stage is ReleaseSent
                                };
                            assert(j != i);
                            assert(false);
                        }
                    }
                    false
                }
            },
            None => false,
        }
    }
}

/// A deadline `interval` after `now`, saturating at the clock's end
/// instead of wrapping.
pub open spec fn spec_deadline(now: u64, interval: u64) -> u64 {
    if now + interval > u64::MAX {
        u64::MAX
    } else {
        (now + interval) as u64
    }
}

/// A deadline `interval` after `now`, saturating at the clock's end.
pub fn deadline_add(now: u64, interval: u64) -> (r: u64)
    ensures
        r == spec_deadline(now, interval),
{
    if now > u64::MAX - interval {
        u64::MAX
    } else {
        now + interval
    }
}

/// How one retransmission sweep at time `now` rewrites entry `o` into
/// `n`: a due entry keeps its identity and stage, bumps its saturating
/// retry counter and moves its deadline out by `interval`; an entry
/// not yet due is untouched.
pub open spec fn entry_after_sweep(
    n: PendingPublish,
    o: PendingPublish,
    now: u64,
    interval: u64,
) -> bool {
    &&& n.packet_id == o.packet_id
    &&& n.qos == o.qos
    &&& n.topic@ == o.topic@
    &&& n.payload@ == o.payload@
    &&& n.retain == o.retain
    &&& n.stage == o.stage
    &&& n.retry_count == (if o.next_retry_at <= now {
        if o.retry_count < u32::MAX {
            (o.retry_count + 1) as u32
        } else {
            o.retry_count
        }
    } else {
        o.retry_count
    })
    &&& n.next_retry_at == (if o.next_retry_at <= now {
        spec_deadline(now, interval)
    } else {
        o.next_retry_at
    })
}

/// The packets one sweep at time `now` resends, in entry order: one
/// for each entry whose deadline has passed.
pub open spec fn spec_resends(s: Seq<PendingPublish>, now: u64) -> Seq<PacketS>
    decreases s.len(),
{
    if s.len() == 0 {
        Seq::empty()
    } else {
        spec_resends(s.drop_last(), now) + (if s.last().next_retry_at <= now {
            seq![s.last().resend_packet()]
        } else {
            Seq::empty()
        })
    }
}

impl PublishTracker {
    /// One retransmission sweep: every entry past its deadline is
    /// rescheduled and its current handshake packet is returned for
    /// resending, duplicate flag set on the PUBLISH.
    pub fn sweep(&mut self, now: u64, interval: u64) -> (resends: Vec<Packet>)
        requires
            old(self).wf(),
        ensures
            final(self).wf(),
            final(self).next_id == old(self).next_id,
            final(self).entries@.len() == old(self).entries@.len(),
            forall|i: int|
                0 <= i < old(self).entries@.len() ==> entry_after_sweep(
                    final(self).entries@[i],
                    #[trigger] old(self).entries@[i],
                    now,
                    interval,
                ),
            forall|x: u16| final(self).in_flight(x) <==> old(self).in_flight(x),
            resends@.map_values(|p: Packet| p@) == spec_resends(old(self).entries@, now),
            forall|i: int|
                0 <= i < resends@.len() ==> (#[trigger] resends@[i])@.wf(),
    {
        let ghost olds = self.entries@;
        let n: usize = self.entries.len();
        let mut processed: Vec<PendingPublish> = Vec::new();
        let mut resends: Vec<Packet> = Vec::new();
        let mut i: usize = 0;
        proof {
            assert(olds.take(0) =~= Seq::<PendingPublish>::empty());
        }
        while i < n
            invariant
                i <= n,
                self == old(self),
                old(self).wf(),
                n == self.entries@.len(),
                olds == self.entries@,
                processed@.len() == i,
                forall|j: int|
                    0 <= j < i ==> entry_after_sweep(
                        processed@[j],
                        #[trigger] olds[j],
                        now,
                        interval,
                    ),
                resends@.map_values(|p: Packet| p@) == spec_resends(olds.take(i as int), now),
                forall|j: int| 0 <= j < resends@.len() ==> (#[trigger] resends@[j])@.wf(),
            decreases n - i,
        {
            let due_now = self.entries[i].next_retry_at <= now;
            if due_now {
                let pkt = if self.entries[i].stage == HandshakeStage::ReleaseSent {
                    Packet::Pubrel { packet_id: self.entries[i].packet_id }
                } else {
                    Packet::Publish {
                        dup: true,
                        qos: self.entries[i].qos,
                        retain: self.entries[i].retain,
                        topic: slice_to_vec(self.entries[i].topic.as_slice()),
                        packet_id: self.entries[i].packet_id,
                        payload: slice_to_vec(self.entries[i].payload.as_slice()),
                    }
                };
                proof {
                    assert(pkt@ =~= olds[i as int].resend_packet());
                    assert(pkt@.wf());
                }
                resends.push(pkt);
            }
            proof {
                assert(olds.take(i as int + 1).drop_last() =~= olds.take(i as int));
                assert(olds.take(i as int + 1).last() == olds[i as int]);
                assert(resends@.map_values(|p: Packet| p@) =~= spec_resends(
                    olds.take(i as int + 1),
                    now,
                ));
            }
            let updated = PendingPublish {
                packet_id: self.entries[i].packet_id,
                qos: self.entries[i].qos,
                topic: slice_to_vec(self.entries[i].topic.as_slice()),
                payload: slice_to_vec(self.entries[i].payload.as_slice()),
                retain: self.entries[i].retain,
                retry_count: if due_now {
                    if self.entries[i].retry_count < u32::MAX {
                        self.entries[i].retry_count + 1
                    } else {
                        self.entries[i].retry_count
                    }
                } else {
                    self.entries[i].retry_count
                },
                next_retry_at: if due_now {
                    deadline_add(now, interval)
                } else {
                    self.entries[i].next_retry_at
                },
                stage: self.entries[i].stage,
            };
            processed.push(updated);
            i = i + 1;
        }
        self.entries = processed;
        proof {
            assert(olds.take(n as int) =~= olds);
            assert forall|j: int| 0 <= j < self.entries@.len() implies (
            #[trigger] self.entries@[j]).wf() by {
                assert(entry_after_sweep(self.entries@[j], olds[j], now, interval));
                assert(olds[j].wf());
            }
            assert forall|i2: int, j2: int|
                0 <= i2 < j2 < self.entries@.len() implies self.entries@[i2].packet_id
                != self.entries@[j2].packet_id by {
                assert(entry_after_sweep(self.entries@[i2], olds[i2], now, interval));
                assert(entry_after_sweep(self.entries@[j2], olds[j2], now, interval));
                assert(olds[i2].packet_id != olds[j2].packet_id);
            }
            assert forall|x: u16| self.in_flight(x) <==> old(self).in_flight(x) by {
                if self.in_flight(x) {
                    let k = choose|k: int|
                        0 <= k < self.entries@.len() && (#[trigger] self.entries@[k]).packet_id
                            == x;
                    assert(olds[k].packet_id == x);
                }
                if old(self).in_flight(x) {
                    let k = choose|k: int|
                        0 <= k < olds.len() && (#[trigger] olds[k]).packet_id == x;
                    assert(self.entries@[k].packet_id == x);
                }
            }
        }
        resends
    }
}

/// No two in-flight entries of one tracker ever hold the same packet
/// identifier.
pub proof fn lemma_distinct_packet_ids(t: PublishTracker, i: int, j: int)
    requires
        t.wf(),
        0 <= i < t.entries@.len(),
        0 <= j < t.entries@.len(),
        i != j,
    ensures
        t.entries@[i].packet_id != t.entries@[j].packet_id,
{
}

/// If every nonzero identifier is in flight, the tracker holds at
/// least 65535 entries: identifier exhaustion really is exhaustion of
/// the whole identifier space.
pub proof fn lemma_id_space_exhaustion(t: PublishTracker)
    requires
        t.wf(),
        forall|id: u16| id != 0 ==> t.in_flight(id),
    ensures
        t.entries@.len() >= 0xFFFF,
{
    let ids = t.entries@.map_values(|e: PendingPublish| e.packet_id as int);
    assert(ids.no_duplicates()) by {
        assert forall|i: int, j: int| 0 <= i < ids.len() && 0 <= j < ids.len() && i != j implies ids[i]
            != ids[j] by {
            if i < j {
                assert(t.entries@[i].packet_id != t.entries@[j].packet_id);
            } else {
                assert(t.entries@[j].packet_id != t.entries@[i].packet_id);
            }
        }
    }
    ids.unique_seq_to_set();
    lemma_int_range(1, 0x10000);
    assert(set_int_range(1, 0x10000).subset_of(ids.to_set())) by {
        assert forall|x: int| set_int_range(1, 0x10000).contains(x) implies ids.to_set().contains(
            x,
        ) by {
            let id = x as u16;
            assert(id != 0);
            assert(t.in_flight(id));
            let k = choose|k: int|
                0 <= k < t.entries@.len() && (#[trigger] t.entries@[k]).packet_id == id;
            assert(ids[k] == x);
        }
    }
    lemma_len_subset(set_int_range(1, 0x10000), ids.to_set());
}

} // verus!
