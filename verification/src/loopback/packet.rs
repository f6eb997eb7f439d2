//! Packets, and what became of them.

use vstd::prelude::*;

use crate::transport::SendMode;

verus! {

/// Identifies a peer inside a network. Index, not a uuid.
#[derive(Debug, Clone, Copy, PartialEq, Eq, Structural)]
pub struct PeerId(pub usize);

/// What the link did with a packet. Recorded per packet when tracing is on.
#[derive(Debug, Clone, Copy, PartialEq, Eq)]
pub enum PacketFate {
    /// Scheduled to arrive on this frame. Reordering can still move an unreliable packet later.
    Delivered { at_frame: u64 },
    /// An unreliable packet the link lost, or one that was to be dropped.
    Dropped,
    /// An unreliable packet delivered twice, on these frames.
    Duplicated { at_frames: (u64, u64) },
    /// An unreliable packet larger than the link carries.
    Oversize,
    /// Nobody on the other end: the destination cannot receive, or the sender is half-open.
    Unreachable,
}

impl PacketFate {
    /// Whether a packet with this fate arrives at least once.
    pub open spec fn delivered(self) -> bool {
        self is Delivered || self is Duplicated
    }
}

/// One packet as the network saw it.
#[derive(Debug)]
pub struct SentPacket {
    /// The frame the sender handed it over.
    pub frame: u64,
    pub from: PeerId,
    pub to: PeerId,
    pub mode: SendMode,
    /// The bytes as scheduled.
    pub bytes: Vec<u8>,
    pub fate: PacketFate,
}

/// The mathematical content of a [`SentPacket`].
pub struct SentPacketView {
    pub frame: u64,
    pub from: PeerId,
    pub to: PeerId,
    pub mode: SendMode,
    pub bytes: Seq<u8>,
    pub fate: PacketFate,
}

impl View for SentPacket {
    type V = SentPacketView;

    open spec fn view(&self) -> SentPacketView {
        SentPacketView {
            frame: self.frame,
            from: self.from,
            to: self.to,
            mode: self.mode,
            bytes: self.bytes@,
            fate: self.fate,
        }
    }
}

/// Whether `needle` stands in `bytes` from `at` on.
pub open spec fn stands_at(bytes: Seq<u8>, needle: Seq<u8>, at: int) -> bool {
    &&& 0 <= at
    &&& at + needle.len() <= bytes.len()
    &&& bytes.subrange(at, at + needle.len()) == needle
}

/// Whether `needle` occurs anywhere in `bytes`. Nothing occurs nowhere.
pub open spec fn occurs_in(bytes: Seq<u8>, needle: Seq<u8>) -> bool {
    needle.len() > 0 && exists|at: int| stands_at(bytes, needle, at)
}

/// Whether `needle` stands in `bytes` from `at` on.
fn matches_at(bytes: &Vec<u8>, needle: &Vec<u8>, at: usize) -> (found: bool)
    requires
        at + needle@.len() <= bytes@.len(),
    ensures
        found == stands_at(bytes@, needle@, at as int),
{
    let mut i: usize = 0;
    while i < needle.len()
        invariant
            i <= needle@.len(),
            at + needle.len() <= bytes.len(),
            forall|j: int| 0 <= j < i ==> bytes@[at + j] == needle@[j],
        decreases needle.len() - i,
    {
        if bytes[at + i] != needle[i] {
            assert(bytes@.subrange(at as int, at + needle@.len())[i as int] != needle@[i as int]);
            return false;
        }
        i += 1;
    }
    assert(bytes@.subrange(at as int, at + needle@.len()) =~= needle@);
    true
}

impl SentPacket {
    /// Whether `needle` occurs anywhere in the payload. The test for "this secret never left the
    /// host" asks this of every packet.
    pub fn contains(&self, needle: &Vec<u8>) -> (found: bool)
        ensures
            found == occurs_in(self.bytes@, needle@),
    {
        if needle.len() == 0 || needle.len() > self.bytes.len() {
            return false;
        }
        let last: usize = self.bytes.len() - needle.len();
        let mut at: usize = 0;
        while at < last
            invariant
                at <= last,
                needle@.len() > 0,
                last + needle.len() == self.bytes.len(),
                forall|i: int| 0 <= i < at ==> !stands_at(self.bytes@, needle@, i),
            decreases last - at,
        {
            if matches_at(&self.bytes, needle, at) {
                return true;
            }
            at += 1;
        }
        matches_at(&self.bytes, needle, last)
    }

    /// Whether the packet arrives at least once.
    pub fn was_delivered(&self) -> (delivered: bool)
        ensures
            delivered == self.fate.delivered(),
    {
        match self.fate {
            PacketFate::Delivered { .. } => true,
            PacketFate::Duplicated { .. } => true,
            _ => false,
        }
    }
}

/// A packet on its way.
#[derive(Debug)]
pub struct Packet {
    /// Position in this link's send order. Delivery within a frame follows it, and an overtake is
    /// a swap of two packets' sequence numbers.
    pub seq: u64,
    pub to: usize,
    pub from: usize,
    pub from_uuid: u128,
    pub bytes: Vec<u8>,
    pub reliable: bool,
    pub deliver_at_frame: u64,
}

/// The mathematical content of a [`Packet`].
pub struct PacketView {
    pub seq: u64,
    pub to: usize,
    pub from: usize,
    pub from_uuid: u128,
    pub bytes: Seq<u8>,
    pub reliable: bool,
    pub deliver_at_frame: u64,
}

impl View for Packet {
    type V = PacketView;

    open spec fn view(&self) -> PacketView {
        PacketView {
            seq: self.seq,
            to: self.to,
            from: self.from,
            from_uuid: self.from_uuid,
            bytes: self.bytes@,
            reliable: self.reliable,
            deliver_at_frame: self.deliver_at_frame,
        }
    }
}

impl PacketView {
    /// Whether this packet is delivered before `other` when both are due: by frame, then by link,
    /// then in the link's wire order.
    pub open spec fn precedes(self, other: PacketView) -> bool {
        if self.deliver_at_frame != other.deliver_at_frame {
            self.deliver_at_frame < other.deliver_at_frame
        } else if self.from != other.from {
            self.from < other.from
        } else if self.to != other.to {
            self.to < other.to
        } else {
            self.seq < other.seq
        }
    }
}

impl Packet {
    /// Whether this packet is delivered before `other` when both are due.
    pub fn is_before(&self, other: &Packet) -> (before: bool)
        ensures
            before == self@.precedes(other@),
    {
        if self.deliver_at_frame != other.deliver_at_frame {
            self.deliver_at_frame < other.deliver_at_frame
        } else if self.from != other.from {
            self.from < other.from
        } else if self.to != other.to {
            self.to < other.to
        } else {
            self.seq < other.seq
        }
    }
}

/// The views of packets, in order.
pub open spec fn packet_views(packets: Seq<Packet>) -> Seq<PacketView> {
    Seq::new(packets.len(), |i: int| packets[i]@)
}

/// The views of records, in order.
pub open spec fn sent_views(sent: Seq<SentPacket>) -> Seq<SentPacketView> {
    Seq::new(sent.len(), |i: int| sent[i]@)
}

/// A copy of a payload.
pub(crate) fn copy_bytes(bytes: &Vec<u8>) -> (copy: Vec<u8>)
    ensures
        copy@ == bytes@,
{
    let copy = bytes.clone();
    assert(copy@ =~= bytes@);
    copy
}

} // verus!
