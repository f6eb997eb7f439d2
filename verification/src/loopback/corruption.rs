//! Packets whose bytes are rewritten on their way.
//!
//! A rewrite is a value, so that a network and all that is to happen on it can be looked at.

use vstd::prelude::*;

verus! {

/// How a packet's bytes are rewritten.
#[derive(Debug)]
pub enum Corruption {
    /// Keep this many of its first bytes.
    Truncate(usize),
    /// Flip these bits of one of its bytes, if it has that many.
    Flip { at: usize, mask: u8 },
    /// Put these bytes behind it.
    Append(Vec<u8>),
    /// Send these bytes in its place.
    Replace(Vec<u8>),
}

/// The mathematical content of a [`Corruption`].
pub enum CorruptionView {
    Truncate(usize),
    Flip { at: usize, mask: u8 },
    Append(Seq<u8>),
    Replace(Seq<u8>),
}

impl View for Corruption {
    type V = CorruptionView;

    open spec fn view(&self) -> CorruptionView {
        match *self {
            Corruption::Truncate(length) => CorruptionView::Truncate(length),
            Corruption::Flip { at, mask } => CorruptionView::Flip { at, mask },
            Corruption::Append(more) => CorruptionView::Append(more@),
            Corruption::Replace(other) => CorruptionView::Replace(other@),
        }
    }
}

impl CorruptionView {
    /// What becomes of `bytes`.
    pub open spec fn applied(self, bytes: Seq<u8>) -> Seq<u8> {
        match self {
            CorruptionView::Truncate(length) => if length < bytes.len() {
                bytes.take(length as int)
            } else {
                bytes
            },
            CorruptionView::Flip { at, mask } => if at < bytes.len() {
                bytes.update(at as int, bytes[at as int] ^ mask)
            } else {
                bytes
            },
            CorruptionView::Append(more) => bytes + more,
            CorruptionView::Replace(other) => other,
        }
    }

    /// How many bytes a packet can be longer for it.
    pub open spec fn growth(self) -> nat {
        match self {
            CorruptionView::Append(more) => more.len(),
            CorruptionView::Replace(other) => other.len(),
            _ => 0,
        }
    }
}

impl Corruption {
    /// Rewrite `bytes`.
    pub fn apply(self, bytes: Vec<u8>) -> (rewritten: Vec<u8>)
        ensures
            rewritten@ == self@.applied(bytes@),
            rewritten@.len() <= bytes@.len() + self@.growth(),
    {
        let mut rewritten = bytes;
        match self {
            Corruption::Truncate(length) => {
                if length < rewritten.len() {
                    rewritten.truncate(length);
                    assert(rewritten@ =~= bytes@.take(length as int));
                }
                rewritten
            },
            Corruption::Flip { at, mask } => {
                if at < rewritten.len() {
                    let flipped: u8 = rewritten[at] ^ mask;
                    rewritten.set(at, flipped);
                }
                rewritten
            },
            Corruption::Append(mut more) => {
                rewritten.append(&mut more);
                rewritten
            },
            Corruption::Replace(other) => other,
        }
    }
}

/// A rewrite that waits for the next packet of one direction of a pair.
#[derive(Debug)]
pub struct PendingCorruption {
    /// The direction.
    pub key: u128,
    pub rewrite: Corruption,
}

/// The mathematical content of a [`PendingCorruption`].
pub struct PendingView {
    pub key: u128,
    pub rewrite: CorruptionView,
}

impl View for PendingCorruption {
    type V = PendingView;

    open spec fn view(&self) -> PendingView {
        PendingView { key: self.key, rewrite: self.rewrite@ }
    }
}

/// The views of waiting rewrites, in order.
pub open spec fn pending_views(pending: Seq<PendingCorruption>) -> Seq<PendingView> {
    Seq::new(pending.len(), |i: int| pending[i]@)
}

/// The place of the first rewrite that waits for `key`; how many there are if none does.
pub open spec fn first_for(pending: Seq<PendingView>, key: u128) -> int
    decreases pending.len(),
{
    if pending.len() == 0 || pending[0].key == key {
        0
    } else {
        1 + first_for(pending.drop_first(), key)
    }
}

/// How many bytes packets can be longer, in all, for the rewrites that wait.
pub open spec fn total_growth(pending: Seq<PendingView>) -> nat
    decreases pending.len(),
{
    if pending.len() == 0 {
        0
    } else {
        total_growth(pending.drop_last()) + pending.last().rewrite.growth()
    }
}

/// Where the first rewrite that waits for `key` stands.
pub(crate) proof fn lemma_first_for(pending: Seq<PendingView>, key: u128)
    ensures
        0 <= first_for(pending, key) <= pending.len(),
        first_for(pending, key) < pending.len() ==> pending[first_for(pending, key)].key == key,
        forall|i: int| 0 <= i < first_for(pending, key) ==> (#[trigger] pending[i]).key != key,
    decreases pending.len(),
{
    if pending.len() > 0 && pending[0].key != key {
        let later = pending.drop_first();
        lemma_first_for(later, key);
        assert forall|i: int| 0 <= i < first_for(pending, key) implies (
        #[trigger] pending[i]).key != key by {
            if i > 0 {
                assert(later[i - 1] == pending[i]);
            }
        }
    }
}

/// The place before which nothing waits for `key`, and at which something does or the rewrites
/// end.
pub(crate) proof fn lemma_first_for_is(pending: Seq<PendingView>, key: u128, at: int)
    requires
        0 <= at <= pending.len(),
        at < pending.len() ==> pending[at].key == key,
        forall|i: int| 0 <= i < at ==> (#[trigger] pending[i]).key != key,
    ensures
        first_for(pending, key) == at,
{
    lemma_first_for(pending, key);
    if first_for(pending, key) < at {
        assert(pending[first_for(pending, key)].key != key);
    }
}

/// Without one of the rewrites packets can be that much less longer.
pub(crate) proof fn lemma_growth_without(pending: Seq<PendingView>, i: int)
    requires
        0 <= i < pending.len(),
    ensures
        total_growth(pending.remove(i)) + pending[i].rewrite.growth() == total_growth(pending),
    decreases pending.len(),
{
    if i == pending.len() - 1 {
        assert(pending.remove(i) =~= pending.drop_last());
    } else {
        lemma_growth_without(pending.drop_last(), i);
        assert(pending.remove(i).drop_last() =~= pending.drop_last().remove(i));
        assert(pending.remove(i).last() == pending.last());
    }
}

} // verus!
