//! Offers that arrived before this side had a reason to answer them.
//!
//! Lobby events and peer signals arrive on separate channels. The server sends a joiner
//! `LobbyJoined` before the host's offer, but the two may be drained the other way round, and the
//! offer is then judged before its sender is known to be the host. An offer is sent once, so it is
//! held — along with every later signal from the same peer, which mean nothing until the offer is
//! applied — and judged again each frame until its sender can be answered or the hold runs out.

use vstd::prelude::*;

use super::trust;
use super::trust::{accept_offer_from, PeerRole};
use crate::sockets::signal::PeerSignal;
use crate::sockets::socket::{EnsembleSocket, SignalAction, SocketView};

verus! {

/// How long an offer this peer cannot answer yet is held for the lobby event that would let it,
/// in nanoseconds.
///
/// That event is already on its way when the offer arrives — the server sends it first, on the
/// same WebSocket — so the wait is a frame or two. The rest is margin for a slow frame; an offer
/// still unanswerable after it is from a peer this side will never answer.
pub const DEFERRED_OFFER_TIMEOUT: u64 = 2_000_000_000;

/// How many peers' offers are held at once. A handful covers every honest case, and the cap is
/// what keeps a member sending offers in a loop from growing the buffer without bound.
pub const MAX_DEFERRED_OFFERS: usize = 8;

/// What kind of signal this is, for a log line. The bodies are an SDP blob or a candidate line,
/// neither of which belongs in a log; which of the three it is, and who it is for, is the part
/// that answers questions.
pub fn signal_kind(signal: &PeerSignal) -> (kind: &'static str)
    ensures
        kind@ == match *signal {
            PeerSignal::Offer(_) => "offer"@,
            PeerSignal::Answer(_) => "answer"@,
            PeerSignal::IceCandidate(_) => "candidate"@,
        },
{
    match signal {
        PeerSignal::Offer(_) => "offer",
        PeerSignal::Answer(_) => "answer",
        PeerSignal::IceCandidate(_) => "candidate",
    }
}

struct DeferredPeer {
    sender: u128,
    since: u64,
    signals: Vec<PeerSignal>,
}

/// What is held of one peer.
#[verifier::ext_equal]
pub struct HeldPeer {
    pub sender: u128,
    /// When its offer arrived.
    pub since: u64,
    /// Its signals, in the order they arrived.
    pub signals: Seq<PeerSignal>,
}

impl View for DeferredPeer {
    type V = HeldPeer;

    closed spec fn view(&self) -> HeldPeer {
        HeldPeer { sender: self.sender, since: self.since, signals: self.signals@ }
    }
}

/// Signals from peers whose offer arrived before this side had a reason to answer it.
pub struct DeferredSignals {
    held: Vec<DeferredPeer>,
}

impl View for DeferredSignals {
    type V = Seq<HeldPeer>;

    closed spec fn view(&self) -> Seq<HeldPeer> {
        self.held@.map_values(|peer: DeferredPeer| peer@)
    }
}

/// Nothing is held of a sender.
pub open spec fn is_free(held: Seq<HeldPeer>, sender: u128) -> bool {
    forall|i: int| 0 <= i < held.len() ==> (#[trigger] held[i]).sender != sender
}

/// What is kept of a sender is kept once, starts with its offer, and there are no more senders
/// than [`MAX_DEFERRED_OFFERS`].
pub open spec fn is_bounded(held: Seq<HeldPeer>) -> bool {
    &&& held.len() <= MAX_DEFERRED_OFFERS
    &&& forall|i: int, j: int|
        0 <= i < j < held.len() ==> (#[trigger] held[i]).sender != (#[trigger] held[j]).sender
    &&& forall|i: int|
        0 <= i < held.len() ==> (#[trigger] held[i]).signals.len() > 0
            && held[i].signals[0] is Offer
}

/// The first that is held of `sender` is the `i`th.
pub open spec fn is_first_of(held: Seq<HeldPeer>, i: int, sender: u128) -> bool {
    0 <= i < held.len() && held[i].sender == sender && is_free(held.take(i), sender)
}

/// What is held after a signal, and the signal if it is to be applied now.
pub open spec fn admitted(
    held: Seq<HeldPeer>,
    sender: u128,
    signal: PeerSignal,
    answerable: bool,
    now: u64,
) -> (Seq<HeldPeer>, Option<PeerSignal>) {
    if !is_free(held, sender) {
        let i = choose|i: int| is_first_of(held, i, sender);
        (
            held.update(i, HeldPeer { signals: held[i].signals.push(signal), ..held[i] }),
            None,
        )
    } else if answerable || signal !is Offer {
        (held, Some(signal))
    } else if held.len() >= MAX_DEFERRED_OFFERS {
        (held, None)
    } else {
        (held.push(HeldPeer { sender, since: now, signals: seq![signal] }), None)
    }
}

/// A list of signals, each with its sender.
pub open spec fn sent_by(sender: u128, signals: Seq<PeerSignal>) -> Seq<(u128, PeerSignal)> {
    signals.map_values(|signal: PeerSignal| (sender, signal))
}

/// What is let go of, when `answerable[i]` says whether the `i`th held peer can be answered: every
/// signal of those that can, in order.
pub open spec fn let_go(held: Seq<HeldPeer>, answerable: Seq<bool>) -> Seq<(u128, PeerSignal)>
    decreases held.len(),
{
    if held.len() == 0 {
        Seq::empty()
    } else {
        let before = let_go(held.drop_last(), answerable);
        if answerable[held.len() - 1] {
            before + sent_by(held.last().sender, held.last().signals)
        } else {
            before
        }
    }
}

/// What stays held: those that cannot be answered and were not held for too long.
pub open spec fn still_held(held: Seq<HeldPeer>, answerable: Seq<bool>, now: u64) -> Seq<HeldPeer>
    decreases held.len(),
{
    if held.len() == 0 {
        Seq::empty()
    } else {
        let before = still_held(held.drop_last(), answerable, now);
        if !answerable[held.len() - 1] && now - held.last().since < DEFERRED_OFFER_TIMEOUT {
            before.push(held.last())
        } else {
            before
        }
    }
}

proof fn lemma_first_is_unique(held: Seq<HeldPeer>, i: int, sender: u128)
    requires
        is_first_of(held, i, sender),
    ensures
        !is_free(held, sender),
        i == (choose|k: int| is_first_of(held, k, sender)),
{
    let k = choose|k: int| is_first_of(held, k, sender);
    assert(is_first_of(held, k, sender));
    if k < i {
        assert(held.take(i)[k] == held[k]);
    }
    if i < k {
        assert(held.take(k)[i] == held[i]);
    }
}

proof fn lemma_there_is_a_first(held: Seq<HeldPeer>, sender: u128)
    requires
        !is_free(held, sender),
    ensures
        exists|i: int| is_first_of(held, i, sender),
    decreases held.len(),
{
    if held.len() > 0 {
        let before = held.drop_last();
        if is_free(before, sender) {
            assert(held.take(held.len() - 1) =~= before);
            assert forall|i: int| 0 <= i < held.len() - 1 implies (
            #[trigger] held[i]).sender != sender by {
                assert(before[i] == held[i]);
            }
            assert(is_first_of(held, held.len() - 1, sender));
        } else {
            lemma_there_is_a_first(before, sender);
            let i = choose|i: int| is_first_of(before, i, sender);
            assert(before.take(i) =~= held.take(i));
            assert(is_first_of(held, i, sender));
        }
    }
}

proof fn lemma_admitted_is_bounded(
    held: Seq<HeldPeer>,
    sender: u128,
    signal: PeerSignal,
    answerable: bool,
    now: u64,
)
    ensures
        is_bounded(held) ==> is_bounded(admitted(held, sender, signal, answerable, now).0),
{
    let after = admitted(held, sender, signal, answerable, now).0;
    if is_bounded(held) {
        if !is_free(held, sender) {
            lemma_there_is_a_first(held, sender);
            let k = choose|k: int| is_first_of(held, k, sender);
            assert forall|j: int| 0 <= j < after.len() implies (
            #[trigger] after[j]).signals.len() > 0 && after[j].signals[0] is Offer by {
                assert(held[j].signals.len() > 0);
            }
            assert forall|a: int, b: int| 0 <= a < b < after.len() implies (
            #[trigger] after[a]).sender != (#[trigger] after[b]).sender by {
                assert(after[a].sender == held[a].sender);
                assert(after[b].sender == held[b].sender);
            }
        }
    }
}

proof fn lemma_still_held_is_part(held: Seq<HeldPeer>, answerable: Seq<bool>, now: u64)
    ensures
        still_held(held, answerable, now).len() <= held.len(),
        forall|i: int|
            0 <= i < still_held(held, answerable, now).len() ==> held.contains(
                #[trigger] still_held(held, answerable, now)[i],
            ),
        is_bounded(held) ==> is_bounded(still_held(held, answerable, now)),
    decreases held.len(),
{
    if held.len() > 0 {
        lemma_still_held_is_part(held.drop_last(), answerable, now);
        let before = still_held(held.drop_last(), answerable, now);
        let after = still_held(held, answerable, now);
        assert forall|i: int| 0 <= i < after.len() implies held.contains(#[trigger] after[i]) by {
            if i < before.len() {
                assert(after[i] == before[i]);
                let k = choose|k: int|
                    0 <= k < held.drop_last().len() && held.drop_last()[k] == before[i];
                assert(held[k] == after[i]);
            } else {
                assert(held[held.len() - 1] == after[i]);
            }
        }
        if is_bounded(held) {
            assert(is_bounded(held.drop_last())) by {
                assert forall|i: int| 0 <= i < held.drop_last().len() implies (
                #[trigger] held.drop_last()[i]).signals.len() > 0
                    && held.drop_last()[i].signals[0] is Offer by {
                    assert(held.drop_last()[i] == held[i]);
                }
                assert forall|i: int, j: int| 0 <= i < j < held.drop_last().len() implies (
                #[trigger] held.drop_last()[i]).sender != (
                #[trigger] held.drop_last()[j]).sender by {
                    assert(held.drop_last()[i] == held[i] && held.drop_last()[j] == held[j]);
                }
            }
            assert forall|i: int, j: int| 0 <= i < j < after.len() implies (
            #[trigger] after[i]).sender != (#[trigger] after[j]).sender by {
                if j >= before.len() {
                    assert(after[i] == before[i] && after[j] == held.last());
                    let k = choose|k: int|
                        0 <= k < held.drop_last().len() && held.drop_last()[k] == before[i];
                    assert(held[k] == after[i]);
                }
            }
            assert forall|i: int| 0 <= i < after.len() implies (#[trigger] after[i]).signals.len()
                > 0 && after[i].signals[0] is Offer by {
                let k = choose|k: int| 0 <= k < held.len() && held[k] == after[i];
            }
        }
    }
}

impl DeferredSignals {
    /// Nothing is held.
    pub fn new() -> (deferred: Self)
        ensures
            deferred@ == Seq::<HeldPeer>::empty(),
            is_bounded(deferred@),
    {
        let deferred = DeferredSignals { held: Vec::new() };
        assert(deferred@ =~= Seq::<HeldPeer>::empty());
        deferred
    }

    /// Where the signals of `sender` are held.
    fn position(&self, sender: u128) -> (position: Option<usize>)
        ensures
            match position {
                Some(i) => is_first_of(self@, i as int, sender),
                None => is_free(self@, sender),
            },
    {
        let mut i: usize = 0;
        while i < self.held.len()
            invariant
                i <= self.held@.len(),
                is_free(self@.take(i as int), sender),
            decreases self.held.len() - i,
        {
            assert(self@[i as int] == self.held@[i as int]@);
            if self.held[i].sender == sender {
                return Some(i);
            }
            proof {
                assert forall|j: int| 0 <= j < self@.take(i + 1).len() implies (
                #[trigger] self@.take(i + 1)[j]).sender != sender by {
                    if j < i {
                        assert(self@.take(i as int)[j] == self@.take(i + 1)[j]);
                    }
                }
            }
            i += 1;
        }
        assert(self@.take(i as int) =~= self@);
        None
    }

    /// Route one signal as it arrives: returned if it is to be applied now, kept or dropped if
    /// not. `answerable` is whether an offer from `sender` would be accepted this frame.
    pub fn take_in(&mut self, sender: u128, signal: PeerSignal, answerable: bool, now: u64) -> (apply:
        Option<PeerSignal>)
        ensures
            (final(self)@, apply) == admitted(old(self)@, sender, signal, answerable, now),
            is_bounded(old(self)@) ==> is_bounded(final(self)@),
    {
        proof {
            lemma_admitted_is_bounded(self@, sender, signal, answerable, now);
        }
        if let Some(i) = self.position(sender) {
            proof {
                lemma_first_is_unique(self@, i as int, sender);
            }
            self.held[i].signals.push(signal);
            assert(self@ =~= admitted(old(self)@, sender, signal, answerable, now).0);
            return None;
        }
        // An offer is the one signal that creates a connection; the others only apply to one
        // that exists, and the socket already discards those for unknown peers. So the trust
        // decision is made here, once, on the offer.
        let is_offer: bool = match &signal {
            PeerSignal::Offer(_) => true,
            _ => false,
        };
        if answerable || !is_offer {
            return Some(signal);
        }
        if self.held.len() >= MAX_DEFERRED_OFFERS {
            return None;
        }
        let mut signals: Vec<PeerSignal> = Vec::new();
        signals.push(signal);
        self.held.push(DeferredPeer { sender, since: now, signals });
        assert(self@ =~= old(self)@.push(HeldPeer { sender, since: now, signals: seq![signal] }));
        None
    }

    /// Everything held from peers that can now be answered, in the order it arrived. A peer held
    /// past [`DEFERRED_OFFER_TIMEOUT`] is dropped with its signals.
    pub fn release<F: Fn(u128) -> bool>(&mut self, answerable: F, now: u64) -> (released: Vec<
        (u128, PeerSignal),
    >)
        requires
            forall|sender: u128| call_requires(answerable, (sender,)),
        ensures
            exists|answers: Seq<bool>|
                {
                    &&& answers.len() == old(self)@.len()
                    &&& forall|i: int|
                        0 <= i < answers.len() ==> call_ensures(
                            answerable,
                            ((#[trigger] old(self)@[i]).sender,),
                            answers[i],
                        )
                    &&& released@ == let_go(old(self)@, answers)
                    &&& final(self)@ == #[trigger] still_held(old(self)@, answers, now)
                },
            is_bounded(old(self)@) ==> is_bounded(final(self)@),
    {
        let mut released: Vec<(u128, PeerSignal)> = Vec::new();
        let mut held: Vec<DeferredPeer> = Vec::new();
        std::mem::swap(&mut held, &mut self.held);
        let ghost before = old(self)@;
        let ghost mut answers: Seq<bool> = Seq::empty();
        assert(self@ =~= Seq::<HeldPeer>::empty());
        assert(before.take(0) =~= Seq::<HeldPeer>::empty());
        for peer in iter: held
            invariant
                iter.seq() == old(self).held@,
                before == old(self)@,
                before.len() == iter.seq().len(),
                forall|sender: u128| call_requires(answerable, (sender,)),
                answers.len() == iter.index(),
                forall|i: int|
                    0 <= i < answers.len() ==> call_ensures(
                        answerable,
                        ((#[trigger] before[i]).sender,),
                        answers[i],
                    ),
                released@ == let_go(before.take(iter.index() as int), answers),
                self@ == still_held(before.take(iter.index() as int), answers, now),
        {
            let ghost i = iter.index() as int;
            let sender: u128 = peer.sender;
            let answer: bool = answerable(sender);
            proof {
                assert(peer@ == before[i]);
                assert(before.take(i + 1).drop_last() =~= before.take(i));
                lemma_answers_extend(before.take(i), answers, answer, now);
                answers = answers.push(answer);
            }
            let ghost kept = self@;
            if answer {
                let ghost gone = released@;
                for signal in inner: peer.signals
                    invariant
                        inner.seq() == before[i].signals,
                        released@ == gone + sent_by(
                            sender,
                            before[i].signals.take(inner.index() as int),
                        ),
                {
                    released.push((sender, signal));
                    assert(released@ =~= gone + sent_by(
                        sender,
                        before[i].signals.take(inner.index() + 1),
                    ));
                }
                assert(before[i].signals.take(before[i].signals.len() as int)
                    =~= before[i].signals);
            } else if now < peer.since || now - peer.since < DEFERRED_OFFER_TIMEOUT {
                let ghost this = peer@;
                self.held.push(peer);
                assert(self@ =~= kept.push(this));
            }
        }
        proof {
            assert(before.take(before.len() as int) =~= before);
            lemma_still_held_is_part(before, answers, now);
            assert(self@ == still_held(old(self)@, answers, now));
        }
        released
    }
}

/// Which held peers are answered by a peer of this role, whose host is `host`.
pub open spec fn answered(held: Seq<HeldPeer>, role: PeerRole, host: Option<u128>) -> Seq<bool> {
    held.map_values(|peer: HeldPeer| trust::answers(role, host, peer.sender))
}

/// The socket after `signals`, in order, and what is to be done with each.
pub open spec fn all_received(socket: SocketView, signals: Seq<(u128, PeerSignal)>) -> (
    SocketView,
    Seq<(u128, SignalAction)>,
)
    decreases signals.len(),
{
    if signals.len() == 0 {
        (socket, Seq::empty())
    } else {
        let (before, actions) = all_received(socket, signals.drop_last());
        let (sender, signal) = signals.last();
        let (after, action) = before.received(sender, signal);
        (after, actions.push((sender, action)))
    }
}

/// What is held after `incoming`, in order, and what of it is to be applied now.
pub open spec fn all_admitted(
    held: Seq<HeldPeer>,
    incoming: Seq<(u128, PeerSignal)>,
    role: PeerRole,
    host: Option<u128>,
    now: u64,
) -> (Seq<HeldPeer>, Seq<(u128, PeerSignal)>)
    decreases incoming.len(),
{
    if incoming.len() == 0 {
        (held, Seq::empty())
    } else {
        let (before, applied) = all_admitted(held, incoming.drop_last(), role, host, now);
        let (sender, signal) = incoming.last();
        let (after, apply) = admitted(
            before,
            sender,
            signal,
            trust::answers(role, host, sender),
            now,
        );
        (
            after,
            match apply {
                Some(signal) => applied.push((sender, signal)),
                None => applied,
            },
        )
    }
}

/// What is held and what the socket is after the signals of a frame, and what is to be done: first
/// with what was held and can be answered now, then with what arrived.
pub open spec fn pumped(
    held: Seq<HeldPeer>,
    socket: SocketView,
    role: PeerRole,
    host: Option<u128>,
    incoming: Seq<(u128, PeerSignal)>,
    now: u64,
) -> (Seq<HeldPeer>, SocketView, Seq<(u128, SignalAction)>) {
    let answers = answered(held, role, host);
    let (first, released) = all_received(socket, let_go(held, answers));
    let (rest, applied) = all_admitted(still_held(held, answers, now), incoming, role, host, now);
    let (second, arrived) = all_received(first, applied);
    (rest, second, released + arrived)
}

/// Each frame, hand the socket what was held and can be answered now, and then what arrived and
/// need not wait; what is to be done with each, in order.
pub fn pump_socket_signals(
    deferred: &mut DeferredSignals,
    socket: &mut EnsembleSocket,
    role: PeerRole,
    host: Option<u128>,
    incoming: Vec<(u128, PeerSignal)>,
    now: u64,
) -> (actions: Vec<(u128, SignalAction)>)
    ensures
        (final(deferred)@, final(socket)@, actions@) == pumped(
            old(deferred)@,
            old(socket)@,
            role,
            host,
            incoming@,
            now,
        ),
        is_bounded(old(deferred)@) ==> is_bounded(final(deferred)@),
{
    let ghost held = deferred@;
    let ghost before = socket@;
    let can_answer = |sender: u128| -> (answer: bool)
        ensures
            answer == trust::answers(role, host, sender),
        { accept_offer_from(role, host, sender) };
    let released = deferred.release(can_answer, now);
    let ghost rest = deferred@;
    let ghost list = released@;
    proof {
        let answers = choose|answers: Seq<bool>|
            {
                &&& answers.len() == held.len()
                &&& forall|i: int|
                    0 <= i < answers.len() ==> call_ensures(
                        can_answer,
                        ((#[trigger] held[i]).sender,),
                        answers[i],
                    )
                &&& released@ == let_go(held, answers)
                &&& rest == #[trigger] still_held(held, answers, now)
            };
        assert forall|i: int| 0 <= i < answers.len() implies answers[i] == #[trigger] answered(
            held,
            role,
            host,
        )[i] by {
            assert(call_ensures(can_answer, (held[i].sender,), answers[i]));
        }
        assert(answers =~= answered(held, role, host));
    }
    let mut actions: Vec<(u128, SignalAction)> = Vec::new();
    assert(list.take(0) =~= Seq::<(u128, PeerSignal)>::empty());
    for item in iter: released
        invariant
            iter.seq() == list,
            (socket@, actions@) == all_received(before, list.take(iter.index() as int)),
    {
        let (sender, signal) = item;
        proof {
            assert(list.take(iter.index() + 1).drop_last() =~= list.take(iter.index() as int));
        }
        let action = socket.receive_signal(sender, signal);
        actions.push((sender, action));
    }
    assert(list.take(list.len() as int) =~= list);
    let ghost first = actions@;
    let ghost between = socket@;
    let ghost mut applied: Seq<(u128, PeerSignal)> = Seq::empty();
    assert(incoming@.take(0) =~= Seq::<(u128, PeerSignal)>::empty());
    assert(actions@ =~= first + all_received(between, applied).1);
    let ghost arriving = incoming@;
    for item in iter: incoming
        invariant
            iter.seq() == arriving,
            is_bounded(held) ==> is_bounded(deferred@),
            (deferred@, applied) == all_admitted(
                rest,
                arriving.take(iter.index() as int),
                role,
                host,
                now,
            ),
            socket@ == all_received(between, applied).0,
            actions@ == first + all_received(between, applied).1,
    {
        let (sender, signal) = item;
        proof {
            assert(arriving.take(iter.index() + 1).drop_last()
                =~= arriving.take(iter.index() as int));
        }
        let answerable = accept_offer_from(role, host, sender);
        let ghost so_far = actions@;
        if let Some(signal) = deferred.take_in(sender, signal, answerable, now) {
            let action = socket.receive_signal(sender, signal);
            actions.push((sender, action));
            proof {
                let ghost more = applied.push((sender, signal));
                assert(more.drop_last() =~= applied);
                applied = more;
                assert(actions@ =~= first + all_received(between, applied).1);
            }
        }
    }
    assert(arriving.take(arriving.len() as int) =~= arriving);
    actions
}

proof fn lemma_answers_extend(held: Seq<HeldPeer>, answers: Seq<bool>, answer: bool, now: u64)
    requires
        answers.len() >= held.len(),
    ensures
        let_go(held, answers.push(answer)) == let_go(held, answers),
        still_held(held, answers.push(answer), now) == still_held(held, answers, now),
    decreases held.len(),
{
    if held.len() > 0 {
        lemma_answers_extend(held.drop_last(), answers, answer, now);
    }
}

/// A list of signals that `sender` sent.
pub open spec fn from_sender(sender: u128) -> spec_fn((u128, PeerSignal)) -> bool {
    |sent: (u128, PeerSignal)| sent.0 == sender
}

/// What was held of a peer that can be answered is let go of, in the order it arrived and with
/// nothing of it missing.
pub proof fn law_released_in_the_order_of_arrival(held: Seq<HeldPeer>, answers: Seq<bool>, i: int)
    requires
        is_bounded(held),
        answers.len() == held.len(),
        0 <= i < held.len(),
        answers[i],
    ensures
        let_go(held, answers).filter(from_sender(held[i].sender)) == sent_by(
            held[i].sender,
            held[i].signals,
        ),
{
    lemma_let_go_of_one(held, answers, i);
}

proof fn lemma_bounded_before_the_last(held: Seq<HeldPeer>)
    requires
        is_bounded(held),
        held.len() > 0,
    ensures
        is_bounded(held.drop_last()),
        is_free(held.drop_last(), held.last().sender),
{
    let before = held.drop_last();
    assert forall|i: int| 0 <= i < before.len() implies (#[trigger] before[i]).signals.len() > 0
        && before[i].signals[0] is Offer by {
        assert(before[i] == held[i]);
    }
    assert forall|i: int, j: int| 0 <= i < j < before.len() implies (
    #[trigger] before[i]).sender != (#[trigger] before[j]).sender by {
        assert(before[i] == held[i] && before[j] == held[j]);
    }
    assert forall|i: int| 0 <= i < before.len() implies (#[trigger] before[i]).sender
        != held.last().sender by {
        assert(before[i] == held[i]);
        assert(held[held.len() - 1] == held.last());
    }
}

proof fn lemma_filter_sent(sender: u128, signals: Seq<PeerSignal>, of: u128)
    ensures
        sent_by(sender, signals).filter(from_sender(of)) == if of == sender {
            sent_by(sender, signals)
        } else {
            Seq::empty()
        },
    decreases signals.len(),
{
    reveal(Seq::filter);
    let sent = sent_by(sender, signals);
    if signals.len() > 0 {
        lemma_filter_sent(sender, signals.drop_last(), of);
        assert(sent.drop_last() =~= sent_by(sender, signals.drop_last()));
        assert(sent =~= sent_by(sender, signals.drop_last()).push(sent.last()));
    } else {
        assert(sent =~= Seq::empty());
    }
}

proof fn lemma_none_let_go(held: Seq<HeldPeer>, answers: Seq<bool>, sender: u128)
    requires
        is_free(held, sender),
        answers.len() >= held.len(),
    ensures
        let_go(held, answers).filter(from_sender(sender)) == Seq::<(u128, PeerSignal)>::empty(),
    decreases held.len(),
{
    reveal(Seq::filter);
    if held.len() > 0 {
        let before = held.drop_last();
        assert forall|i: int| 0 <= i < before.len() implies (
        #[trigger] before[i]).sender != sender by {
            assert(before[i] == held[i]);
        }
        assert(held[held.len() - 1].sender != sender);
        lemma_none_let_go(before, answers, sender);
        lemma_filter_sent(held.last().sender, held.last().signals, sender);
        Seq::filter_distributes_over_add(
            let_go(before, answers),
            sent_by(held.last().sender, held.last().signals),
            from_sender(sender),
        );
    }
}

proof fn lemma_let_go_of_one(held: Seq<HeldPeer>, answers: Seq<bool>, i: int)
    requires
        is_bounded(held),
        answers.len() >= held.len(),
        0 <= i < held.len(),
        answers[i],
    ensures
        let_go(held, answers).filter(from_sender(held[i].sender)) == sent_by(
            held[i].sender,
            held[i].signals,
        ),
    decreases held.len(),
{
    let before = held.drop_last();
    let sender = held[i].sender;
    lemma_bounded_before_the_last(held);
    lemma_filter_sent(held.last().sender, held.last().signals, sender);
    Seq::filter_distributes_over_add(
        let_go(before, answers),
        sent_by(held.last().sender, held.last().signals),
        from_sender(sender),
    );
    if i == held.len() - 1 {
        lemma_none_let_go(before, answers, sender);
        assert(let_go(held, answers).filter(from_sender(sender)) =~= sent_by(
            held[i].sender,
            held[i].signals,
        ));
    } else {
        assert(before[i] == held[i]);
        assert(held[held.len() - 1].sender != sender);
        lemma_let_go_of_one(before, answers, i);
        assert(let_go(held, answers).filter(from_sender(sender)) =~= sent_by(
            held[i].sender,
            held[i].signals,
        ));
    }
}

/// What was let go of is no longer held: it is applied once.
pub proof fn law_released_once(held: Seq<HeldPeer>, answers: Seq<bool>, now: u64, i: int)
    requires
        is_bounded(held),
        answers.len() == held.len(),
        0 <= i < held.len(),
        answers[i],
    ensures
        is_free(still_held(held, answers, now), held[i].sender),
{
    lemma_released_is_free(held, answers, now, i);
}

proof fn lemma_released_is_free(held: Seq<HeldPeer>, answers: Seq<bool>, now: u64, i: int)
    requires
        is_bounded(held),
        answers.len() >= held.len(),
        0 <= i < held.len(),
        answers[i],
    ensures
        is_free(still_held(held, answers, now), held[i].sender),
    decreases held.len(),
{
    let before = held.drop_last();
    let sender = held[i].sender;
    lemma_bounded_before_the_last(held);
    lemma_still_held_is_part(before, answers, now);
    if i == held.len() - 1 {
        assert forall|j: int| 0 <= j < still_held(before, answers, now).len() implies (
        #[trigger] still_held(before, answers, now)[j]).sender != sender by {
            let k = choose|k: int|
                0 <= k < before.len() && before[k] == still_held(before, answers, now)[j];
            assert(before[k].sender != sender);
        }
    } else {
        assert(before[i] == held[i]);
        lemma_released_is_free(before, answers, now, i);
        assert(held[held.len() - 1].sender != sender);
    }
}

/// Nothing is held past [`DEFERRED_OFFER_TIMEOUT`], and what is not answered is held until then.
pub proof fn law_held_until_it_expires(held: Seq<HeldPeer>, answers: Seq<bool>, now: u64)
    requires
        answers.len() == held.len(),
    ensures
        forall|j: int|
            0 <= j < still_held(held, answers, now).len() ==> now - (#[trigger] still_held(
                held,
                answers,
                now,
            )[j]).since < DEFERRED_OFFER_TIMEOUT,
        forall|i: int|
            0 <= i < held.len() && !answers[i] && now - (#[trigger] held[i]).since
                < DEFERRED_OFFER_TIMEOUT ==> still_held(held, answers, now).contains(held[i]),
{
    lemma_held_until_it_expires(held, answers, now);
}

proof fn lemma_held_until_it_expires(held: Seq<HeldPeer>, answers: Seq<bool>, now: u64)
    requires
        answers.len() >= held.len(),
    ensures
        forall|j: int|
            0 <= j < still_held(held, answers, now).len() ==> now - (#[trigger] still_held(
                held,
                answers,
                now,
            )[j]).since < DEFERRED_OFFER_TIMEOUT,
        forall|i: int|
            0 <= i < held.len() && !answers[i] && now - (#[trigger] held[i]).since
                < DEFERRED_OFFER_TIMEOUT ==> still_held(held, answers, now).contains(held[i]),
    decreases held.len(),
{
    if held.len() > 0 {
        let before = still_held(held.drop_last(), answers, now);
        let after = still_held(held, answers, now);
        lemma_held_until_it_expires(held.drop_last(), answers, now);
        assert forall|i: int|
            0 <= i < held.len() && !answers[i] && now - (#[trigger] held[i]).since
                < DEFERRED_OFFER_TIMEOUT implies after.contains(held[i]) by {
            if i < held.len() - 1 {
                assert(held.drop_last()[i] == held[i]);
                let k = choose|k: int| 0 <= k < before.len() && before[k] == held[i];
                assert(after[k] == held[i]);
            } else {
                assert(after[after.len() - 1] == held[i]);
            }
        }
    }
}

/// No connection is opened by an offer from anybody but the host: whatever arrives, the peers the
/// socket knows afterwards and did not know before are answered ones.
pub proof fn law_only_the_host_opens_a_connection(
    held: Seq<HeldPeer>,
    socket: SocketView,
    role: PeerRole,
    host: Option<u128>,
    incoming: Seq<(u128, PeerSignal)>,
    now: u64,
    peer: u128,
)
    requires
        !socket.peers.contains_key(peer),
        pumped(held, socket, role, host, incoming, now).1.peers.contains_key(peer),
    ensures
        trust::answers(role, host, peer),
{
    let answers = answered(held, role, host);
    lemma_let_go_is_answered(held, answers, role, host);
    lemma_applied_offers_are_answered(
        still_held(held, answers, now),
        incoming,
        role,
        host,
        now,
    );
    let released = let_go(held, answers);
    let applied = all_admitted(still_held(held, answers, now), incoming, role, host, now).1;
    let first = all_received(socket, released).0;
    if !trust::answers(role, host, peer) {
        lemma_only_offers_open(socket, released, peer);
        lemma_only_offers_open(first, applied, peer);
    }
}

/// Whether an offer among `signals` is from `peer`.
pub open spec fn offered_by(signals: Seq<(u128, PeerSignal)>, peer: u128) -> bool {
    exists|i: int|
        0 <= i < signals.len() && (#[trigger] signals[i]).0 == peer && signals[i].1 is Offer
}

proof fn lemma_only_offers_open(
    socket: SocketView,
    signals: Seq<(u128, PeerSignal)>,
    peer: u128,
)
    requires
        !socket.peers.contains_key(peer),
        !offered_by(signals, peer),
    ensures
        !all_received(socket, signals).0.peers.contains_key(peer),
    decreases signals.len(),
{
    if signals.len() > 0 {
        let before = signals.drop_last();
        assert forall|i: int| 0 <= i < before.len() implies !((#[trigger] before[i]).0 == peer
            && before[i].1 is Offer) by {
            assert(before[i] == signals[i]);
        }
        lemma_only_offers_open(socket, before, peer);
        let last = signals[signals.len() - 1];
        assert(!(last.0 == peer && last.1 is Offer));
    }
}

proof fn lemma_let_go_is_answered(
    held: Seq<HeldPeer>,
    answers: Seq<bool>,
    role: PeerRole,
    host: Option<u128>,
)
    requires
        answers.len() >= held.len(),
        forall|i: int|
            0 <= i < held.len() ==> #[trigger] answers[i] == trust::answers(
                role,
                host,
                held[i].sender,
            ),
    ensures
        forall|i: int|
            0 <= i < let_go(held, answers).len() ==> trust::answers(
                role,
                host,
                (#[trigger] let_go(held, answers)[i]).0,
            ),
    decreases held.len(),
{
    if held.len() > 0 {
        let before = held.drop_last();
        assert forall|i: int| 0 <= i < before.len() implies #[trigger] answers[i]
            == trust::answers(role, host, before[i].sender) by {
            assert(before[i] == held[i]);
        }
        lemma_let_go_is_answered(before, answers, role, host);
        assert(answers[held.len() - 1] == trust::answers(role, host, held.last().sender));
        let first = let_go(before, answers);
        let all = let_go(held, answers);
        assert forall|i: int| 0 <= i < all.len() implies trust::answers(
            role,
            host,
            (#[trigger] all[i]).0,
        ) by {
            if i < first.len() {
                assert(all[i] == first[i]);
            } else {
                assert(all[i] == sent_by(held.last().sender, held.last().signals)[i
                    - first.len()]);
            }
        }
    }
}

proof fn lemma_applied_offers_are_answered(
    held: Seq<HeldPeer>,
    incoming: Seq<(u128, PeerSignal)>,
    role: PeerRole,
    host: Option<u128>,
    now: u64,
)
    ensures
        forall|i: int|
            0 <= i < all_admitted(held, incoming, role, host, now).1.len() ==> ((
            #[trigger] all_admitted(held, incoming, role, host, now).1[i]).1 is Offer
                ==> trust::answers(
                role,
                host,
                all_admitted(held, incoming, role, host, now).1[i].0,
            )),
    decreases incoming.len(),
{
    if incoming.len() > 0 {
        lemma_applied_offers_are_answered(held, incoming.drop_last(), role, host, now);
    }
}

/// A signal from a peer of whom nothing is held is applied at once, unless it is an offer that
/// cannot be answered yet. Such an offer is held from then on, while fewer than eight peers are,
/// and dropped else; and every later signal from a held peer waits behind it, answerable or not.
/// What is held of anybody else stays.
pub proof fn law_a_signal_waits_behind_its_offer(
    held: Seq<HeldPeer>,
    sender: u128,
    signal: PeerSignal,
    answerable: bool,
    now: u64,
    i: int,
)
    ensures
        ({
            let (after, apply) = admitted(held, sender, signal, answerable, now);
            let free = forall|j: int|
                0 <= j < held.len() ==> (#[trigger] held[j]).sender != sender;
            &&& free && (answerable || signal !is Offer) ==> apply == Some(signal) && after == held
            &&& free && !answerable && signal is Offer ==> {
                &&& apply is None
                &&& held.len() < 8 ==> {
                    &&& after.len() == held.len() + 1
                    &&& after.take(held.len() as int) == held
                    &&& after.last().sender == sender
                    &&& after.last().since == now
                    &&& after.last().signals == seq![signal]
                }
                &&& held.len() >= 8 ==> after == held
            }
            &&& is_bounded(held) && 0 <= i < held.len() && held[i].sender == sender ==> {
                &&& apply is None
                &&& after.len() == held.len()
                &&& after[i].signals == held[i].signals.push(signal)
                &&& after[i].sender == sender && after[i].since == held[i].since
                &&& forall|j: int|
                    0 <= j < held.len() && j != i ==> #[trigger] after[j] == held[j]
            }
        }),
{
    if is_bounded(held) && 0 <= i < held.len() && held[i].sender == sender {
        assert forall|j: int| 0 <= j < held.take(i).len() implies (
        #[trigger] held.take(i)[j]).sender != sender by {
            assert(held.take(i)[j] == held[j]);
        }
        assert(is_first_of(held, i, sender));
        lemma_first_is_unique(held, i, sender);
    } else if is_free(held, sender) {
        let pushed = held.push(HeldPeer { sender, since: now, signals: seq![signal] });
        assert(pushed.take(held.len() as int) =~= held);
    }
}

/// What is held two seconds after its offer came is dropped, and what is let go of is what its
/// sender sent, of peers that can be answered, and of nobody else.
pub proof fn law_nothing_waits_longer_than_two_seconds(
    held: Seq<HeldPeer>,
    answers: Seq<bool>,
    now: u64,
)
    requires
        answers.len() == held.len(),
    ensures
        forall|j: int|
            0 <= j < still_held(held, answers, now).len() ==> now - (#[trigger] still_held(
                held,
                answers,
                now,
            )[j]).since < 2_000_000_000,
        forall|i: int|
            0 <= i < held.len() && !answers[i] && now - (#[trigger] held[i]).since < 2_000_000_000
                ==> still_held(held, answers, now).contains(held[i]),
        forall|k: int|
            0 <= k < let_go(held, answers).len() ==> was_held_of_an_answered_peer(
                held,
                answers,
                #[trigger] let_go(held, answers)[k],
            ),
{
    lemma_held_until_it_expires(held, answers, now);
    lemma_let_go_was_held(held, answers);
}

/// Whether a signal is one that is held of a peer that can be answered.
pub open spec fn was_held_of_an_answered_peer(
    held: Seq<HeldPeer>,
    answers: Seq<bool>,
    sent: (u128, PeerSignal),
) -> bool {
    exists|i: int|
        0 <= i < held.len() && answers[i] && (#[trigger] held[i]).sender == sent.0
            && held[i].signals.contains(sent.1)
}

proof fn lemma_let_go_was_held(held: Seq<HeldPeer>, answers: Seq<bool>)
    requires
        answers.len() >= held.len(),
    ensures
        forall|k: int|
            0 <= k < let_go(held, answers).len() ==> was_held_of_an_answered_peer(
                held,
                answers,
                #[trigger] let_go(held, answers)[k],
            ),
    decreases held.len(),
{
    if held.len() > 0 {
        let before = held.drop_last();
        lemma_let_go_was_held(before, answers);
        let first = let_go(before, answers);
        let all = let_go(held, answers);
        assert forall|k: int| 0 <= k < all.len() implies was_held_of_an_answered_peer(
            held,
            answers,
            #[trigger] all[k],
        ) by {
            if k < first.len() {
                assert(all[k] == first[k]);
                let i = choose|i: int|
                    0 <= i < before.len() && answers[i] && (#[trigger] before[i]).sender
                        == first[k].0 && before[i].signals.contains(first[k].1);
                assert(held[i] == before[i]);
            } else {
                assert(all[k] == sent_by(held.last().sender, held.last().signals)[k
                    - first.len()]);
                let i = held.len() - 1;
                assert(held[i].signals[k - first.len()] == all[k].1);
                assert(held[i].sender == all[k].0);
            }
        }
    }
}

/// Signals are given to the socket in turn, each as the socket is once it has had those before.
pub proof fn law_signals_reach_the_socket_in_turn(
    socket: SocketView,
    first: Seq<(u128, PeerSignal)>,
    sender: u128,
    signal: PeerSignal,
)
    ensures
        ({
            let (between, earlier) = all_received(socket, first);
            let (after, action) = between.received(sender, signal);
            &&& all_received(socket, first.push((sender, signal))) == (
                after,
                earlier.push((sender, action)),
            )
            &&& all_received(socket, Seq::empty()) == (
                socket,
                Seq::<(u128, SignalAction)>::empty(),
            )
        }),
{
    assert(first.push((sender, signal)).drop_last() =~= first);
}

proof fn lemma_let_go_of_the_host(
    held: Seq<HeldPeer>,
    answers: Seq<bool>,
    i: int,
    upto: int,
)
    requires
        is_bounded(held),
        answers.len() == held.len(),
        0 <= i < held.len(),
        0 <= upto <= held.len(),
        forall|j: int| 0 <= j < held.len() ==> #[trigger] answers[j] == (held[j].sender
            == held[i].sender),
    ensures
        let_go(held.take(upto), answers) == if i < upto {
            sent_by(held[i].sender, held[i].signals)
        } else {
            Seq::empty()
        },
    decreases upto,
{
    if upto > 0 {
        lemma_let_go_of_the_host(held, answers, i, upto - 1);
        assert(held.take(upto).drop_last() =~= held.take(upto - 1));
        assert(held.take(upto).last() == held[upto - 1]);
        assert(answers[upto - 1] == (held[upto - 1].sender == held[i].sender));
        assert(held[upto - 1].sender == held[i].sender ==> upto - 1 == i);
        assert(Seq::<(u128, PeerSignal)>::empty() + sent_by(held[i].sender, held[i].signals)
            =~= sent_by(held[i].sender, held[i].signals));
    }
}

/// Once a guest knows its host, what it held of the host is given to the socket, in the order it
/// came and before anything that has arrived since; and of the host nothing is held any longer.
pub proof fn law_what_the_host_sent_is_not_lost(
    held: Seq<HeldPeer>,
    socket: SocketView,
    host: u128,
    incoming: Seq<(u128, PeerSignal)>,
    now: u64,
    i: int,
)
    requires
        is_bounded(held),
        0 <= i < held.len(),
        held[i].sender == host,
    ensures
        ({
            let actions = pumped(held, socket, PeerRole::Client, Some(host), incoming, now).2;
            let waited = Seq::new(held[i].signals.len(), |k: int| (host, held[i].signals[k]));
            &&& actions.len() >= waited.len()
            &&& actions.take(waited.len() as int) == all_received(socket, waited).1
        }),
        is_free(
            pumped(held, socket, PeerRole::Client, Some(host), Seq::empty(), now).0,
            host,
        ),
{
    let answers = answered(held, PeerRole::Client, Some(host));
    lemma_let_go_of_the_host(held, answers, i, held.len() as int);
    assert(held.take(held.len() as int) =~= held);
    let waited = Seq::new(held[i].signals.len(), |k: int| (host, held[i].signals[k]));
    assert(sent_by(host, held[i].signals) =~= waited);
    lemma_received_each(socket, waited);
    let actions = pumped(held, socket, PeerRole::Client, Some(host), incoming, now).2;
    assert(actions.take(waited.len() as int) =~= all_received(socket, waited).1);
    lemma_released_is_free(held, answers, now, i);
}

proof fn lemma_received_each(socket: SocketView, signals: Seq<(u128, PeerSignal)>)
    ensures
        all_received(socket, signals).1.len() == signals.len(),
    decreases signals.len(),
{
    if signals.len() > 0 {
        lemma_received_each(socket, signals.drop_last());
    }
}

/// What the host sends a guest that holds nothing of it reaches the socket in the frame in which
/// it arrives; an offer of anybody else does not.
pub proof fn law_the_host_is_answered_at_once(
    held: Seq<HeldPeer>,
    socket: SocketView,
    host: u128,
    sender: u128,
    signal: PeerSignal,
    now: u64,
)
    requires
        is_free(held, host),
        is_free(held, sender),
    ensures
        ({
            let (rest, after, actions) = pumped(
                held,
                socket,
                PeerRole::Client,
                Some(host),
                seq![(sender, signal)],
                now,
            );
            let (applied, action) = socket.received(sender, signal);
            if sender == host || signal !is Offer {
                actions == seq![(sender, action)] && after == applied
            } else {
                actions.len() == 0 && after == socket
            }
        }),
{
    let answers = answered(held, PeerRole::Client, Some(host));
    lemma_nothing_let_go(held, answers);
    lemma_still_held_is_part(held, answers, now);
    let kept = still_held(held, answers, now);
    assert forall|j: int| 0 <= j < kept.len() implies (#[trigger] kept[j]).sender != sender by {
        assert(held.contains(kept[j]));
        let k = choose|k: int| 0 <= k < held.len() && held[k] == kept[j];
        assert(held[k].sender != sender);
    }
    reveal_with_fuel(all_received, 2);
    reveal_with_fuel(all_admitted, 2);
    let incoming = seq![(sender, signal)];
    assert(incoming.drop_last() =~= Seq::<(u128, PeerSignal)>::empty());
    let applied = all_admitted(kept, incoming, PeerRole::Client, Some(host), now).1;
    if sender == host || signal !is Offer {
        assert(applied =~= incoming);
    } else {
        assert(applied =~= Seq::empty());
    }
    let none = Seq::<(u128, SignalAction)>::empty();
    let action = socket.received(sender, signal).1;
    assert(none + none =~= none);
    assert(none + none.push((sender, action)) =~= seq![(sender, action)]);
}

proof fn lemma_nothing_let_go(held: Seq<HeldPeer>, answers: Seq<bool>)
    requires
        answers.len() >= held.len(),
        forall|j: int| 0 <= j < held.len() ==> !#[trigger] answers[j],
    ensures
        let_go(held, answers) == Seq::<(u128, PeerSignal)>::empty(),
    decreases held.len(),
{
    if held.len() > 0 {
        lemma_nothing_let_go(held.drop_last(), answers);
        assert(!answers[held.len() - 1]);
    }
}

/// Signals are taken in in turn, each against what is held once those before it were.
pub proof fn law_signals_are_taken_in_turn(
    held: Seq<HeldPeer>,
    earlier: Seq<(u128, PeerSignal)>,
    sender: u128,
    signal: PeerSignal,
    role: PeerRole,
    host: Option<u128>,
    now: u64,
)
    ensures
        ({
            let (before, applied) = all_admitted(held, earlier, role, host, now);
            let answerable = role == PeerRole::Client && host == Some(sender);
            let (after, apply) = admitted(before, sender, signal, answerable, now);
            let all = all_admitted(held, earlier.push((sender, signal)), role, host, now);
            &&& all.0 == after
            &&& apply is Some ==> all.1 == applied.push((sender, apply->0))
            &&& apply is None ==> all.1 == applied
            &&& all_admitted(held, Seq::empty(), role, host, now) == (
                held,
                Seq::<(u128, PeerSignal)>::empty(),
            )
        }),
{
    assert(earlier.push((sender, signal)).drop_last() =~= earlier);
}

} // verus!
