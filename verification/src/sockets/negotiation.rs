//! The conversation that sets a connection up, one step at a time.
//!
//! Signalling is an ordered conversation — an offer, then the candidates that refine it — and
//! applying two of its steps concurrently loses information. So there is one worker per peer,
//! which takes the peer's signals strictly in the order they arrived, does what [`Negotiation`]
//! says with each, and takes the next only when it is idle again. [`Offering`] is the same for the
//! offer this side makes.

use vstd::prelude::*;

use super::signal::PeerSignal;

verus! {

/// Where one peer's signals stand.
#[derive(Debug, PartialEq, Eq)]
pub enum Negotiation {
    /// The next signal can be taken.
    Idle,
    /// The peer's offer is being applied.
    ApplyingOffer,
    /// The answer to it is being made.
    Answering,
    /// The answer is being applied on this side.
    ApplyingAnswer { sdp: String },
    /// The peer's answer is being applied.
    ApplyingRemoteAnswer,
    /// One of the peer's candidates is being applied.
    ApplyingCandidate,
}

/// What the worker does next.
#[derive(Debug, PartialEq, Eq)]
pub enum NegotiationStep {
    /// Apply the peer's offer; then [`Negotiation::on_applied`].
    ApplyOffer(String),
    /// Make an answer; then [`Negotiation::on_answer`].
    MakeAnswer,
    /// Apply this answer on this side; then [`Negotiation::on_applied`].
    ApplyAnswer(String),
    /// Send this answer to the peer, and take the next signal.
    SendAnswer(String),
    /// Apply the peer's answer; then [`Negotiation::on_applied`].
    ApplyRemoteAnswer(String),
    /// Apply the peer's candidate; then [`Negotiation::on_applied`].
    ApplyCandidate(String),
    /// Count a candidate that was refused, and take the next signal. It is an address the peer
    /// will not send again.
    CountDiscarded,
    /// Take the next signal.
    Next,
}

impl Negotiation {
    /// Whether this side's candidates are held back: an answer is on its way to being sent.
    ///
    /// Held from before the offer is applied: for a restart offer, that is what starts gathering,
    /// and the answer does not exist yet.
    pub open spec fn holds(self) -> bool {
        self is ApplyingOffer || self is Answering || self is ApplyingAnswer
    }

    /// Whether something is being applied.
    pub open spec fn applies(self) -> bool {
        !(self is Idle) && !(self is Answering)
    }

    /// Nothing has been taken yet.
    pub fn new() -> (negotiation: Self)
        ensures
            negotiation is Idle,
    {
        Negotiation::Idle
    }

    /// Whether this side's candidates are held back.
    pub fn is_holding(&self) -> (holding: bool)
        ensures
            holding == self.holds(),
    {
        match self {
            Negotiation::ApplyingOffer => true,
            Negotiation::Answering => true,
            Negotiation::ApplyingAnswer { .. } => true,
            _ => false,
        }
    }

    /// Where things stand, and what is done, once a signal is taken.
    pub open spec fn signalled(self, signal: PeerSignal) -> (Negotiation, NegotiationStep) {
        match signal {
            PeerSignal::Offer(sdp) => (
                Negotiation::ApplyingOffer,
                NegotiationStep::ApplyOffer(sdp),
            ),
            PeerSignal::Answer(sdp) => (
                Negotiation::ApplyingRemoteAnswer,
                NegotiationStep::ApplyRemoteAnswer(sdp),
            ),
            PeerSignal::IceCandidate(candidate) => (
                Negotiation::ApplyingCandidate,
                NegotiationStep::ApplyCandidate(candidate),
            ),
        }
    }

    /// Where things stand, and what is done, once what was being applied is, or was refused.
    pub open spec fn applied(self, ok: bool) -> (Negotiation, NegotiationStep) {
        match self {
            Negotiation::ApplyingOffer if ok => (
                Negotiation::Answering,
                NegotiationStep::MakeAnswer,
            ),
            Negotiation::ApplyingAnswer { sdp } if ok => (
                Negotiation::Idle,
                NegotiationStep::SendAnswer(sdp),
            ),
            Negotiation::ApplyingCandidate if !ok => (
                Negotiation::Idle,
                NegotiationStep::CountDiscarded,
            ),
            _ => (Negotiation::Idle, NegotiationStep::Next),
        }
    }

    /// Where things stand, and what is done, once the answer was made, or could not be.
    pub open spec fn answered(self, made: Option<String>) -> (Negotiation, NegotiationStep) {
        match made {
            Some(sdp) => (
                Negotiation::ApplyingAnswer { sdp },
                NegotiationStep::ApplyAnswer(sdp),
            ),
            None => (Negotiation::Idle, NegotiationStep::Next),
        }
    }

    /// Take the next signal.
    pub fn on_signal(&mut self, signal: PeerSignal) -> (step: NegotiationStep)
        requires
            *old(self) is Idle,
        ensures
            (*final(self), step) == old(self).signalled(signal),
    {
        match signal {
            PeerSignal::Offer(sdp) => {
                *self = Negotiation::ApplyingOffer;
                NegotiationStep::ApplyOffer(sdp)
            },
            PeerSignal::Answer(sdp) => {
                *self = Negotiation::ApplyingRemoteAnswer;
                NegotiationStep::ApplyRemoteAnswer(sdp)
            },
            PeerSignal::IceCandidate(candidate) => {
                *self = Negotiation::ApplyingCandidate;
                NegotiationStep::ApplyCandidate(candidate)
            },
        }
    }

    /// What was being applied is (`ok`), or was refused.
    pub fn on_applied(&mut self, ok: bool) -> (step: NegotiationStep)
        requires
            old(self).applies(),
        ensures
            (*final(self), step) == old(self).applied(ok),
    {
        let mut before = Negotiation::Idle;
        std::mem::swap(&mut before, self);
        match before {
            Negotiation::ApplyingOffer => {
                if ok {
                    *self = Negotiation::Answering;
                    NegotiationStep::MakeAnswer
                } else {
                    NegotiationStep::Next
                }
            },
            Negotiation::ApplyingAnswer { sdp } => {
                if ok {
                    NegotiationStep::SendAnswer(sdp)
                } else {
                    NegotiationStep::Next
                }
            },
            Negotiation::ApplyingCandidate => {
                if ok {
                    NegotiationStep::Next
                } else {
                    NegotiationStep::CountDiscarded
                }
            },
            _ => NegotiationStep::Next,
        }
    }

    /// The answer was made, or could not be.
    pub fn on_answer(&mut self, made: Option<String>) -> (step: NegotiationStep)
        requires
            *old(self) is Answering,
        ensures
            (*final(self), step) == old(self).answered(made),
    {
        match made {
            Some(sdp) => {
                let given = sdp.clone();
                *self = Negotiation::ApplyingAnswer { sdp };
                NegotiationStep::ApplyAnswer(given)
            },
            None => {
                *self = Negotiation::Idle;
                NegotiationStep::Next
            },
        }
    }
}

/// Where the offer that this side makes stands.
#[derive(Debug, PartialEq, Eq)]
pub enum Offering {
    /// It is being made. This side's candidates are held back until it is sent or given up.
    Making,
    /// It is being applied on this side.
    Applying { sdp: String },
    /// It is sent, or given up.
    Done,
}

impl Offering {
    /// An offer is being made.
    pub fn new() -> (offering: Self)
        ensures
            offering is Making,
    {
        Offering::Making
    }

    /// The offer was made, or could not be: what is to be applied on this side.
    pub fn on_made(&mut self, made: Option<String>) -> (apply: Option<String>)
        requires
            *old(self) is Making,
        ensures
            match made {
                Some(sdp) => {
                    &&& *final(self) matches Offering::Applying { sdp: kept }
                    &&& kept == sdp
                    &&& apply matches Some(given) && given@ == sdp@
                },
                None => *final(self) is Done && apply is None,
            },
    {
        match made {
            Some(sdp) => {
                let given = sdp.clone();
                *self = Offering::Applying { sdp };
                Some(given)
            },
            None => {
                *self = Offering::Done;
                None
            },
        }
    }

    /// The offer is applied on this side (`ok`), or was refused: what is to be sent to the peer.
    pub fn on_applied(&mut self, ok: bool) -> (send: Option<PeerSignal>)
        requires
            *old(self) is Applying,
        ensures
            *final(self) is Done,
            send == if ok {
                Some(PeerSignal::Offer(old(self)->sdp))
            } else {
                None
            },
    {
        let mut before = Offering::Done;
        std::mem::swap(&mut before, self);
        match before {
            Offering::Applying { sdp } => {
                if ok {
                    Some(PeerSignal::Offer(sdp))
                } else {
                    None
                }
            },
            _ => None,
        }
    }
}

/// An answer is sent exactly when the offer was applied, an answer was made, and that was applied
/// on this side too; it is the answer that was made. Whatever happens, the next signal can be
/// taken afterwards, and candidates are held back until then.
pub proof fn law_answers_only_what_was_applied(
    sdp: String,
    applied: bool,
    answer: Option<String>,
    answer_applied: bool,
)
    ensures
        ({
            let taken = Negotiation::Idle.signalled(PeerSignal::Offer(sdp));
            let offered = taken.0.applied(applied);
            let answered = offered.0.answered(answer);
            let finished = answered.0.applied(answer_applied);
            &&& taken.0.holds()
            &&& taken.1 == NegotiationStep::ApplyOffer(sdp)
            &&& !applied ==> offered.0 is Idle && offered.1 == NegotiationStep::Next
            &&& applied ==> offered.0.holds() && offered.1 == NegotiationStep::MakeAnswer
            &&& applied && answer is None ==> answered.0 is Idle && answered.1
                == NegotiationStep::Next
            &&& applied && answer is Some ==> {
                &&& answered.0.holds()
                &&& answered.1 == NegotiationStep::ApplyAnswer(answer->0)
                &&& finished.0 is Idle
                &&& finished.1 == if answer_applied {
                    NegotiationStep::SendAnswer(answer->0)
                } else {
                    NegotiationStep::Next
                }
            }
        }),
{
}

} // verus!
