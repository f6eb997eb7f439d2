//! Keeping candidates behind the descriptions they belong to.

use vstd::prelude::*;

use super::signal;

verus! {

/// Local candidates held back until the description they belong to has been sent.
///
/// The transport gathers as soon as it can, before the SDP that carries the credentials even
/// exists. A candidate can therefore come *before* the offer or answer it belongs to, and the far
/// side would apply it against the wrong description or none at all — either way the address is
/// lost.
///
/// So while an offer or answer is being made, candidates are held here, and released — in the
/// order they were gathered, behind the description — when it has been sent, or could not be made.
#[derive(Debug)]
pub struct CandidateGate {
    /// How many descriptions are being made.
    pub holds: u32,
    /// What was gathered meanwhile.
    pub held: Vec<String>,
}

/// The mathematical content of a [`CandidateGate`].
#[verifier::ext_equal]
pub struct GateView {
    pub holds: u32,
    pub held: Seq<Seq<char>>,
}

impl View for CandidateGate {
    type V = GateView;

    open spec fn view(&self) -> GateView {
        GateView { holds: self.holds, held: signal::text_views(self.held@) }
    }
}

impl GateView {
    /// What is held back once a candidate was gathered.
    pub open spec fn gathered(self, candidate: Seq<char>) -> GateView {
        if self.holds > 0 {
            GateView { held: self.held.push(candidate), ..self }
        } else {
            self
        }
    }

    /// What is held back once one of the descriptions being made is sent, or is not made after
    /// all.
    pub open spec fn released(self) -> GateView {
        GateView {
            holds: (self.holds - 1) as u32,
            held: if self.holds == 1 {
                Seq::empty()
            } else {
                self.held
            },
        }
    }
}

impl CandidateGate {
    /// A gate that holds nothing.
    pub fn new() -> (gate: Self)
        ensures
            gate@ == (GateView { holds: 0, held: Seq::empty() }),
    {
        let gate = CandidateGate { holds: 0, held: Vec::new() };
        assert(gate@.held =~= Seq::empty());
        gate
    }

    /// A description is being made.
    pub fn hold(&mut self)
        requires
            old(self).holds < u32::MAX,
        ensures
            final(self)@ == (GateView { holds: (old(self)@.holds + 1) as u32, ..old(self)@ }),
    {
        self.holds = self.holds + 1;
    }

    /// A candidate was gathered: send what is returned now, or nothing if a description is being
    /// made.
    pub fn send(&mut self, candidate: String) -> (now: Option<String>)
        ensures
            final(self)@ == old(self)@.gathered(candidate@),
            match now {
                Some(sent) => old(self)@.holds == 0 && sent@ == candidate@,
                None => old(self)@.holds > 0,
            },
    {
        if self.holds > 0 {
            let ghost before = self.held@;
            self.held.push(candidate);
            assert(signal::text_views(self.held@) =~= signal::text_views(before).push(
                candidate@,
            ));
            None
        } else {
            Some(candidate)
        }
    }

    /// One of the descriptions that were being made is sent, or is not made after all: send what is
    /// returned now, in order.
    pub fn release(&mut self) -> (now: Vec<String>)
        requires
            old(self).holds > 0,
        ensures
            final(self)@ == old(self)@.released(),
            signal::text_views(now@) == if old(self)@.holds == 1 {
                old(self)@.held
            } else {
                Seq::empty()
            },
    {
        self.holds = self.holds - 1;
        let mut now: Vec<String> = Vec::new();
        assert(signal::text_views(now@) =~= Seq::empty());
        if self.holds == 0 {
            std::mem::swap(&mut now, &mut self.held);
        }
        now
    }
}

/// Something that happens to candidates and the descriptions they belong to.
pub enum GateEvent {
    Hold,
    Release,
    Gathered(Seq<char>),
}

/// Whether something can happen: only what is held is released, and no more than can be counted is
/// held.
pub open spec fn can_happen(gate: GateView, event: GateEvent) -> bool {
    match event {
        GateEvent::Hold => gate.holds < u32::MAX,
        GateEvent::Release => gate.holds > 0,
        GateEvent::Gathered(_) => true,
    }
}

/// What is held back once something happened.
pub open spec fn gate_after(gate: GateView, event: GateEvent) -> GateView {
    match event {
        GateEvent::Hold => GateView { holds: (gate.holds + 1) as u32, ..gate },
        GateEvent::Release => gate.released(),
        GateEvent::Gathered(candidate) => gate.gathered(candidate),
    }
}

/// What goes out when something happens.
pub open spec fn sent_on(gate: GateView, event: GateEvent) -> Seq<Seq<char>> {
    match event {
        GateEvent::Hold => Seq::empty(),
        GateEvent::Release => if gate.holds == 1 {
            gate.held
        } else {
            Seq::empty()
        },
        GateEvent::Gathered(candidate) => if gate.holds > 0 {
            Seq::empty()
        } else {
            seq![candidate]
        },
    }
}

/// What is held back after everything that happens.
pub open spec fn gate_run(gate: GateView, events: Seq<GateEvent>) -> GateView
    decreases events.len(),
{
    if events.len() == 0 {
        gate
    } else {
        gate_after(gate_run(gate, events.drop_last()), events.last())
    }
}

/// What goes out over everything that happens.
pub open spec fn all_sent(gate: GateView, events: Seq<GateEvent>) -> Seq<Seq<char>>
    decreases events.len(),
{
    if events.len() == 0 {
        Seq::empty()
    } else {
        all_sent(gate, events.drop_last()) + sent_on(
            gate_run(gate, events.drop_last()),
            events.last(),
        )
    }
}

/// What is gathered over everything that happens.
pub open spec fn all_gathered(events: Seq<GateEvent>) -> Seq<Seq<char>>
    decreases events.len(),
{
    if events.len() == 0 {
        Seq::empty()
    } else {
        all_gathered(events.drop_last()) + match events.last() {
            GateEvent::Gathered(candidate) => seq![candidate],
            _ => Seq::empty(),
        }
    }
}

/// Whether everything that happens can.
pub open spec fn all_can_happen(gate: GateView, events: Seq<GateEvent>) -> bool
    decreases events.len(),
{
    events.len() == 0 || {
        &&& all_can_happen(gate, events.drop_last())
        &&& can_happen(gate_run(gate, events.drop_last()), events.last())
    }
}

/// No candidate is lost, sent twice, or sent out of order: what was gathered is what was sent and
/// then what is still held; and nothing is held while no description is being made.
pub proof fn law_candidates_go_out_in_order(events: Seq<GateEvent>)
    requires
        all_can_happen(GateView { holds: 0, held: Seq::empty() }, events),
    ensures
        ({
            let start = GateView { holds: 0, held: Seq::empty() };
            let now = gate_run(start, events);
            &&& all_gathered(events) == all_sent(start, events) + now.held
            &&& now.holds == 0 ==> now.held.len() == 0
        }),
    decreases events.len(),
{
    let start = GateView { holds: 0, held: Seq::<Seq<char>>::empty() };
    let now = gate_run(start, events);
    if events.len() > 0 {
        let earlier = events.drop_last();
        law_candidates_go_out_in_order(earlier);
        let before = gate_run(start, earlier);
        assert(now == gate_after(before, events.last()));
        assert(all_gathered(events) =~= all_sent(start, events) + now.held);
    } else {
        assert(all_gathered(events) =~= all_sent(start, events) + now.held);
    }
}

/// Remote candidates held until the description they belong to is set.
#[derive(Debug)]
pub struct RemoteCandidates {
    /// Whether the remote description is set.
    pub described: bool,
    /// What arrived before it was.
    pub pending: Vec<String>,
}

impl RemoteCandidates {
    /// Nothing has arrived yet.
    pub fn new() -> (candidates: Self)
        ensures
            !candidates.described,
            signal::text_views(candidates.pending@) == Seq::<Seq<char>>::empty(),
    {
        let candidates = RemoteCandidates { described: false, pending: Vec::new() };
        assert(signal::text_views(candidates.pending@) =~= Seq::<Seq<char>>::empty());
        candidates
    }

    /// A candidate arrived: apply what is returned now, or nothing while the description it
    /// belongs to is not set.
    pub fn add_ice_candidate(&mut self, candidate: String) -> (now: Option<String>)
        ensures
            final(self).described == old(self).described,
            match now {
                Some(applied) => {
                    &&& old(self).described
                    &&& applied@ == candidate@
                    &&& final(self).pending@ == old(self).pending@
                },
                None => {
                    &&& !old(self).described
                    &&& signal::text_views(final(self).pending@) == signal::text_views(
                        old(self).pending@,
                    ).push(candidate@)
                },
            },
    {
        if self.described {
            Some(candidate)
        } else {
            self.pending.push(candidate);
            assert(signal::text_views(self.pending@) =~= signal::text_views(
                old(self).pending@,
            ).push(candidate@));
            None
        }
    }

    /// The remote description is set: apply what is returned now, in order.
    pub fn description_set(&mut self) -> (now: Vec<String>)
        ensures
            final(self).described,
            final(self).pending@.len() == 0,
            now@ == old(self).pending@,
    {
        self.described = true;
        let mut now: Vec<String> = Vec::new();
        std::mem::swap(&mut now, &mut self.pending);
        now
    }
}

} // verus!
