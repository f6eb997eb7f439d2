//! How a peer's traffic actually reaches it.

use vstd::prelude::*;

verus! {

/// How a peer's traffic actually reaches it, once ICE has nominated a pair.
///
/// Worth surfacing rather than inferring from the ICE servers offered: a build configured with a
/// relay still connects directly whenever it can, so "a relay was available" and "a relay is being
/// used" are different facts, and only the second one costs latency.
#[derive(Debug, Clone, Copy, PartialEq, Eq, Structural)]
pub enum PeerRoute {
    /// A direct pair — host or server-reflexive at both ends. No third party in the path.
    Direct,
    /// Through a TURN relay, because no direct pair worked. Costs the relay's round trip, and is
    /// the difference between a slower session and no session at all.
    Relayed,
}

impl PeerRoute {
    /// For a readout that has one column to spend on this.
    pub fn label(self) -> (label: &'static str)
        ensures
            label@ == match self {
                PeerRoute::Direct => "direct"@,
                PeerRoute::Relayed => "relayed"@,
            },
    {
        match self {
            PeerRoute::Direct => "direct",
            PeerRoute::Relayed => "relayed",
        }
    }

    /// The route over a pair of candidates: either end being a relay candidate means the traffic
    /// goes through the relay.
    pub fn over(local_is_relay: bool, remote_is_relay: bool) -> (route: PeerRoute)
        ensures
            route == if local_is_relay || remote_is_relay {
                PeerRoute::Relayed
            } else {
                PeerRoute::Direct
            },
    {
        if local_is_relay || remote_is_relay {
            PeerRoute::Relayed
        } else {
            PeerRoute::Direct
        }
    }
}

/// One record of a connection's statistics, as far as it matters here. `None` is a field that is
/// not there or not a string.
#[derive(Debug)]
pub struct StatsRecord {
    pub id: Option<String>,
    /// What the record is about.
    pub kind: Option<String>,
    pub nominated: bool,
    pub state: Option<String>,
    pub local_candidate: Option<String>,
    pub remote_candidate: Option<String>,
    pub candidate_type: Option<String>,
}

/// Whether a field is there and says `text`.
pub open spec fn says(field: Option<String>, text: Seq<char>) -> bool {
    field matches Some(value) && value@ == text
}

/// Whether a record is of a pair that won, and names both its candidates. Browsers differ on
/// whether they mark it `succeeded`, or `nominated`, or both, so either will do.
pub open spec fn is_winner(record: StatsRecord) -> bool {
    &&& says(record.kind, "candidate-pair"@)
    &&& record.nominated || says(record.state, "succeeded"@)
    &&& record.local_candidate is Some
    &&& record.remote_candidate is Some
}

/// The first pair that won; how many records there are if none did.
pub open spec fn winner(records: Seq<StatsRecord>) -> int
    decreases records.len(),
{
    if records.len() == 0 || is_winner(records[0]) {
        0
    } else {
        1 + winner(records.drop_first())
    }
}

/// Whether a record says that one of the two candidates is a relay.
pub open spec fn is_relay_end(record: StatsRecord, local: Seq<char>, remote: Seq<char>) -> bool {
    &&& says(record.id, local) || says(record.id, remote)
    &&& says(record.candidate_type, "relay"@)
}

/// The route that the statistics show: that of the first pair that won.
pub open spec fn shown_route(records: Seq<StatsRecord>) -> Option<PeerRoute> {
    let i = winner(records);
    if i < records.len() {
        let local = (records[i].local_candidate->0)@;
        let remote = (records[i].remote_candidate->0)@;
        if exists|j: int|
            0 <= j < records.len() && is_relay_end(#[trigger] records[j], local, remote) {
            Some(PeerRoute::Relayed)
        } else {
            Some(PeerRoute::Direct)
        }
    } else {
        None
    }
}

/// Whether a field is there and says `text`.
fn field_is(field: &Option<String>, text: &str) -> (answer: bool)
    ensures
        answer == says(*field, text@),
{
    match field {
        Some(value) => *value == text.to_owned(),
        None => false,
    }
}

proof fn lemma_winner(records: Seq<StatsRecord>, at: int)
    requires
        0 <= at <= records.len(),
        at < records.len() ==> is_winner(records[at]),
        forall|i: int| 0 <= i < at ==> !is_winner(#[trigger] records[i]),
    ensures
        winner(records) == at,
    decreases records.len(),
{
    if at > 0 {
        assert(!is_winner(records[0]));
        let later = records.drop_first();
        assert forall|i: int| 0 <= i < at - 1 implies !is_winner(#[trigger] later[i]) by {
            assert(later[i] == records[i + 1]);
        }
        lemma_winner(later, at - 1);
    }
}

/// Which kind of pair a connection settled on, out of its statistics.
///
/// The pair record names its two candidates by id, and the candidate records carry the type that
/// actually answers the question — so it takes two passes over the same records.
pub fn selected_route(records: &Vec<StatsRecord>) -> (route: Option<PeerRoute>)
    ensures
        route == shown_route(records@),
{
    let mut i: usize = 0;
    while i < records.len()
        invariant
            i <= records@.len(),
            forall|j: int| 0 <= j < i ==> !is_winner(#[trigger] records@[j]),
        decreases records.len() - i,
    {
        let record = &records[i];
        if field_is(&record.kind, "candidate-pair") && (record.nominated || field_is(
            &record.state,
            "succeeded",
        )) {
            if let (Some(local), Some(remote)) = (
                &record.local_candidate,
                &record.remote_candidate,
            ) {
                proof {
                    lemma_winner(records@, i as int);
                }
                return Some(PeerRoute::over(has_relay_end(records, local, remote), false));
            }
        }
        i += 1;
    }
    proof {
        lemma_winner(records@, i as int);
    }
    None
}

/// Whether any record says that one of the two candidates is a relay.
fn has_relay_end(records: &Vec<StatsRecord>, local: &String, remote: &String) -> (relayed: bool)
    ensures
        relayed == exists|j: int|
            0 <= j < records@.len() && is_relay_end(#[trigger] records@[j], local@, remote@),
{
    let mut i: usize = 0;
    while i < records.len()
        invariant
            i <= records@.len(),
            forall|j: int|
                0 <= j < i ==> !is_relay_end(#[trigger] records@[j], local@, remote@),
        decreases records.len() - i,
    {
        let record = &records[i];
        if (field_is(&record.id, local.as_str()) || field_is(&record.id, remote.as_str()))
            && field_is(&record.candidate_type, "relay") {
            assert(is_relay_end(records@[i as int], local@, remote@));
            return true;
        }
        i += 1;
    }
    false
}

/// Whether the records have a candidate named `id` that is a relay.
pub open spec fn names_a_relay(records: Seq<StatsRecord>, id: Seq<char>) -> bool {
    exists|j: int|
        0 <= j < records.len() && {
            &&& (#[trigger] records[j]).id is Some
            &&& (records[j].id->0)@ == id
            &&& records[j].candidate_type is Some
            &&& (records[j].candidate_type->0)@ == "relay"@
        }
}

/// Whether a record is of a pair with two named candidates, and is marked as the one in use.
pub open spec fn is_in_use(record: StatsRecord) -> bool {
    &&& record.kind is Some
    &&& (record.kind->0)@ == "candidate-pair"@
    &&& record.local_candidate is Some
    &&& record.remote_candidate is Some
    &&& record.nominated || (record.state is Some && (record.state->0)@ == "succeeded"@)
}

/// The first pair in use decides: traffic over it goes through a relay if its local candidate is
/// one, or its remote candidate is, and is direct if neither is.
pub proof fn law_either_end_may_be_the_relay(records: Seq<StatsRecord>, at: int)
    requires
        0 <= at < records.len(),
        is_in_use(records[at]),
        forall|i: int| 0 <= i < at ==> !is_in_use(#[trigger] records[i]),
    ensures
        ({
            let local = (records[at].local_candidate->0)@;
            let remote = (records[at].remote_candidate->0)@;
            &&& names_a_relay(records, local) ==> shown_route(records) == Some(PeerRoute::Relayed)
            &&& names_a_relay(records, remote) ==> shown_route(records) == Some(PeerRoute::Relayed)
            &&& !names_a_relay(records, local) && !names_a_relay(records, remote)
                ==> shown_route(records) == Some(PeerRoute::Direct)
        }),
{
    let local = (records[at].local_candidate->0)@;
    let remote = (records[at].remote_candidate->0)@;
    assert forall|i: int| 0 <= i < at implies !is_winner(#[trigger] records[i]) by {
        assert(!is_in_use(records[i]));
    }
    lemma_winner(records, at);
    if names_a_relay(records, local) {
        let j = choose|j: int|
            0 <= j < records.len() && {
                &&& (#[trigger] records[j]).id is Some
                &&& (records[j].id->0)@ == local
                &&& records[j].candidate_type is Some
                &&& (records[j].candidate_type->0)@ == "relay"@
            };
        assert(is_relay_end(records[j], local, remote));
    }
    if names_a_relay(records, remote) {
        let j = choose|j: int|
            0 <= j < records.len() && {
                &&& (#[trigger] records[j]).id is Some
                &&& (records[j].id->0)@ == remote
                &&& records[j].candidate_type is Some
                &&& (records[j].candidate_type->0)@ == "relay"@
            };
        assert(is_relay_end(records[j], local, remote));
    }
}

/// Where no pair is in use there is no route to show.
pub proof fn law_no_pair_no_route(records: Seq<StatsRecord>)
    requires
        forall|i: int| 0 <= i < records.len() ==> !is_in_use(#[trigger] records[i]),
    ensures
        shown_route(records) is None,
{
    assert forall|i: int| 0 <= i < records.len() implies !is_winner(#[trigger] records[i]) by {
        assert(!is_in_use(records[i]));
    }
    lemma_winner(records, records.len() as int);
}

/// Both ends of a connection see the same route: exchanging the local and the remote candidate of
/// the pair in use changes nothing.
pub proof fn law_both_ends_see_the_same_route(records: Seq<StatsRecord>, at: int)
    requires
        0 <= at < records.len(),
        is_in_use(records[at]),
        forall|i: int| 0 <= i < at ==> !is_in_use(#[trigger] records[i]),
    ensures
        ({
            let mirrored = StatsRecord {
                local_candidate: records[at].remote_candidate,
                remote_candidate: records[at].local_candidate,
                ..records[at]
            };
            shown_route(records.update(at, mirrored)) == shown_route(records)
        }),
{
    let mirrored = StatsRecord {
        local_candidate: records[at].remote_candidate,
        remote_candidate: records[at].local_candidate,
        ..records[at]
    };
    let other = records.update(at, mirrored);
    law_either_end_may_be_the_relay(records, at);
    assert forall|i: int| 0 <= i < at implies !is_in_use(#[trigger] other[i]) by {
        assert(!is_in_use(records[i]));
    }
    law_either_end_may_be_the_relay(other, at);
    assert forall|id: Seq<char>| #[trigger] names_a_relay(other, id) == names_a_relay(
        records,
        id,
    ) by {
        if names_a_relay(records, id) {
            let j = choose|j: int|
                0 <= j < records.len() && {
                    &&& (#[trigger] records[j]).id is Some
                    &&& (records[j].id->0)@ == id
                    &&& records[j].candidate_type is Some
                    &&& (records[j].candidate_type->0)@ == "relay"@
                };
            assert(other[j].id == records[j].id && other[j].candidate_type
                == records[j].candidate_type);
        }
        if names_a_relay(other, id) {
            let j = choose|j: int|
                0 <= j < other.len() && {
                    &&& (#[trigger] other[j]).id is Some
                    &&& (other[j].id->0)@ == id
                    &&& other[j].candidate_type is Some
                    &&& (other[j].candidate_type->0)@ == "relay"@
                };
            assert(other[j].id == records[j].id && other[j].candidate_type
                == records[j].candidate_type);
        }
    }
}

} // verus!
