//! Which peers a socket has connections to, and what it says became of them.

use std::collections::HashMap;
use vstd::prelude::*;

use super::recovery::Role;
use super::route::PeerRoute;
use super::signal::{IceServers, PeerSignal};
use crate::lists;

verus! {

/// How long a peer may stay [`Reconnecting`](PeerState::Reconnecting) before it is
/// [`Failed`](PeerState::Failed), in nanoseconds.
///
/// Measured from the moment the loss was noticed, across however many restart offers fit in it. A
/// network switch that is going to work is done in a second or two, so fifteen is not a budget a
/// restart spends; it is how long a game keeps a player's seat warm before deciding they are gone.
pub const ICE_RESTART_TIMEOUT: u64 = 15_000_000_000;

/// Peer connection state, as reported by [`EnsembleSocket::update_peers`].
///
/// The order a connection goes through them: `Connecting`, then `Connected`; from there
/// `Reconnecting` and back to `Connected` any number of times, and finally `Disconnected` or
/// `Failed`. Nothing is reported after `Failed`.
#[derive(Debug, Clone, Copy, PartialEq, Eq, Structural)]
pub enum PeerState {
    /// A connection has been created and nothing has happened on it yet: an offer is being made
    /// or answered, candidates are being gathered, no pair has been checked.
    ///
    /// Reported once, first, for every peer. It is what lets a listener tell "this peer is on its
    /// way" from "this peer was never heard of".
    Connecting,
    /// The reliable data channel is open. Traffic flows.
    Connected,
    /// ICE lost the path to this peer and is restarting: new candidates are being gathered and a
    /// fresh offer/answer is going through the signalling server. The data channels are still
    /// open, and whatever is sent meanwhile is queued and delivered once a pair is found again —
    /// so a game keeps sending, and keeps the player's seat.
    Reconnecting,
    /// A connection that was open has ended: the data channel closed, or the peer was
    /// disconnected on purpose.
    Disconnected,
    /// The connection is over and will not be coming back: ICE found no working pair, the
    /// transport gave up, or a restart did not find a path in time.
    Failed,
}

/// Something a connection said of its peer.
#[derive(Debug, Clone, Copy, PartialEq, Eq)]
pub struct PeerChange {
    pub peer: u128,
    pub state: PeerState,
}

/// A route ICE settled on.
#[derive(Debug, Clone, Copy, PartialEq, Eq)]
pub struct RouteChange {
    pub peer: u128,
    pub route: PeerRoute,
}

/// The connections of one socket. The transport itself is its owner's: it asks what to do, and
/// tells what happened.
pub struct EnsembleSocket {
    peers: HashMap<u128, Role>,
    states: HashMap<u128, PeerState>,
    routes: HashMap<u128, PeerRoute>,
    /// When each peer currently `Reconnecting` was first reported so, in nanoseconds.
    ///
    /// Checked from [`EnsembleSocket::update_peers`] rather than by a timer, because the game
    /// already calls that every frame, and a deadline that is polled needs nothing to cancel when
    /// the peer goes.
    reconnecting_since: HashMap<u128, u64>,
    ice_servers: IceServers,
}

/// The mathematical content of an [`EnsembleSocket`].
#[verifier::ext_equal]
pub struct SocketView {
    pub peers: Map<u128, Role>,
    pub states: Map<u128, PeerState>,
    pub routes: Map<u128, PeerRoute>,
    pub reconnecting_since: Map<u128, u64>,
    pub ice_servers: IceServers,
}

impl View for EnsembleSocket {
    type V = SocketView;

    closed spec fn view(&self) -> SocketView {
        SocketView {
            peers: self.peers@,
            states: self.states@,
            routes: self.routes@,
            reconnecting_since: self.reconnecting_since@,
            ice_servers: self.ice_servers,
        }
    }
}

/// Whether a state is passed on, given the last one that was.
///
/// `Disconnected` is passed on only of a connection that was open: a close on a channel that never
/// opened says nothing a listener can act on. `Reconnecting` is passed on only from `Connected`: a
/// restart is something that happens to a connection that existed.
pub open spec fn is_news(previous: Option<PeerState>, state: PeerState) -> bool {
    match state {
        PeerState::Connecting => previous is None,
        PeerState::Connected => previous != Some(PeerState::Connected) && previous != Some(
            PeerState::Failed,
        ),
        PeerState::Reconnecting => previous == Some(PeerState::Connected),
        PeerState::Disconnected => previous == Some(PeerState::Connected) || previous == Some(
            PeerState::Reconnecting,
        ),
        PeerState::Failed => previous != Some(PeerState::Failed),
    }
}

impl SocketView {
    /// The socket after a signal, and what is to be done with it.
    pub open spec fn received(self, sender: u128, signal: PeerSignal) -> (SocketView, SignalAction) {
        match (signal, self.peers.dom().contains(sender)) {
            (PeerSignal::Offer(sdp), false) => (
                SocketView { peers: self.peers.insert(sender, Role::Answerer), ..self },
                SignalAction::Open(sdp),
            ),
            (PeerSignal::Offer(sdp), true) => (
                self,
                if self.peers[sender] == Role::Answerer {
                    SignalAction::Apply(signal)
                } else {
                    SignalAction::RefuseGlare
                },
            ),
            (_, true) => (self, SignalAction::Apply(signal)),
            (_, false) => (self, SignalAction::NoConnection),
        }
    }

    /// The socket once it was told to connect to `peer`, and whether a connection is opened.
    pub open spec fn offered(self, peer: u128) -> (SocketView, bool) {
        if self.peers.dom().contains(peer) {
            (self, false)
        } else {
            (SocketView { peers: self.peers.insert(peer, Role::Offerer), ..self }, true)
        }
    }

    /// The socket once it was told to disconnect `peer`, and whether a connection is closed.
    pub open spec fn let_go(self, peer: u128) -> (SocketView, bool) {
        if self.peers.dom().contains(peer) {
            (
                SocketView {
                    peers: self.peers.remove(peer),
                    states: self.states.remove(peer),
                    routes: self.routes.remove(peer),
                    reconnecting_since: self.reconnecting_since.remove(peer),
                    ..self
                },
                true,
            )
        } else {
            (self, false)
        }
    }

    /// Whether the data channels to `peer` are open.
    pub open spec fn is_open(self, peer: u128) -> bool {
        self.state_of(peer) == Some(PeerState::Connected) || self.state_of(peer) == Some(
            PeerState::Reconnecting,
        )
    }

    /// The last state that was passed on.
    pub open spec fn state_of(self, peer: u128) -> Option<PeerState> {
        if self.states.dom().contains(peer) {
            Some(self.states[peer])
        } else {
            None
        }
    }

    /// The socket once a connection said something of its peer at `now`.
    ///
    /// The deadline on a restart is armed whether or not the report is passed on, so that a
    /// restart nobody was told about is still bounded.
    pub open spec fn told(self, change: PeerChange, now: u64) -> SocketView {
        SocketView {
            states: if is_news(self.state_of(change.peer), change.state) {
                self.states.insert(change.peer, change.state)
            } else {
                self.states
            },
            reconnecting_since: match change.state {
                PeerState::Reconnecting => if self.reconnecting_since.dom().contains(
                    change.peer,
                ) {
                    self.reconnecting_since
                } else {
                    self.reconnecting_since.insert(change.peer, now)
                },
                PeerState::Connecting => self.reconnecting_since,
                _ => self.reconnecting_since.remove(change.peer),
            },
            ..self
        }
    }

    /// The socket once it was told everything in `changes`.
    pub open spec fn all_told(self, changes: Seq<PeerChange>, now: u64) -> SocketView
        decreases changes.len(),
    {
        if changes.len() == 0 {
            self
        } else {
            self.all_told(changes.drop_last(), now).told(changes.last(), now)
        }
    }

    /// What of `changes` is passed on.
    pub open spec fn news(self, changes: Seq<PeerChange>, now: u64) -> Seq<PeerChange>
        decreases changes.len(),
    {
        if changes.len() == 0 {
            Seq::empty()
        } else {
            let earlier = self.news(changes.drop_last(), now);
            let last = changes.last();
            if is_news(
                self.all_told(changes.drop_last(), now).state_of(last.peer),
                last.state,
            ) {
                earlier.push(last)
            } else {
                earlier
            }
        }
    }

    /// Whether the restart of `peer` is out of time at `now`.
    pub open spec fn is_late(self, peer: u128, now: u64) -> bool {
        self.reconnecting_since.dom().contains(peer) && now - self.reconnecting_since[peer]
            >= ICE_RESTART_TIMEOUT
    }

    /// Whether `peer` is given up on at `now`: its restart is out of time, and it has not failed
    /// already.
    pub open spec fn is_given_up(self, peer: u128, now: u64) -> bool {
        self.is_late(peer, now) && self.state_of(peer) != Some(PeerState::Failed)
    }

    /// Whether `after` is the socket once everyone in `gone` is given up on, and nobody's restart
    /// is out of time any more.
    pub open spec fn gives_up_on(self, gone: Seq<u128>, after: SocketView, now: u64) -> bool {
        &&& gone.no_duplicates()
        &&& forall|peer: u128| gone.contains(peer) <==> #[trigger] self.is_given_up(peer, now)
        &&& after.peers == self.peers
        &&& after.routes == self.routes
        &&& after.ice_servers == self.ice_servers
        &&& forall|peer: u128| #[trigger]
            after.state_of(peer) == if gone.contains(peer) {
                Some(PeerState::Failed)
            } else {
                self.state_of(peer)
            }
        &&& forall|peer: u128| #[trigger]
            after.reconnecting_since.dom().contains(peer) <==> {
                &&& self.reconnecting_since.dom().contains(peer)
                &&& !self.is_late(peer, now)
            }
        &&& forall|peer: u128| #[trigger]
            after.reconnecting_since.dom().contains(peer) ==> after.reconnecting_since[peer]
                == self.reconnecting_since[peer]
    }

    /// The socket once a route was reported.
    pub open spec fn routed(self, change: RouteChange) -> SocketView {
        SocketView { routes: self.routes.insert(change.peer, change.route), ..self }
    }

    /// Whether a route is one that was not known.
    pub open spec fn is_new_route(self, change: RouteChange) -> bool {
        !self.routes.dom().contains(change.peer) || self.routes[change.peer] != change.route
    }

    /// The socket once every route in `changes` was reported.
    pub open spec fn all_routed(self, changes: Seq<RouteChange>) -> SocketView
        decreases changes.len(),
    {
        if changes.len() == 0 {
            self
        } else {
            self.all_routed(changes.drop_last()).routed(changes.last())
        }
    }

    /// Which of the routes in `changes` are ones that were not known.
    pub open spec fn new_routes(self, changes: Seq<RouteChange>) -> Seq<RouteChange>
        decreases changes.len(),
    {
        if changes.len() == 0 {
            Seq::empty()
        } else {
            let earlier = self.new_routes(changes.drop_last());
            if self.all_routed(changes.drop_last()).is_new_route(changes.last()) {
                earlier.push(changes.last())
            } else {
                earlier
            }
        }
    }
}

/// `peers` that were given up on, as changes.
pub open spec fn failures(peers: Seq<u128>) -> Seq<PeerChange> {
    Seq::new(peers.len(), |i: int| PeerChange { peer: peers[i], state: PeerState::Failed })
}

/// What the owner of the transport does about an incoming signal.
#[derive(Debug, PartialEq, Eq)]
pub enum SignalAction {
    /// Open a connection to the sender, as the answerer, and apply this offer.
    Open(String),
    /// Apply the signal to the connection there is.
    Apply(PeerSignal),
    /// Discard a second offer from a peer this side offered to. Both sides may believe they are
    /// the offerer.
    RefuseGlare,
    /// Discard an answer to an offer this side never made, or a candidate that came before its
    /// offer: there is no connection to the sender.
    NoConnection,
}

/// The keys of a map, each once, in no particular order.
pub(crate) fn keys_of<V>(map: &HashMap<u128, V>) -> (keys: Vec<u128>)
    ensures
        keys@.no_duplicates(),
        keys@.to_set() == map@.dom(),
{
    let mut keys: Vec<u128> = Vec::new();
    for key in iter: map.keys()
        invariant
            iter.seq().unref().to_set() == map@.dom(),
            iter.seq().no_duplicates(),
            keys@ == iter.seq().unref().take(iter.index() as int),
            iter.index() == iter.seq().len() ==> keys@ == iter.seq().unref(),
    {
        keys.push(*key);
        assert(keys@ =~= iter.seq().unref().take(iter.index() + 1));
        assert(iter.seq().unref().take(iter.seq().len() as int) =~= iter.seq().unref());
    }
    keys
}

impl EnsembleSocket {
    /// A socket with no connections, that gathers candidates from the default ICE servers.
    pub fn new() -> (socket: Self)
        ensures
            socket@.peers == Map::<u128, Role>::empty(),
            socket@.states == Map::<u128, PeerState>::empty(),
            socket@.routes == Map::<u128, PeerRoute>::empty(),
            socket@.reconnecting_since == Map::<u128, u64>::empty(),
            socket@.ice_servers.0@.len() == 1,
            socket@.ice_servers.0@[0]@.urls == seq![
                "stun:stun.l.google.com:19302"@,
                "stun:stun1.l.google.com:19302"@,
            ],
            socket@.ice_servers.0@[0]@.username == Seq::<char>::empty(),
            socket@.ice_servers.0@[0]@.credential == Seq::<char>::empty(),
    {
        EnsembleSocket {
            peers: HashMap::new(),
            states: HashMap::new(),
            routes: HashMap::new(),
            reconnecting_since: HashMap::new(),
            ice_servers: IceServers::default(),
        }
    }

    /// Gather candidates from these ICE servers rather than the default public STUN pair. Takes
    /// effect for connections opened after it.
    pub fn with_ice_servers(self, ice_servers: IceServers) -> (socket: Self)
        ensures
            socket@ == (SocketView { ice_servers, ..self@ }),
    {
        EnsembleSocket {
            peers: self.peers,
            states: self.states,
            routes: self.routes,
            reconnecting_since: self.reconnecting_since,
            ice_servers,
        }
    }

    /// The ICE servers connections gather candidates from.
    pub fn ice_servers(&self) -> (ice_servers: &IceServers)
        ensures
            *ice_servers == self@.ice_servers,
    {
        &self.ice_servers
    }

    /// Whether there is a connection to `peer`.
    pub fn has_peer(&self, peer: u128) -> (has: bool)
        ensures
            has == self@.peers.dom().contains(peer),
    {
        self.peers.contains_key(&peer)
    }

    /// Initiate a connection to a peer: `true` if one is to be opened and an offer made on it. One
    /// that exists is not offered again.
    pub fn connect_peer(&mut self, peer: u128) -> (open: bool)
        ensures
            (final(self)@, open) == old(self)@.offered(peer),
    {
        if self.peers.contains_key(&peer) {
            return false;
        }
        self.peers.insert(peer, Role::Offerer);
        true
    }

    /// Handle an incoming signal from a remote peer.
    ///
    /// A second offer from a peer this side answered is a renegotiation, which here means its ICE
    /// restarted: it is answered like the first. A second offer from a peer this side *offered to*
    /// is glare, and stays refused.
    pub fn receive_signal(&mut self, sender: u128, signal: PeerSignal) -> (action: SignalAction)
        ensures
            (final(self)@, action) == old(self)@.received(sender, signal),
    {
        match signal {
            PeerSignal::Offer(sdp) => match self.peers.get(&sender) {
                Some(role) => match role {
                    Role::Answerer => SignalAction::Apply(PeerSignal::Offer(sdp)),
                    Role::Offerer => SignalAction::RefuseGlare,
                },
                None => {
                    self.peers.insert(sender, Role::Answerer);
                    SignalAction::Open(sdp)
                },
            },
            other => {
                if self.peers.contains_key(&sender) {
                    SignalAction::Apply(other)
                } else {
                    SignalAction::NoConnection
                }
            },
        }
    }

    /// Take in what a connection said of its peer; `true` if it is to be passed on.
    fn take_in(&mut self, change: PeerChange, now: u64) -> (news: bool)
        ensures
            news == is_news(old(self)@.state_of(change.peer), change.state),
            final(self)@ == old(self)@.told(change, now),
    {
        let previous: Option<PeerState> = match self.states.get(&change.peer) {
            Some(state) => Some(*state),
            None => None,
        };
        match change.state {
            PeerState::Reconnecting => {
                if !self.reconnecting_since.contains_key(&change.peer) {
                    self.reconnecting_since.insert(change.peer, now);
                }
            },
            PeerState::Connecting => {},
            PeerState::Connected | PeerState::Disconnected | PeerState::Failed => {
                self.reconnecting_since.remove(&change.peer);
            },
        }
        let news = match previous {
            None => match change.state {
                PeerState::Connecting | PeerState::Connected | PeerState::Failed => true,
                PeerState::Reconnecting | PeerState::Disconnected => false,
            },
            Some(PeerState::Failed) => false,
            Some(previous) => {
                previous != change.state && match change.state {
                    PeerState::Connecting => false,
                    PeerState::Connected | PeerState::Failed => true,
                    PeerState::Reconnecting => previous == PeerState::Connected,
                    PeerState::Disconnected => previous == PeerState::Connected || previous
                        == PeerState::Reconnecting,
                }
            },
        };
        if news {
            self.states.insert(change.peer, change.state);
        }
        news
    }

    /// Take in what the connections said since the last call, and say what is to be passed on.
    ///
    /// A peer still reconnecting when its time runs out is reported `Failed` from here, on
    /// whichever call first finds it late. Nothing is reported after `Failed`: the transport may
    /// well find a pair a moment after the deadline, and a `Connected` that follows a `Failed`
    /// would put a peer back into a session that has already been torn down around it.
    ///
    /// Peers whose time runs out at once are reported in no particular order.
    pub fn update_peers(&mut self, said: &Vec<PeerChange>, now: u64) -> (changes: Vec<PeerChange>)
        ensures
            exists|gone: Seq<u128>|
                {
                    &&& changes@ == old(self)@.news(said@, now) + failures(gone)
                    &&& #[trigger] old(self)@.all_told(said@, now).gives_up_on(
                        gone,
                        final(self)@,
                        now,
                    )
                },
            forall|peer: u128| !final(self)@.is_late(peer, now),
    {
        let mut changes: Vec<PeerChange> = Vec::new();
        let mut i: usize = 0;
        assert(said@.take(0) =~= Seq::<PeerChange>::empty());
        while i < said.len()
            invariant
                i <= said@.len(),
                self@ == old(self)@.all_told(said@.take(i as int), now),
                changes@ == old(self)@.news(said@.take(i as int), now),
            decreases said.len() - i,
        {
            assert(said@.take(i + 1).drop_last() =~= said@.take(i as int));
            let change = said[i];
            if self.take_in(change, now) {
                changes.push(change);
            }
            i += 1;
        }
        assert(said@.take(i as int) =~= said@);
        let ghost told = self@;
        let ghost news = changes@;
        let keys = keys_of(&self.reconnecting_since);
        let ghost mut gone: Seq<u128> = Seq::empty();
        let mut n: usize = 0;
        assert(news + failures(gone) =~= news);
        while n < keys.len()
            invariant
                n <= keys@.len(),
                keys@.no_duplicates(),
                keys@.to_set() == told.reconnecting_since.dom(),
                changes@ == news + failures(gone),
                self@.peers == told.peers,
                self@.routes == told.routes,
                self@.ice_servers == told.ice_servers,
                gone.no_duplicates(),
                forall|peer: u128|
                    #![trigger gone.contains(peer)]
                    #![trigger told.is_given_up(peer, now)]
                    gone.contains(peer) <==> keys@.take(n as int).contains(peer)
                        && told.is_given_up(peer, now),
                forall|peer: u128| #[trigger]
                    self@.state_of(peer) == if gone.contains(peer) {
                        Some(PeerState::Failed)
                    } else {
                        told.state_of(peer)
                    },
                forall|peer: u128| #[trigger]
                    self@.reconnecting_since.dom().contains(peer) <==> {
                        &&& told.reconnecting_since.dom().contains(peer)
                        &&& !(keys@.take(n as int).contains(peer) && told.is_late(peer, now))
                    },
                forall|peer: u128| #[trigger]
                    self@.reconnecting_since.dom().contains(peer)
                        ==> self@.reconnecting_since[peer] == told.reconnecting_since[peer],
            decreases keys.len() - n,
        {
            let peer = keys[n];
            let ghost before = keys@.take(n as int);
            proof {
                assert(keys@.take(n + 1) =~= before.push(peer));
                assert forall|other: u128| before.push(peer).contains(other) == (before.contains(
                    other,
                ) || other == peer) by {
                    lists::lemma_pushed(before, peer, other);
                }
                assert(!before.contains(peer)) by {
                    if before.contains(peer) {
                        let j = choose|j: int| 0 <= j < before.len() && before[j] == peer;
                        assert(keys@[j] == keys@[n as int]);
                    }
                }
                assert(keys@.to_set().contains(peer));
                assert(self@.reconnecting_since.dom().contains(peer));
                assert(!gone.contains(peer));
                assert(self@.state_of(peer) == told.state_of(peer));
            }
            let ghost start = self@;
            let ghost earlier = gone;
            let since: u64 = match self.reconnecting_since.get(&peer) {
                Some(since) => *since,
                None => now,
            };
            if now >= since && now - since >= ICE_RESTART_TIMEOUT {
                assert(told.is_late(peer, now));
                self.reconnecting_since.remove(&peer);
                let failed = match self.states.get(&peer) {
                    Some(state) => *state == PeerState::Failed,
                    None => false,
                };
                if !failed {
                    self.states.insert(peer, PeerState::Failed);
                    changes.push(PeerChange { peer, state: PeerState::Failed });
                    proof {
                        let longer = gone.push(peer);
                        assert(told.is_given_up(peer, now));
                        assert forall|other: u128| longer.contains(other) == (gone.contains(other)
                            || other == peer) by {
                            lists::lemma_pushed(gone, peer, other);
                        }
                        assert(!gone.contains(peer));
                        assert(longer.no_duplicates()) by {
                            assert forall|a: int, b: int|
                                0 <= a < longer.len() && 0 <= b < longer.len() && a
                                    != b implies longer[a] != longer[b] by {
                                if a < gone.len() {
                                    assert(gone.contains(gone[a]));
                                }
                                if b < gone.len() {
                                    assert(gone.contains(gone[b]));
                                }
                            }
                        }
                        assert(failures(longer) =~= failures(gone).push(
                            PeerChange { peer, state: PeerState::Failed },
                        ));
                        assert(news + failures(longer) =~= (news + failures(gone)).push(
                            PeerChange { peer, state: PeerState::Failed },
                        ));
                        gone = longer;
                    }
                }
            } else {
                assert(!told.is_late(peer, now));
            }
            proof {
                assert forall|other: u128|
                    gone.contains(other) <==> keys@.take(n + 1).contains(other)
                        && #[trigger] told.is_given_up(other, now) by {
                    assert(earlier.contains(other) <==> before.contains(other)
                        && told.is_given_up(other, now));
                }
                assert forall|other: u128| #[trigger]
                    self@.state_of(other) == if gone.contains(other) {
                        Some(PeerState::Failed)
                    } else {
                        told.state_of(other)
                    } by {
                    assert(start.state_of(other) == if earlier.contains(other) {
                        Some(PeerState::Failed)
                    } else {
                        told.state_of(other)
                    });
                }
            }
            n += 1;
        }
        proof {
            assert(keys@.take(n as int) =~= keys@);
            assert forall|peer: u128| keys@.contains(peer)
                <==> told.reconnecting_since.dom().contains(peer) by {
                assert(keys@.to_set().contains(peer) == keys@.contains(peer));
            }
            assert(told.gives_up_on(gone, self@, now));
            assert forall|peer: u128| !self@.is_late(peer, now) by {
                if self@.reconnecting_since.dom().contains(peer) {
                    assert(!told.is_late(peer, now));
                }
            }
        }
        changes
    }

    /// Take in the routes ICE has settled on since the last call, and say which were not known.
    ///
    /// Reported once per change: the route is decided when a pair is nominated and only changes if
    /// ICE renominates, so a consumer that polls every frame would otherwise re-apply the same
    /// fact for the length of the session.
    pub fn update_routes(&mut self, said: &Vec<RouteChange>) -> (changes: Vec<RouteChange>)
        ensures
            changes@ == old(self)@.new_routes(said@),
            final(self)@ == old(self)@.all_routed(said@),
    {
        let mut changes: Vec<RouteChange> = Vec::new();
        let mut i: usize = 0;
        assert(said@.take(0) =~= Seq::<RouteChange>::empty());
        while i < said.len()
            invariant
                i <= said@.len(),
                self@ == old(self)@.all_routed(said@.take(i as int)),
                changes@ == old(self)@.new_routes(said@.take(i as int)),
            decreases said.len() - i,
        {
            assert(said@.take(i + 1).drop_last() =~= said@.take(i as int));
            let change = said[i];
            let known = match self.routes.get(&change.peer) {
                Some(route) => *route == change.route,
                None => false,
            };
            if !known {
                self.routes.insert(change.peer, change.route);
                changes.push(change);
            } else {
                assert(self@.routes =~= self@.routed(change).routes);
            }
            i += 1;
        }
        assert(said@.take(i as int) =~= said@);
        changes
    }

    /// How this peer is reached, if ICE has settled on a pair yet.
    pub fn route(&self, peer: u128) -> (route: Option<PeerRoute>)
        ensures
            route == if self@.routes.dom().contains(peer) {
                Some(self@.routes[peer])
            } else {
                None
            },
    {
        match self.routes.get(&peer) {
            Some(route) => Some(*route),
            None => None,
        }
    }

    /// The peers whose data channels are open: `Connected`, and `Reconnecting` too, each once, in
    /// no particular order.
    ///
    /// A peer whose ICE is restarting still has its channels, and a send to it is queued and
    /// delivered when the new pair is up. Leaving such a peer out here would make every consumer
    /// that gates its sends on this list go silent for exactly the window that decides whether the
    /// session survives.
    pub fn connected_peers(&self) -> (peers: Vec<u128>)
        ensures
            peers@.no_duplicates(),
            forall|peer: u128| #[trigger] peers@.contains(peer) <==> self@.is_open(peer),
    {
        let keys = keys_of(&self.states);
        let mut peers: Vec<u128> = Vec::new();
        let mut n: usize = 0;
        while n < keys.len()
            invariant
                n <= keys@.len(),
                keys@.no_duplicates(),
                keys@.to_set() == self@.states.dom(),
                peers@.no_duplicates(),
                forall|peer: u128| #[trigger]
                    peers@.contains(peer) <==> keys@.take(n as int).contains(peer) && (self@.state_of(
                        peer,
                    ) == Some(PeerState::Connected) || self@.state_of(peer) == Some(
                        PeerState::Reconnecting,
                    )),
            decreases keys.len() - n,
        {
            let peer = keys[n];
            let ghost before = keys@.take(n as int);
            let ghost found = peers@;
            proof {
                assert(keys@.take(n + 1) =~= before.push(peer));
                assert forall|other: u128| before.push(peer).contains(other) == (before.contains(
                    other,
                ) || other == peer) by {
                    lists::lemma_pushed(before, peer, other);
                }
                assert forall|other: u128| found.push(peer).contains(other) == (found.contains(
                    other,
                ) || other == peer) by {
                    lists::lemma_pushed(found, peer, other);
                }
                assert(!before.contains(peer)) by {
                    if before.contains(peer) {
                        let j = choose|j: int| 0 <= j < before.len() && before[j] == peer;
                        assert(keys@[j] == keys@[n as int]);
                    }
                }
                assert(keys@.to_set().contains(peer));
            }
            if let Some(state) = self.states.get(&peer) {
                if *state == PeerState::Connected || *state == PeerState::Reconnecting {
                    peers.push(peer);
                    assert(peers@.no_duplicates()) by {
                        assert forall|a: int, b: int|
                            0 <= a < peers@.len() && 0 <= b < peers@.len() && a
                                != b implies peers@[a] != peers@[b] by {
                            if a < found.len() {
                                assert(found.contains(found[a]));
                            }
                            if b < found.len() {
                                assert(found.contains(found[b]));
                            }
                        }
                    }
                }
            }
            proof {
                assert forall|other: u128| #[trigger]
                    peers@.contains(other) <==> keys@.take(n + 1).contains(other) && (
                    self@.state_of(other) == Some(PeerState::Connected) || self@.state_of(other)
                        == Some(PeerState::Reconnecting)) by {
                    lists::lemma_pushed(before, peer, other);
                    lists::lemma_pushed(found, peer, other);
                }
            }
            n += 1;
        }
        proof {
            assert(keys@.take(n as int) =~= keys@);
            assert forall|peer: u128| keys@.contains(peer) <==> self@.states.dom().contains(
                peer,
            ) by {
                assert(keys@.to_set().contains(peer) == keys@.contains(peer));
            }
        }
        peers
    }

    /// Disconnect a specific peer; `true` if there was a connection to close.
    pub fn disconnect_peer(&mut self, peer: u128) -> (close: bool)
        ensures
            (final(self)@, close) == old(self)@.let_go(peer),
    {
        if !self.peers.contains_key(&peer) {
            return false;
        }
        self.peers.remove(&peer);
        self.states.remove(&peer);
        self.routes.remove(&peer);
        self.reconnecting_since.remove(&peer);
        true
    }

    /// Disconnect all peers.
    pub fn disconnect_all(&mut self)
        ensures
            final(self)@ == (SocketView {
                peers: Map::empty(),
                states: Map::empty(),
                routes: Map::empty(),
                reconnecting_since: Map::empty(),
                ..old(self)@
            }),
    {
        self.peers.clear();
        self.states.clear();
        self.routes.clear();
        self.reconnecting_since.clear();
    }
}

/// What is passed on of one peer, out of everything its connection says, `previous` having been
/// passed on last.
pub open spec fn history(previous: Option<PeerState>, said: Seq<PeerState>) -> Seq<PeerState>
    decreases said.len(),
{
    if said.len() == 0 {
        Seq::empty()
    } else if is_news(previous, said[0]) {
        seq![said[0]] + history(Some(said[0]), said.drop_first())
    } else {
        history(previous, said.drop_first())
    }
}

/// Whether `next` can follow `previous` in what is passed on of a peer.
pub open spec fn can_follow(previous: PeerState, next: PeerState) -> bool {
    &&& previous != PeerState::Failed
    &&& previous != next
    &&& next != PeerState::Connecting
    &&& next == PeerState::Reconnecting ==> previous == PeerState::Connected
    &&& next == PeerState::Disconnected ==> previous == PeerState::Connected || previous
        == PeerState::Reconnecting
}

/// Whatever its connection says, a listener hears of a peer in order: `Connecting` only first,
/// nothing twice in a row, `Reconnecting` only from `Connected`, `Disconnected` only of what was
/// open, and nothing after `Failed`.
pub proof fn law_states_are_heard_in_order(previous: Option<PeerState>, said: Seq<PeerState>)
    ensures
        ({
            let heard = history(previous, said);
            &&& forall|i: int|
                0 <= i < heard.len() - 1 ==> can_follow(#[trigger] heard[i], heard[i + 1])
            &&& heard.len() > 0 && previous is Some ==> can_follow(previous->0, heard[0])
            &&& heard.len() > 0 && previous is None ==> heard[0] != PeerState::Reconnecting
                && heard[0] != PeerState::Disconnected
        }),
    decreases said.len(),
{
    if said.len() > 0 {
        if is_news(previous, said[0]) {
            law_states_are_heard_in_order(Some(said[0]), said.drop_first());
            let heard = history(previous, said);
            let later = history(Some(said[0]), said.drop_first());
            assert forall|i: int| 0 <= i < heard.len() - 1 implies can_follow(
                #[trigger] heard[i],
                heard[i + 1],
            ) by {
                if i == 0 {
                    assert(heard[1] == later[0]);
                } else {
                    assert(heard[i] == later[i - 1] && heard[i + 1] == later[i]);
                }
            }
        } else {
            law_states_are_heard_in_order(previous, said.drop_first());
        }
    }
}

/// Nothing is ever heard of a peer that has failed.
pub proof fn law_nothing_follows_failure(said: Seq<PeerState>)
    ensures
        history(Some(PeerState::Failed), said).len() == 0,
    decreases said.len(),
{
    if said.len() > 0 {
        law_nothing_follows_failure(said.drop_first());
    }
}

/// What `changes` say of one peer, in order.
pub open spec fn of_peer(changes: Seq<PeerChange>, peer: u128) -> Seq<PeerState>
    decreases changes.len(),
{
    if changes.len() == 0 {
        Seq::empty()
    } else if changes.last().peer == peer {
        of_peer(changes.drop_last(), peer).push(changes.last().state)
    } else {
        of_peer(changes.drop_last(), peer)
    }
}

/// What was heard of a peer last.
pub open spec fn heard_last(previous: Option<PeerState>, heard: Seq<PeerState>) -> Option<
    PeerState,
> {
    if heard.len() > 0 {
        Some(heard.last())
    } else {
        previous
    }
}

/// What is passed on of one more thing that is said.
proof fn lemma_history_grows(previous: Option<PeerState>, said: Seq<PeerState>, state: PeerState)
    ensures
        ({
            let heard = history(previous, said);
            history(previous, said.push(state)) == if is_news(heard_last(previous, heard), state) {
                heard.push(state)
            } else {
                heard
            }
        }),
    decreases said.len(),
{
    reveal_with_fuel(history, 2);
    let longer = said.push(state);
    let heard = history(previous, said);
    if said.len() > 0 {
        let later = said.drop_first();
        assert(longer.drop_first() =~= later.push(state));
        assert(longer[0] == said[0]);
        if is_news(previous, said[0]) {
            lemma_history_grows(Some(said[0]), later, state);
            let rest = history(Some(said[0]), later);
            assert(heard_last(previous, heard) == heard_last(Some(said[0]), rest)) by {
                if rest.len() > 0 {
                    assert(heard.last() == rest.last());
                }
            }
            assert(seq![said[0]] + rest.push(state) =~= heard.push(state));
        } else {
            lemma_history_grows(previous, later, state);
        }
    } else {
        assert(longer.drop_first() =~= Seq::<PeerState>::empty());
        assert(seq![state] + Seq::<PeerState>::empty() =~= heard.push(state));
    }
}

/// What is passed on of a peer is its history, and the last of it is what the socket has noted.
proof fn lemma_news_is_history(before: SocketView, said: Seq<PeerChange>, now: u64, peer: u128)
    ensures
        ({
            let heard = history(before.state_of(peer), of_peer(said, peer));
            &&& of_peer(before.news(said, now), peer) == heard
            &&& before.all_told(said, now).state_of(peer) == heard_last(
                before.state_of(peer),
                heard,
            )
        }),
    decreases said.len(),
{
    if said.len() > 0 {
        let earlier = said.drop_last();
        let last = said.last();
        lemma_news_is_history(before, earlier, now, peer);
        let news = before.news(earlier, now);
        let told = before.all_told(earlier, now);
        if is_news(told.state_of(last.peer), last.state) {
            assert(news.push(last).drop_last() =~= news);
        }
        if last.peer == peer {
            lemma_history_grows(before.state_of(peer), of_peer(earlier, peer), last.state);
        }
    }
}

proof fn lemma_of_peer_joined(one: Seq<PeerChange>, other: Seq<PeerChange>, peer: u128)
    ensures
        of_peer(one + other, peer) == of_peer(one, peer) + of_peer(other, peer),
    decreases other.len(),
{
    if other.len() > 0 {
        lemma_of_peer_joined(one, other.drop_last(), peer);
        assert((one + other).drop_last() =~= one + other.drop_last());
        assert((one + other).last() == other.last());
        assert(of_peer(one + other, peer) =~= of_peer(one, peer) + of_peer(other, peer));
    } else {
        assert(one + other =~= one);
        assert(of_peer(one, peer) + of_peer(other, peer) =~= of_peer(one, peer));
    }
}

proof fn lemma_failures_of_peer(gone: Seq<u128>, peer: u128)
    requires
        gone.no_duplicates(),
    ensures
        of_peer(failures(gone), peer) == if gone.contains(peer) {
            seq![PeerState::Failed]
        } else {
            Seq::empty()
        },
    decreases gone.len(),
{
    if gone.len() > 0 {
        let earlier = gone.drop_last();
        lemma_failures_of_peer(earlier, peer);
        assert(failures(gone).drop_last() =~= failures(earlier));
        assert(gone =~= earlier.push(gone.last()));
        lists::lemma_pushed(earlier, gone.last(), peer);
        if gone.last() == peer {
            assert(!earlier.contains(peer)) by {
                if earlier.contains(peer) {
                    let i = choose|i: int| 0 <= i < earlier.len() && earlier[i] == peer;
                    assert(gone[i] == gone[gone.len() - 1]);
                }
            }
            assert(Seq::<PeerState>::empty().push(PeerState::Failed) =~= seq![PeerState::Failed]);
        }
    }
}

/// However a socket is told of its peers, and whoever's time runs out, what
/// [`EnsembleSocket::update_peers`] passes on of a peer is in order, and follows on what was passed
/// on before: `Connecting` only first, nothing twice in a row, `Reconnecting` only from
/// `Connected`, `Disconnected` only of what was open, and nothing after `Failed`. What was passed
/// on last is what the next call goes on from.
pub proof fn law_updates_are_heard_in_order(
    before: SocketView,
    said: Seq<PeerChange>,
    now: u64,
    gone: Seq<u128>,
    after: SocketView,
    peer: u128,
)
    requires
        before.all_told(said, now).gives_up_on(gone, after, now),
    ensures
        ({
            let previous = before.state_of(peer);
            let heard = of_peer(before.news(said, now) + failures(gone), peer);
            &&& forall|i: int|
                0 <= i < heard.len() - 1 ==> can_follow(#[trigger] heard[i], heard[i + 1])
            &&& heard.len() > 0 && previous is Some ==> can_follow(previous->0, heard[0])
            &&& heard.len() > 0 && previous is None ==> heard[0] != PeerState::Reconnecting
                && heard[0] != PeerState::Disconnected
            &&& after.state_of(peer) == heard_last(previous, heard)
        }),
{
    let previous = before.state_of(peer);
    let news = before.news(said, now);
    let told = before.all_told(said, now);
    let spoken = of_peer(said, peer);
    lemma_news_is_history(before, said, now, peer);
    lemma_of_peer_joined(news, failures(gone), peer);
    lemma_failures_of_peer(gone, peer);
    let heard = of_peer(news + failures(gone), peer);
    if gone.contains(peer) {
        assert(told.is_given_up(peer, now));
        lemma_history_grows(previous, spoken, PeerState::Failed);
        assert(heard =~= history(previous, spoken.push(PeerState::Failed)));
        law_states_are_heard_in_order(previous, spoken.push(PeerState::Failed));
    } else {
        assert(heard =~= history(previous, spoken));
        law_states_are_heard_in_order(previous, spoken);
    }
}

} // verus!
