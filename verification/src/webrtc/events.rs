//! What the signalling server's word does to a session.
//!
//! A frame's events are read one after the other against the session as it stood before them. What
//! they do is listed in order, and done once they have all been read; what a later event has to
//! know of an earlier one — that this peer now hosts, that a seat was opened — is carried along.

use vstd::prelude::*;

use super::connection::LobbyEvent;
use super::outcome::{JoinFailure, LobbyLeftReason};
use super::world;
use super::world::{LobbyEntity, LobbyKind, ParticipantEntity, SeatEntity, SessionWorld};
use crate::lists;
use crate::protocol::LobbyInfo;

verus! {

/// How often the signalling server is told this peer is still here, in nanoseconds.
///
/// Well under any idle timeout a server would reasonably have, and cheap: one tiny frame over an
/// otherwise silent WebSocket. Without it a host sitting in a lobby waiting for players is
/// indistinguishable, to the server, from one that went away.
pub const KEEP_ALIVE_INTERVAL: u64 = 20_000_000_000;

/// How much longer than it should take a successor is waited for, in nanoseconds.
pub const SUCCESSOR_MARGIN: u64 = 10_000_000_000;

/// How long reaching a successor may take when no join timeout is set, in nanoseconds.
pub const DEFAULT_REACH: u64 = 15_000_000_000;

/// How much longer than a join reaching a successor may take, in nanoseconds.
pub const REACH_MARGIN: u64 = 5_000_000_000;

/// Nanoseconds in a second.
pub const SECOND: u64 = 1_000_000_000;

/// One thing to be done to the session or the socket.
#[derive(Debug, PartialEq, Eq)]
pub enum Effect {
    /// This peer is known as this.
    SetLocalId(u128),
    ForgetLocalId,
    /// The session's authority is this peer.
    SetHostUuid(u128),
    ForgetHostUuid,
    /// The pending lobby is created: it is active, under this id and code.
    PromoteHosted { lobby: u64, lobby_id: u64, code: String },
    /// The pending lobby is joined: it has this id, and this host.
    AttachJoined { lobby: u64, lobby_id: u64, host_uuid: u128 },
    DespawnLobby(u64),
    DespawnSeat(u64),
    DespawnParticipant(u64),
    ConnectPeer(u128),
    DisconnectPeer(u128),
    DisconnectAll,
    /// A pending seat is opened.
    SpawnSeat { seat: u64, lobby: u64, player_uuid: u128 },
    /// Somebody the server says is gone at a moment no host could say so.
    ParticipantDeparted { lobby: u64, player_uuid: u128 },
    /// The lobby survives its host: its successor is waited for this long, and tried to be reached
    /// this long.
    MakeMigratable { lobby: u64, successor_within: u64, reach_within: u64 },
    /// This peer hosts the lobby now, under this code.
    BecomeHost { lobby: u64, code: String },
    /// The lobby has a new host, and this code.
    FollowHost { lobby: u64, host_uuid: u128, code: String },
    /// The session is told of its new host.
    NewHostNamed { lobby: u64, previous: u128, new_host: u128, members: Vec<u128> },
    /// The client lobby is over, if it is still there when this is done: see
    /// [`end_client_lobbies`].
    EndClientLobby(u64),
    /// Every [`EndClientLobby`](Effect::EndClientLobby) was said.
    ConcludeClientLobbies(LobbyLeftReason),
    JoinFailed(JoinFailure),
    LobbyLeft(LobbyLeftReason),
    /// The lobby's host is lost, and a successor is waited for.
    HostLost(u64),
    /// The peer may be silent for this much longer, in nanoseconds, before it counts as gone.
    GiveGrace { entity: u64, extra: u64 },
    /// The peer may be silent no longer than any other.
    EndGrace(u64),
    ShowPublicLobbies(Vec<LobbyInfo>),
}

/// A seat that was opened during the frame.
#[derive(Debug, Clone, Copy, PartialEq, Eq)]
pub struct Seated {
    pub seat: u64,
    pub player_uuid: u128,
}

/// What one event has to know of those before it.
#[derive(Debug)]
pub struct LobbyFrame {
    /// Who this peer is, once the server has said.
    pub local_player_uuid: Option<u128>,
    /// Whether the connection to the server is gone.
    pub signalling_lost: bool,
    /// The lobby this peer hosts by now.
    pub hosted: Option<u64>,
    /// The seats opened so far.
    pub seated: Vec<Seated>,
    /// The name of the next seat to be opened; those after it are free as well.
    pub next_seat: u64,
}

/// The mathematical content of a [`LobbyFrame`].
#[verifier::ext_equal]
pub struct FrameView {
    pub local_player_uuid: Option<u128>,
    pub signalling_lost: bool,
    pub hosted: Option<u64>,
    pub seated: Seq<Seated>,
    pub next_seat: u64,
}

impl View for LobbyFrame {
    type V = FrameView;

    open spec fn view(&self) -> FrameView {
        FrameView {
            local_player_uuid: self.local_player_uuid,
            signalling_lost: self.signalling_lost,
            hosted: self.hosted,
            seated: self.seated@,
            next_seat: self.next_seat,
        }
    }
}

/// Every lobby despawned, in order.
pub open spec fn despawns(lobbies: Seq<LobbyEntity>) -> Seq<Effect> {
    lobbies.map_values(|lobby: LobbyEntity| Effect::DespawnLobby(lobby.entity))
}

/// Every client lobby ended, in order.
pub open spec fn ends(lobbies: Seq<LobbyEntity>) -> Seq<Effect> {
    lobbies.map_values(|lobby: LobbyEntity| Effect::EndClientLobby(lobby.entity))
}

/// Every seat despawned, in order.
pub open spec fn seats_despawned(seats: Seq<SeatEntity>) -> Seq<Effect> {
    seats.map_values(|seat: SeatEntity| Effect::DespawnSeat(seat.entity))
}

/// Takes part in a lobby.
pub open spec fn takes_part_in(lobby: u64) -> spec_fn(ParticipantEntity) -> bool {
    |participant: ParticipantEntity| participant.lobby == lobby
}

/// Everybody who takes part in a lobby despawned, in order.
pub open spec fn participants_despawned(
    participants: Seq<ParticipantEntity>,
    lobby: u64,
) -> Seq<Effect> {
    participants.filter(takes_part_in(lobby)).map_values(
        |participant: ParticipantEntity| Effect::DespawnParticipant(participant.entity),
    )
}

/// Every lobby torn down, in order, with all that is in it.
pub open spec fn torn_down(
    lobbies: Seq<LobbyEntity>,
    seats: Seq<SeatEntity>,
    participants: Seq<ParticipantEntity>,
) -> Seq<Effect>
    decreases lobbies.len(),
{
    if lobbies.len() == 0 {
        Seq::empty()
    } else {
        torn_down(lobbies.drop_last(), seats, participants) + participants_despawned(
            participants,
            lobbies.last().entity,
        ) + seats_despawned(seats) + seq![Effect::DespawnLobby(lobbies.last().entity)]
    }
}

/// A seat of `player`.
pub open spec fn seat_of_player(player: u128) -> spec_fn(SeatEntity) -> bool {
    |seat: SeatEntity| seat.player_uuid == player
}

/// A seat opened for `player` during the frame.
pub open spec fn seated_for(player: u128) -> spec_fn(Seated) -> bool {
    |seated: Seated| seated.player_uuid == player
}

/// A seat opened during the frame, but for `seat`.
pub open spec fn seated_elsewhere(seat: u64) -> spec_fn(Seated) -> bool {
    |seated: Seated| seated.seat != seat
}

/// The seat that `player` has, one that stood before the frame first.
pub open spec fn seat_for(seats: Seq<SeatEntity>, seated: Seq<Seated>, player: u128) -> Option<
    u64,
> {
    let before = seats.filter(seat_of_player(player));
    let during = seated.filter(seated_for(player));
    if before.len() > 0 {
        Some(before[0].entity)
    } else if during.len() > 0 {
        Some(during[0].seat)
    } else {
        None
    }
}

/// The frame and the effects once every one of `members` is seated that is not `me` and has no
/// seat.
pub open spec fn all_seated(
    frame: FrameView,
    seats: Seq<SeatEntity>,
    lobby: u64,
    me: u128,
    members: Seq<u128>,
) -> (FrameView, Seq<Effect>)
    decreases members.len(),
{
    if members.len() == 0 {
        (frame, Seq::empty())
    } else {
        let (before, effects) = all_seated(frame, seats, lobby, me, members.drop_last());
        let member = members.last();
        if member == me || seat_for(seats, before.seated, member) is Some {
            (before, effects)
        } else {
            (
                before.with_seat(member),
                effects + seq![
                    Effect::DisconnectPeer(member),
                    Effect::ConnectPeer(member),
                    Effect::SpawnSeat { seat: before.next_seat, lobby, player_uuid: member },
                ],
            )
        }
    }
}

impl FrameView {
    /// The frame with one more seat.
    pub open spec fn with_seat(self, player: u128) -> FrameView {
        FrameView {
            seated: self.seated.push(Seated { seat: self.next_seat, player_uuid: player }),
            next_seat: (self.next_seat + 1) as u64,
            ..self
        }
    }

    /// Whether there are enough seats left for an event.
    pub open spec fn has_seats_for(self, event: LobbyEvent) -> bool {
        match event {
            LobbyEvent::PlayerJoined { .. } => self.next_seat < u64::MAX,
            LobbyEvent::HostChanged { members, .. } => self.next_seat + members@.len() <= u64::MAX,
            _ => true,
        }
    }

    /// The frame after an event, and what is to be done about it.
    pub open spec fn applied(
        self,
        lobbies: Seq<LobbyEntity>,
        seats: Seq<SeatEntity>,
        participants: Seq<ParticipantEntity>,
        join_timeout: Option<u64>,
        event: LobbyEvent,
    ) -> (FrameView, Seq<Effect>) {
        match event {
            LobbyEvent::Welcome { player_uuid } => (
                FrameView { local_player_uuid: Some(player_uuid), ..self },
                seq![Effect::SetLocalId(player_uuid)],
            ),
            LobbyEvent::LobbyCreated { lobby_id, code } => (
                self,
                match self.local_player_uuid {
                    None => Seq::empty(),
                    // A host is its own authority.
                    Some(me) => seq![Effect::SetLocalId(me), Effect::SetHostUuid(me)] + match
                        world::first_lobby(lobbies, world::pending_host_lobby()) {
                        Some(lobby) => seq![
                            Effect::PromoteHosted { lobby: lobby.entity, lobby_id, code },
                        ],
                        None => Seq::empty(),
                    },
                },
            ),
            LobbyEvent::LobbyJoined { lobby_id, host_uuid, .. } => (
                self,
                match self.local_player_uuid {
                    None => Seq::empty(),
                    Some(me) => seq![Effect::SetLocalId(me), Effect::SetHostUuid(host_uuid)]
                        + match world::first_lobby(lobbies, world::pending_client_lobby()) {
                        Some(lobby) => seq![
                            Effect::AttachJoined { lobby: lobby.entity, lobby_id, host_uuid },
                        ],
                        None => Seq::empty(),
                    },
                },
            ),
            LobbyEvent::LobbyError { .. } => (
                self,
                seq![Effect::ForgetLocalId, Effect::ForgetHostUuid] + despawns(
                    lobbies.filter(world::pending_host_lobby()),
                ) + despawns(lobbies.filter(world::pending_client_lobby())),
            ),
            LobbyEvent::PlayerJoined { player_uuid } => match self.hosted {
                Some(lobby) if seat_for(seats, self.seated, player_uuid) is None => (
                    self.with_seat(player_uuid),
                    seq![
                        Effect::ConnectPeer(player_uuid),
                        Effect::SpawnSeat { seat: self.next_seat, lobby, player_uuid },
                    ],
                ),
                _ => (self, Seq::empty()),
            },
            LobbyEvent::PlayerLeft { player_uuid } => match seat_for(
                seats,
                self.seated,
                player_uuid,
            ) {
                Some(seat) if self.hosted is Some => (
                    FrameView { seated: self.seated.filter(seated_elsewhere(seat)), ..self },
                    seq![Effect::DespawnSeat(seat)],
                ),
                _ => (
                    self,
                    if lobbies.len() > 0 {
                        seq![
                            Effect::ParticipantDeparted { lobby: lobbies[0].entity, player_uuid },
                        ]
                    } else {
                        Seq::empty()
                    },
                ),
            },
            LobbyEvent::LobbyList { lobbies: listed } => (
                self,
                seq![Effect::ShowPublicLobbies(listed)],
            ),
            LobbyEvent::Disconnected { .. } => {
                let over = lobbies.filter(world::pending_client_lobby()) + lobbies.filter(
                    world::active_client_lobby(),
                );
                (
                    self,
                    if over.len() == 0 {
                        seq![Effect::ForgetLocalId, Effect::ForgetHostUuid]
                    } else {
                        ends(over).push(Effect::ConcludeClientLobbies(LobbyLeftReason::HostGone))
                    },
                )
            },
            LobbyEvent::LobbyMigratable { idle_timeout_secs } => (
                self,
                if lobbies.len() > 0 {
                    seq![
                        Effect::MakeMigratable {
                            lobby: lobbies[0].entity,
                            successor_within: successor_within(idle_timeout_secs),
                            reach_within: reach_within(join_timeout),
                        },
                    ]
                } else {
                    Seq::empty()
                },
            ),
            LobbyEvent::HostChanged { previous_host, new_host, code, members, .. } => {
                match self.local_player_uuid {
                    Some(me) if lobbies.len() > 0 => {
                        let lobby = lobbies[0].entity;
                        let named = Effect::NewHostNamed {
                            lobby,
                            previous: previous_host,
                            new_host,
                            members,
                        };
                        if new_host == me {
                            let (after, opened) = all_seated(
                                FrameView { hosted: Some(lobby), ..self },
                                seats,
                                lobby,
                                me,
                                members@,
                            );
                            (
                                after,
                                seq![
                                    Effect::DisconnectPeer(previous_host),
                                    Effect::BecomeHost { lobby, code },
                                ] + opened + seq![named],
                            )
                        } else {
                            (
                                FrameView { hosted: None, ..self },
                                seq![
                                    Effect::DisconnectPeer(previous_host),
                                    Effect::DisconnectPeer(new_host),
                                    Effect::FollowHost { lobby, host_uuid: new_host, code },
                                    named,
                                ],
                            )
                        }
                    },
                    _ => (self, Seq::empty()),
                }
            },
            LobbyEvent::SignallingClosed => (
                FrameView { signalling_lost: true, ..self },
                seq![Effect::DisconnectAll] + torn_down(lobbies, seats, participants) + seq![
                    Effect::ForgetLocalId,
                    Effect::ForgetHostUuid,
                ] + (if exists|i: int| 0 <= i < lobbies.len() && (#[trigger] lobbies[i]).pending {
                    seq![Effect::JoinFailed(JoinFailure::SignallingLost)]
                } else {
                    Seq::empty()
                }) + (if lobbies.len() > 0 {
                    seq![Effect::LobbyLeft(LobbyLeftReason::SignallingLost)]
                } else {
                    Seq::empty()
                }),
            ),
        }
    }

    /// The frame after events, in order, and what is to be done about them.
    pub open spec fn all_applied(
        self,
        lobbies: Seq<LobbyEntity>,
        seats: Seq<SeatEntity>,
        participants: Seq<ParticipantEntity>,
        join_timeout: Option<u64>,
        events: Seq<LobbyEvent>,
    ) -> (FrameView, Seq<Effect>)
        decreases events.len(),
    {
        if events.len() == 0 {
            (self, Seq::empty())
        } else {
            let (before, effects) = self.all_applied(
                lobbies,
                seats,
                participants,
                join_timeout,
                events.drop_last(),
            );
            let (after, more) = before.applied(
                lobbies,
                seats,
                participants,
                join_timeout,
                events.last(),
            );
            (after, effects + more)
        }
    }
}

/// How long a successor is waited for: as long as the server takes to notice a silent host, plus
/// the keep-alive it would have to miss, plus margin.
pub open spec fn successor_within(idle_timeout_secs: u32) -> u64 {
    (idle_timeout_secs * SECOND + KEEP_ALIVE_INTERVAL + SUCCESSOR_MARGIN) as u64
}

/// How long reaching a successor may take: as long as a join, plus margin.
pub open spec fn reach_within(join_timeout: Option<u64>) -> u64 {
    (match join_timeout {
        Some(timeout) => timeout as int,
        None => DEFAULT_REACH as int,
    } + REACH_MARGIN) as u64
}

/// Whether a join timeout leaves room for the margin on top of it.
pub open spec fn has_room_for_margin(join_timeout: Option<u64>) -> bool {
    join_timeout matches Some(timeout) ==> timeout + REACH_MARGIN <= u64::MAX
}

fn push_all_despawns(effects: &mut Vec<Effect>, lobbies: &Vec<LobbyEntity>)
    ensures
        final(effects)@ == old(effects)@ + despawns(lobbies@),
{
    let mut i: usize = 0;
    assert(effects@ =~= old(effects)@ + despawns(lobbies@.take(0)));
    while i < lobbies.len()
        invariant
            i <= lobbies@.len(),
            effects@ == old(effects)@ + despawns(lobbies@.take(i as int)),
        decreases lobbies.len() - i,
    {
        effects.push(Effect::DespawnLobby(lobbies[i].entity));
        i += 1;
        assert(effects@ =~= old(effects)@ + despawns(lobbies@.take(i as int)));
    }
    assert(lobbies@.take(i as int) =~= lobbies@);
}

fn push_all_ends(effects: &mut Vec<Effect>, lobbies: &Vec<LobbyEntity>)
    ensures
        final(effects)@ == old(effects)@ + ends(lobbies@),
{
    let mut i: usize = 0;
    assert(effects@ =~= old(effects)@ + ends(lobbies@.take(0)));
    while i < lobbies.len()
        invariant
            i <= lobbies@.len(),
            effects@ == old(effects)@ + ends(lobbies@.take(i as int)),
        decreases lobbies.len() - i,
    {
        effects.push(Effect::EndClientLobby(lobbies[i].entity));
        i += 1;
        assert(effects@ =~= old(effects)@ + ends(lobbies@.take(i as int)));
    }
    assert(lobbies@.take(i as int) =~= lobbies@);
}

fn push_all_seats(effects: &mut Vec<Effect>, seats: &Vec<SeatEntity>)
    ensures
        final(effects)@ == old(effects)@ + seats_despawned(seats@),
{
    let mut i: usize = 0;
    assert(effects@ =~= old(effects)@ + seats_despawned(seats@.take(0)));
    while i < seats.len()
        invariant
            i <= seats@.len(),
            effects@ == old(effects)@ + seats_despawned(seats@.take(i as int)),
        decreases seats.len() - i,
    {
        effects.push(Effect::DespawnSeat(seats[i].entity));
        i += 1;
        assert(effects@ =~= old(effects)@ + seats_despawned(seats@.take(i as int)));
    }
    assert(seats@.take(i as int) =~= seats@);
}

fn push_participants(
    effects: &mut Vec<Effect>,
    participants: &Vec<ParticipantEntity>,
    lobby: u64,
)
    ensures
        final(effects)@ == old(effects)@ + participants_despawned(participants@, lobby),
{
    let mut i: usize = 0;
    proof {
        reveal(Seq::filter);
        assert(effects@ =~= old(effects)@ + participants_despawned(participants@.take(0), lobby));
    }
    while i < participants.len()
        invariant
            i <= participants@.len(),
            effects@ == old(effects)@ + participants_despawned(
                participants@.take(i as int),
                lobby,
            ),
        decreases participants.len() - i,
    {
        proof {
            reveal(Seq::filter);
            assert(participants@.take(i + 1).drop_last() =~= participants@.take(i as int));
        }
        if participants[i].lobby == lobby {
            effects.push(Effect::DespawnParticipant(participants[i].entity));
        }
        assert(effects@ =~= old(effects)@ + participants_despawned(
            participants@.take(i + 1),
            lobby,
        ));
        i += 1;
    }
    assert(participants@.take(i as int) =~= participants@);
}

/// Tear every lobby down; whether one was pending.
fn tear_down(effects: &mut Vec<Effect>, world: &SessionWorld) -> (was_joining: bool)
    ensures
        final(effects)@ == old(effects)@ + torn_down(
            world.lobbies@,
            world.seats@,
            world.participants@,
        ),
        was_joining == exists|i: int|
            0 <= i < world.lobbies@.len() && (#[trigger] world.lobbies@[i]).pending,
{
    let mut was_joining = false;
    let mut i: usize = 0;
    assert(world.lobbies@.take(0) =~= Seq::<LobbyEntity>::empty());
    assert(effects@ =~= old(effects)@ + torn_down(
        world.lobbies@.take(0),
        world.seats@,
        world.participants@,
    ));
    while i < world.lobbies.len()
        invariant
            i <= world.lobbies@.len(),
            effects@ == old(effects)@ + torn_down(
                world.lobbies@.take(i as int),
                world.seats@,
                world.participants@,
            ),
            was_joining == exists|j: int|
                0 <= j < i && (#[trigger] world.lobbies@[j]).pending,
        decreases world.lobbies.len() - i,
    {
        let lobby: u64 = world.lobbies[i].entity;
        proof {
            assert(world.lobbies@.take(i + 1).drop_last() =~= world.lobbies@.take(i as int));
            assert(world.lobbies@.take(i + 1).last() == world.lobbies@[i as int]);
        }
        if world.lobbies[i].pending {
            was_joining = true;
        }
        push_participants(effects, &world.participants, lobby);
        push_all_seats(effects, &world.seats);
        effects.push(Effect::DespawnLobby(lobby));
        assert(effects@ =~= old(effects)@ + torn_down(
            world.lobbies@.take(i + 1),
            world.seats@,
            world.participants@,
        ));
        i += 1;
    }
    assert(world.lobbies@.take(i as int) =~= world.lobbies@);
    was_joining
}

/// The seat that `player` has, one that stood before the frame first.
fn find_seat(seats: &Vec<SeatEntity>, seated: &Vec<Seated>, player: u128) -> (seat: Option<u64>)
    ensures
        seat == seat_for(seats@, seated@, player),
{
    let mut i: usize = 0;
    proof {
        reveal(Seq::filter);
    }
    while i < seats.len()
        invariant
            i <= seats@.len(),
            seats@.take(i as int).filter(seat_of_player(player)).len() == 0,
        decreases seats.len() - i,
    {
        proof {
            reveal(Seq::filter);
            assert(seats@.take(i + 1).drop_last() =~= seats@.take(i as int));
        }
        if seats[i].player_uuid == player {
            proof {
                lists::lemma_first_of_filter(seats@, i as int, seat_of_player(player));
            }
            return Some(seats[i].entity);
        }
        i += 1;
    }
    assert(seats@.take(i as int) =~= seats@);
    let mut i: usize = 0;
    while i < seated.len()
        invariant
            i <= seated@.len(),
            seats@.filter(seat_of_player(player)).len() == 0,
            seated@.take(i as int).filter(seated_for(player)).len() == 0,
        decreases seated.len() - i,
    {
        proof {
            reveal(Seq::filter);
            assert(seated@.take(i + 1).drop_last() =~= seated@.take(i as int));
        }
        if seated[i].player_uuid == player {
            proof {
                lists::lemma_first_of_filter(seated@, i as int, seated_for(player));
            }
            return Some(seated[i].seat);
        }
        i += 1;
    }
    assert(seated@.take(i as int) =~= seated@);
    None
}

/// `seated` without `seat`.
fn all_but_seat(seated: &Vec<Seated>, seat: u64) -> (rest: Vec<Seated>)
    ensures
        rest@ == seated@.filter(seated_elsewhere(seat)),
{
    let mut rest: Vec<Seated> = Vec::new();
    let mut i: usize = 0;
    proof {
        reveal(Seq::filter);
    }
    while i < seated.len()
        invariant
            i <= seated@.len(),
            rest@ == seated@.take(i as int).filter(seated_elsewhere(seat)),
        decreases seated.len() - i,
    {
        proof {
            reveal(Seq::filter);
            assert(seated@.take(i + 1).drop_last() =~= seated@.take(i as int));
        }
        if seated[i].seat != seat {
            rest.push(seated[i]);
        }
        i += 1;
    }
    assert(seated@.take(i as int) =~= seated@);
    rest
}

impl LobbyFrame {
    /// A frame of a session: what of it carries over is the peer's identity and whether the
    /// connection is gone.
    pub fn new(
        local_player_uuid: Option<u128>,
        signalling_lost: bool,
        world: &SessionWorld,
        next_seat: u64,
    ) -> (frame: Self)
        ensures
            frame@ == (FrameView {
                local_player_uuid,
                signalling_lost,
                hosted: world::single_hosted(world.lobbies@),
                seated: Seq::empty(),
                next_seat,
            }),
    {
        LobbyFrame {
            local_player_uuid,
            signalling_lost,
            hosted: world.single_hosted(),
            seated: Vec::new(),
            next_seat,
        }
    }

    /// Open a seat and note it.
    fn seat(&mut self, effects: &mut Vec<Effect>, lobby: u64, player_uuid: u128)
        requires
            old(self).next_seat < u64::MAX,
        ensures
            final(self)@ == old(self)@.with_seat(player_uuid),
            final(effects)@ == old(effects)@.push(
                Effect::SpawnSeat { seat: old(self).next_seat, lobby, player_uuid },
            ),
    {
        let seat: u64 = self.next_seat;
        effects.push(Effect::SpawnSeat { seat, lobby, player_uuid });
        self.seated.push(Seated { seat, player_uuid });
        self.next_seat = seat + 1;
    }

    /// Seat every one of `members` that is not `me` and has no seat.
    fn seat_all(
        &mut self,
        effects: &mut Vec<Effect>,
        seats: &Vec<SeatEntity>,
        lobby: u64,
        me: u128,
        members: &Vec<u128>,
    )
        requires
            old(self).next_seat + members@.len() <= u64::MAX,
        ensures
            final(self)@ == all_seated(old(self)@, seats@, lobby, me, members@).0,
            final(effects)@ == old(effects)@ + all_seated(
                old(self)@,
                seats@,
                lobby,
                me,
                members@,
            ).1,
    {
        let mut i: usize = 0;
        assert(members@.take(0) =~= Seq::<u128>::empty());
        assert(effects@ =~= old(effects)@ + Seq::<Effect>::empty());
        while i < members.len()
            invariant
                i <= members@.len(),
                self.next_seat <= old(self).next_seat + i,
                old(self).next_seat + members@.len() <= u64::MAX,
                self@ == all_seated(old(self)@, seats@, lobby, me, members@.take(i as int)).0,
                effects@ == old(effects)@ + all_seated(
                    old(self)@,
                    seats@,
                    lobby,
                    me,
                    members@.take(i as int),
                ).1,
            decreases members.len() - i,
        {
            let member: u128 = members[i];
            proof {
                assert(members@.take(i + 1).drop_last() =~= members@.take(i as int));
                assert(members@.take(i + 1).last() == member);
            }
            if member != me && find_seat(seats, &self.seated, member).is_none() {
                // A stale entry would make the offer a no-op.
                effects.push(Effect::DisconnectPeer(member));
                effects.push(Effect::ConnectPeer(member));
                self.seat(effects, lobby, member);
                assert(effects@ =~= old(effects)@ + all_seated(
                    old(self)@,
                    seats@,
                    lobby,
                    me,
                    members@.take(i + 1),
                ).1);
            }
            i += 1;
        }
        assert(members@.take(i as int) =~= members@);
    }

    /// Apply one event: what is to be done about it.
    pub fn apply(
        &mut self,
        world: &SessionWorld,
        join_timeout: Option<u64>,
        event: LobbyEvent,
    ) -> (effects: Vec<Effect>)
        requires
            old(self)@.has_seats_for(event),
            has_room_for_margin(join_timeout),
        ensures
            final(self)@ == old(self)@.applied(
                world.lobbies@,
                world.seats@,
                world.participants@,
                join_timeout,
                event,
            ).0,
            effects@ == old(self)@.applied(
                world.lobbies@,
                world.seats@,
                world.participants@,
                join_timeout,
                event,
            ).1,
    {
        let mut effects: Vec<Effect> = Vec::new();
        let ghost due = self@.applied(
            world.lobbies@,
            world.seats@,
            world.participants@,
            join_timeout,
            event,
        );
        match event {
            LobbyEvent::Welcome { player_uuid } => {
                self.local_player_uuid = Some(player_uuid);
                // The identity is known from here on, before any lobby exists.
                effects.push(Effect::SetLocalId(player_uuid));
            },
            LobbyEvent::LobbyCreated { lobby_id, code } => {
                if let Some(me) = self.local_player_uuid {
                    effects.push(Effect::SetLocalId(me));
                    // A host is its own authority.
                    effects.push(Effect::SetHostUuid(me));
                    if let Some(lobby) = world.first_of(LobbyKind::PendingHost) {
                        effects.push(
                            Effect::PromoteHosted { lobby: lobby.entity, lobby_id, code },
                        );
                    }
                }
            },
            LobbyEvent::LobbyJoined { lobby_id, host_uuid, existing_members: _ } => {
                if let Some(me) = self.local_player_uuid {
                    effects.push(Effect::SetLocalId(me));
                    // Known before the host's offer can be answered, so that no data channel
                    // exists to a peer this side does not trust.
                    effects.push(Effect::SetHostUuid(host_uuid));
                    if let Some(lobby) = world.first_of(LobbyKind::PendingClient) {
                        effects.push(
                            Effect::AttachJoined { lobby: lobby.entity, lobby_id, host_uuid },
                        );
                    }
                }
            },
            LobbyEvent::LobbyError { reason: _ } => {
                effects.push(Effect::ForgetLocalId);
                effects.push(Effect::ForgetHostUuid);
                push_all_despawns(&mut effects, &world.lobbies_of(LobbyKind::PendingHost));
                push_all_despawns(&mut effects, &world.lobbies_of(LobbyKind::PendingClient));
            },
            LobbyEvent::PlayerJoined { player_uuid } => {
                if let Some(lobby) = self.hosted {
                    if find_seat(&world.seats, &self.seated, player_uuid).is_none() {
                        effects.push(Effect::ConnectPeer(player_uuid));
                        self.seat(&mut effects, lobby, player_uuid);
                    }
                }
            },
            LobbyEvent::PlayerLeft { player_uuid } => {
                let seat = if self.hosted.is_some() {
                    find_seat(&world.seats, &self.seated, player_uuid)
                } else {
                    None
                };
                match seat {
                    Some(seat) => {
                        self.seated = all_but_seat(&self.seated, seat);
                        effects.push(Effect::DespawnSeat(seat));
                    },
                    // Somebody the server says is gone at a moment no host could say so: a member
                    // a new host inherited and has no seat for yet, or one that left while this
                    // peer waited for its host.
                    None => {
                        if world.lobbies.len() > 0 {
                            effects.push(
                                Effect::ParticipantDeparted {
                                    lobby: world.lobbies[0].entity,
                                    player_uuid,
                                },
                            );
                        }
                    },
                }
            },
            LobbyEvent::LobbyList { lobbies } => {
                effects.push(Effect::ShowPublicLobbies(lobbies));
            },
            LobbyEvent::Disconnected { reason: _ } => {
                let pending = world.lobbies_of(LobbyKind::PendingClient);
                let active = world.lobbies_of(LobbyKind::ActiveClient);
                if pending.len() == 0 && active.len() == 0 {
                    effects.push(Effect::ForgetLocalId);
                    effects.push(Effect::ForgetHostUuid);
                } else {
                    push_all_ends(&mut effects, &pending);
                    push_all_ends(&mut effects, &active);
                    effects.push(Effect::ConcludeClientLobbies(LobbyLeftReason::HostGone));
                }
            },
            LobbyEvent::LobbyMigratable { idle_timeout_secs } => {
                if world.lobbies.len() > 0 {
                    let successor_within: u64 = idle_timeout_secs as u64 * SECOND
                        + KEEP_ALIVE_INTERVAL + SUCCESSOR_MARGIN;
                    let reach: u64 = match join_timeout {
                        Some(timeout) => timeout,
                        None => DEFAULT_REACH,
                    };
                    effects.push(
                        Effect::MakeMigratable {
                            lobby: world.lobbies[0].entity,
                            successor_within,
                            reach_within: reach + REACH_MARGIN,
                        },
                    );
                }
            },
            LobbyEvent::HostChanged { lobby_id: _, previous_host, new_host, code, members } => {
                if let Some(me) = self.local_player_uuid {
                    if world.lobbies.len() > 0 {
                        let lobby: u64 = world.lobbies[0].entity;
                        effects.push(Effect::DisconnectPeer(previous_host));
                        if new_host == me {
                            effects.push(Effect::BecomeHost { lobby, code });
                            self.hosted = Some(lobby);
                            self.seat_all(&mut effects, &world.seats, lobby, me, &members);
                        } else {
                            self.hosted = None;
                            // So its offer makes a fresh connection, not a restart of a dead one.
                            effects.push(Effect::DisconnectPeer(new_host));
                            effects.push(Effect::FollowHost { lobby, host_uuid: new_host, code });
                        }
                        effects.push(
                            Effect::NewHostNamed {
                                lobby,
                                previous: previous_host,
                                new_host,
                                members,
                            },
                        );
                    }
                }
            },
            LobbyEvent::SignallingClosed => {
                self.signalling_lost = true;
                // Before anything is despawned: the seats go while their lobby still stands, which
                // reads as each of them being kicked. Nobody here is being removed from a session
                // that goes on; the session is over for all of them.
                effects.push(Effect::DisconnectAll);
                let was_joining = tear_down(&mut effects, world);
                effects.push(Effect::ForgetLocalId);
                effects.push(Effect::ForgetHostUuid);
                if was_joining {
                    effects.push(Effect::JoinFailed(JoinFailure::SignallingLost));
                }
                if world.lobbies.len() > 0 {
                    effects.push(Effect::LobbyLeft(LobbyLeftReason::SignallingLost));
                }
            },
        }
        assert(self@ =~= due.0);
        assert(effects@ =~= due.1);
        effects
    }
}

} // verus!
