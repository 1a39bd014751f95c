//! Data shared by the server and by the client-side mirror: identifiers, roles,
//! cycles, snapshots and the event stream, each with its mathematical view.

use std::collections::HashMap;
use vstd::prelude::*;

verus! {

/// Identifier of a connected client: a slot of the bounded id pool.
#[derive(Copy, Clone, PartialEq, Eq, PartialOrd, Ord, Hash, Debug, Structural)]
pub struct ClientId(pub usize);

/// Bearer credential of one connection: an opaque 128-bit value.
#[derive(Copy, Clone, PartialEq, Eq, PartialOrd, Ord, Hash, Debug, Structural)]
pub struct SessionToken(pub u128);

impl SessionToken {
    /// Draws a token from `uuid::Uuid::new_v4` and keeps its 128 bits
    /// (`Uuid::as_u128`). The bits are random, so nothing is claimed of them.
    #[verifier::external_body]
    pub fn new() -> (token: SessionToken) {
        SessionToken(uuid::Uuid::new_v4().as_u128())
    }
}

/// Which side a player is on.
#[derive(Copy, Clone, PartialEq, Eq, PartialOrd, Ord, Hash, Debug, Structural)]
pub enum Allegiance {
    Mafia,
    Villagers,
}

/// A special role a player can hold.
#[derive(Copy, Clone, PartialEq, Eq, PartialOrd, Ord, Hash, Debug, Structural)]
pub enum SpecialRole {
    Mafia,
    /// Protects one player from the Mafia's kill each night.
    Doctor,
    /// Learns the allegiance of one player each night.
    Detective,
}

impl SpecialRole {
    /// The side a role plays for, as a specification.
    pub open spec fn side(self) -> Allegiance {
        match self {
            SpecialRole::Mafia => Allegiance::Mafia,
            SpecialRole::Doctor => Allegiance::Villagers,
            SpecialRole::Detective => Allegiance::Villagers,
        }
    }

    /// The side a role plays for.
    pub fn allegiance(&self) -> (side: Allegiance)
        ensures
            side == self.side(),
    {
        match self {
            SpecialRole::Mafia => Allegiance::Mafia,
            SpecialRole::Doctor => Allegiance::Villagers,
            SpecialRole::Detective => Allegiance::Villagers,
        }
    }
}

/// The side of a player whose role, if any, is `role`: a player without a
/// special role is a plain villager.
pub open spec fn side_of(role: Option<SpecialRole>) -> Allegiance {
    match role {
        Some(r) => r.side(),
        None => Allegiance::Villagers,
    }
}

/// State of a player in a game.
#[derive(Copy, Clone, PartialEq, Eq, PartialOrd, Ord, Hash, Debug, Structural)]
pub enum PlayerStatus {
    Alive,
    Dead,
}

/// The phase a game is in.
#[derive(Copy, Clone, PartialEq, Eq, PartialOrd, Ord, Hash, Debug, Structural)]
pub enum Cycle {
    Day,
    Night,
}

impl Cycle {
    /// The phase that follows, as a specification.
    pub open spec fn flip(self) -> Cycle {
        match self {
            Cycle::Night => Cycle::Day,
            Cycle::Day => Cycle::Night,
        }
    }

    /// The phase that follows: day and night alternate.
    pub fn next(self) -> (following: Cycle)
        ensures
            following == self.flip(),
            following != self,
            following.flip() == self,
    {
        match self {
            Cycle::Night => Cycle::Day,
            Cycle::Day => Cycle::Night,
        }
    }
}

/// Public information about a client.
#[derive(Clone, PartialEq, Eq, PartialOrd, Ord, Hash, Debug)]
pub struct ClientInfo {
    pub name: String,
    pub id: ClientId,
}

/// What a `ClientInfo` stands for.
pub struct ClientInfoView {
    pub name: Seq<char>,
    pub id: ClientId,
}

impl View for ClientInfo {
    type V = ClientInfoView;

    open spec fn view(&self) -> ClientInfoView {
        ClientInfoView { name: self.name@, id: self.id }
    }
}

impl ClientInfo {
    /// A copy with the same name and id.
    pub fn duplicate(&self) -> (copy: ClientInfo)
        ensures
            copy@ == self@,
    {
        ClientInfo { name: self.name.clone(), id: self.id }
    }
}

/// A snapshot of a game, tailored to the client that receives it.
#[derive(Clone, PartialEq, Eq, Debug)]
pub struct GameInfo {
    pub cycle_start_time_unix_ts_secs: u64,
    pub cycle_duration_secs: u64,
    pub current_cycle: Cycle,
    pub day_num: usize,
    pub player_to_role: HashMap<usize, SpecialRole>,
    pub player_status: HashMap<usize, PlayerStatus>,
    pub votes: HashMap<usize, Option<ClientId>>,
    pub winner: Option<Allegiance>,
}

/// What a `GameInfo` stands for; the maps are keyed by the players' ids.
pub struct GameInfoView {
    pub cycle_start_time_unix_ts_secs: u64,
    pub cycle_duration_secs: u64,
    pub current_cycle: Cycle,
    pub day_num: usize,
    pub player_to_role: Map<usize, SpecialRole>,
    pub player_status: Map<usize, PlayerStatus>,
    pub votes: Map<usize, Option<ClientId>>,
    pub winner: Option<Allegiance>,
}

impl View for GameInfo {
    type V = GameInfoView;

    open spec fn view(&self) -> GameInfoView {
        GameInfoView {
            cycle_start_time_unix_ts_secs: self.cycle_start_time_unix_ts_secs,
            cycle_duration_secs: self.cycle_duration_secs,
            current_cycle: self.current_cycle,
            day_num: self.day_num,
            player_to_role: self.player_to_role@,
            player_status: self.player_status@,
            votes: self.votes@,
            winner: self.winner,
        }
    }
}

/// The view of a table of client information: each entry by its own view.
pub open spec fn client_infos_view(m: Map<usize, ClientInfo>) -> Map<usize, ClientInfoView> {
    Map::new(|k: usize| m.contains_key(k), |k: usize| m[k]@)
}

/// The view of an optional game snapshot.
pub open spec fn game_info_view(g: Option<GameInfo>) -> Option<GameInfoView> {
    match g {
        Some(info) => Some(info@),
        None => None,
    }
}

/// What a client is told of the server when it connects.
#[derive(Clone, PartialEq, Eq, Debug)]
pub struct ServerInfo {
    pub connected_clients: HashMap<usize, ClientInfo>,
    pub active_game: Option<GameInfo>,
}

/// What a `ServerInfo` stands for.
pub struct ServerInfoView {
    pub connected_clients: Map<usize, ClientInfoView>,
    pub active_game: Option<GameInfoView>,
}

impl View for ServerInfo {
    type V = ServerInfoView;

    open spec fn view(&self) -> ServerInfoView {
        ServerInfoView {
            connected_clients: client_infos_view(self.connected_clients@),
            active_game: game_info_view(self.active_game),
        }
    }
}

/// Who a message is from.
#[derive(Copy, Clone, PartialEq, Eq, PartialOrd, Ord, Hash, Debug, Structural)]
pub enum Entity {
    Client(ClientId),
    System,
}

/// The scope in which an event is seen.
#[derive(Copy, Clone, PartialEq, Eq, PartialOrd, Ord, Hash, Debug, Structural)]
pub enum EventChannel {
    /// Everyone sees the event.
    Public,
    /// Only Mafia, spectators and dead players see the event.
    Mafia,
    /// Only spectators and dead players see the event.
    Spectator,
}

/// A chat message.
#[derive(Debug, Clone, PartialEq, Eq, PartialOrd, Ord)]
pub struct Message {
    pub channel: EventChannel,
    pub contents: String,
    pub from: Entity,
}

/// What a `Message` stands for.
pub struct MessageView {
    pub channel: EventChannel,
    pub contents: Seq<char>,
    pub from: Entity,
}

impl View for Message {
    type V = MessageView;

    open spec fn view(&self) -> MessageView {
        MessageView { channel: self.channel, contents: self.contents@, from: self.from }
    }
}

/// What the server tells its clients.
#[allow(inconsistent_fields)]
#[derive(Debug, Clone, PartialEq, Eq)]
pub enum Event {
    /// The whole server state, sent to a client when it connects.
    SetServerInfo(ServerInfo),
    SetGame(GameInfo),
    EndGame,
    ClientConnected(ClientInfo),
    ClientDisconnected(ClientId),
    MessageReceived(Message),
    VoteIssued { voter: ClientId, target: Option<ClientId>, channel: EventChannel },
    FailedVote { cycle: Cycle, channel: EventChannel },
    SetCycle { start_time_unix_ts_secs: u64, duration_secs: u64, cycle: Cycle, day_num: usize },
    PlayerKilled { player: ClientId, cycle: Cycle, death_message: String },
    PlayerInvestigated { actor: ClientId, target: ClientId, allegiance: Allegiance },
    GameWon { player_to_role: HashMap<usize, SpecialRole>, side: Allegiance },
}

/// What an `Event` stands for.
#[allow(inconsistent_fields)]
pub enum EventView {
    SetServerInfo(ServerInfoView),
    SetGame(GameInfoView),
    EndGame,
    ClientConnected(ClientInfoView),
    ClientDisconnected(ClientId),
    MessageReceived(MessageView),
    VoteIssued { voter: ClientId, target: Option<ClientId>, channel: EventChannel },
    FailedVote { cycle: Cycle, channel: EventChannel },
    SetCycle { start_time_unix_ts_secs: u64, duration_secs: u64, cycle: Cycle, day_num: usize },
    PlayerKilled { player: ClientId, cycle: Cycle, death_message: Seq<char> },
    PlayerInvestigated { actor: ClientId, target: ClientId, allegiance: Allegiance },
    GameWon { player_to_role: Map<usize, SpecialRole>, side: Allegiance },
}

impl View for Event {
    type V = EventView;

    open spec fn view(&self) -> EventView {
        match *self {
            Event::SetServerInfo(info) => EventView::SetServerInfo(info@),
            Event::SetGame(info) => EventView::SetGame(info@),
            Event::EndGame => EventView::EndGame,
            Event::ClientConnected(info) => EventView::ClientConnected(info@),
            Event::ClientDisconnected(id) => EventView::ClientDisconnected(id),
            Event::MessageReceived(message) => EventView::MessageReceived(message@),
            Event::VoteIssued { voter, target, channel } => EventView::VoteIssued {
                voter,
                target,
                channel,
            },
            Event::FailedVote { cycle, channel } => EventView::FailedVote { cycle, channel },
            Event::SetCycle { start_time_unix_ts_secs, duration_secs, cycle, day_num } => {
                EventView::SetCycle { start_time_unix_ts_secs, duration_secs, cycle, day_num }
            },
            Event::PlayerKilled { player, cycle, death_message } => EventView::PlayerKilled {
                player,
                cycle,
                death_message: death_message@,
            },
            Event::PlayerInvestigated { actor, target, allegiance } => {
                EventView::PlayerInvestigated { actor, target, allegiance }
            },
            Event::GameWon { player_to_role, side } => EventView::GameWon {
                player_to_role: player_to_role@,
                side,
            },
        }
    }
}

/// The views of a list of events, in order.
pub open spec fn event_views(events: Seq<Event>) -> Seq<EventView> {
    events.map_values(|e: Event| e@)
}

/// Adding an event to a list adds its view to the list's views.
pub proof fn lemma_event_views_push(events: Seq<Event>, event: Event)
    ensures
        event_views(events.push(event)) == event_views(events).push(event@),
{
    assert(event_views(events.push(event)) =~= event_views(events).push(event@));
}

impl From<Message> for Event {
    /// A message as the event that delivers it.
    fn from(value: Message) -> (event: Event) {
        Event::MessageReceived(value)
    }
}

impl vstd::std_specs::convert::FromSpecImpl<Message> for Event {
    open spec fn obeys_from_spec() -> bool {
        true
    }

    open spec fn from_spec(value: Message) -> Event {
        Event::MessageReceived(value)
    }
}

} // verus!
