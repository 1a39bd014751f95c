//! The server facade: it owns the client registry and the game, decides who
//! may see each event, tailors what a client is told of a game to that
//! client, and routes chat and votes.

use crate::client::lemma_connection_keeps_wf;
use crate::client::shared_event_views;
use crate::client::ClientState;
use crate::client::ClientView;
use crate::client::RegistryView;
use crate::client_set::ascending_ids;
use crate::client_set::ClientSet;
use crate::client_set::MAX_PLAYERS;
use crate::consts::day_death_messages;
use crate::consts::day_death_texts;
use crate::consts::night_death_messages;
use crate::consts::night_death_texts;
use crate::consts::texts_of;
use crate::error::ConfigFault;
use crate::error::MafiaGameError;
use crate::error::VoteRejection;
use crate::game::id_numbers;
use crate::game::is_ordering_of;
use crate::game::lemma_ordering_len;
use crate::game::lemma_players_are_the_clients;
use crate::game::lemma_players_stay;
use crate::game::lemma_poll_events;
use crate::game::shuffled_players;
use crate::game::start_fault;
use crate::game::started;
use crate::game::Game;
use crate::game::GameConfig;
use crate::game::GameView;
use crate::types::event_views;
use crate::types::game_info_view;
use crate::types::lemma_event_views_push;
use crate::types::Allegiance;
use crate::types::ClientId;
use crate::types::ClientInfoView;
use crate::types::Cycle;
use crate::types::Entity;
use crate::types::Event;
use crate::types::EventChannel;
use crate::types::EventView;
use crate::types::GameInfo;
use crate::types::GameInfoView;
use crate::types::Message;
use crate::types::MessageView;
use crate::types::PlayerStatus;
use crate::types::ServerInfo;
use crate::types::ServerInfoView;
use crate::types::SessionToken;
use crate::types::SpecialRole;
use std::collections::HashMap;
use std::sync::Arc;
use vstd::prelude::*;

verus! {

/// The settings of a server.
#[derive(Copy, Clone, PartialEq, Eq, Debug)]
pub struct MafiaGameServerConfig {
    /// How long a client may be silent, in seconds, before it is
    /// disconnected.
    pub max_client_inactive_time: u64,
    /// Whether a death is announced with a text picked at random.
    pub randomize_death_message: bool,
}

/// What a server is: the model that the contracts of `MafiaGameServer` speak
/// of.
pub struct ServerView {
    pub config: MafiaGameServerConfig,
    pub clients: RegistryView,
    pub active_game: Option<GameView>,
}

/// The votes that `client` may see: all of them by day, and at any time if it
/// is dead or does not play; by night a living Mafia player sees the votes
/// of the Mafia, another living player with a role only its own, and a
/// living villager without a role none.
pub open spec fn visible_votes(game: GameView, client: usize) -> Map<usize, Option<ClientId>> {
    if !game.is_alive(client) || game.cycle == Cycle::Day {
        game.votes
    } else {
        match game.role_of(client) {
            Some(SpecialRole::Mafia) => game.votes.restrict(
                Set::new(|voter: usize| game.side(voter) == Allegiance::Mafia),
            ),
            Some(_) => game.votes.restrict(Set::new(|voter: usize| voter == client)),
            None => Map::empty(),
        }
    }
}

/// The roles that `client` may see: all of them if it is dead or does not
/// play; a living Mafia player sees who is Mafia, another living player
/// with a role only its own, and a living villager without a role none.
pub open spec fn visible_roles(game: GameView, client: usize) -> Map<usize, SpecialRole> {
    if !game.is_alive(client) {
        game.player_to_role
    } else {
        match game.role_of(client) {
            Some(SpecialRole::Mafia) => game.player_to_role.restrict(
                Set::new(|player: usize| game.role_of(player) == Some(SpecialRole::Mafia)),
            ),
            Some(_) => game.player_to_role.restrict(Set::new(|player: usize| player == client)),
            None => Map::empty(),
        }
    }
}

/// What `client` is told of `game` at `now`.
pub open spec fn snapshot(game: GameView, client: usize, now: u64) -> GameInfoView {
    GameInfoView {
        cycle_start_time_unix_ts_secs: now,
        cycle_duration_secs: game.config.duration_of(game.cycle),
        current_cycle: game.cycle,
        day_num: game.day_num,
        player_to_role: visible_roles(game, client),
        player_status: game.player_status,
        votes: visible_votes(game, client),
        winner: game.winner,
    }
}

/// The channel on which the vote of `voter` is announced: in public by day;
/// by night among the Mafia for a Mafia player, else among the spectators.
pub open spec fn vote_channel(game: GameView, voter: usize) -> EventChannel {
    if game.cycle == Cycle::Day {
        EventChannel::Public
    } else if game.side(voter) == Allegiance::Mafia {
        EventChannel::Mafia
    } else {
        EventChannel::Spectator
    }
}

/// The texts from which the announcement of a death in `cycle` is picked.
pub open spec fn death_texts(cycle: Cycle) -> Seq<Seq<char>> {
    match cycle {
        Cycle::Day => day_death_texts(),
        Cycle::Night => night_death_texts(),
    }
}

/// `event` with `text` as its death message, if it announces a death.
pub open spec fn with_death_text(event: EventView, text: Seq<char>) -> EventView {
    match event {
        EventView::PlayerKilled { player, cycle, death_message } => EventView::PlayerKilled {
            player,
            cycle,
            death_message: text,
        },
        _ => event,
    }
}

impl ServerView {
    /// The clients on record.
    pub open spec fn all_clients(self) -> Set<usize> {
        self.clients.clients.dom()
    }

    /// Whether a game is on that nobody has won yet.
    pub open spec fn in_active_game(self) -> bool {
        self.active_game is Some && self.active_game.unwrap().winner is None
    }

    /// Who sees what `actor` does on `channel`. The public channel reaches
    /// every client. The Mafia's channel reaches everyone but the living
    /// villagers, and nobody without a game. The spectators' channel reaches
    /// everyone but the living players. An actor of the id pool always sees
    /// its own doing.
    pub open spec fn channel_recipients(
        self,
        actor: Option<ClientId>,
        channel: EventChannel,
    ) -> Set<usize> {
        let audience = match channel {
            EventChannel::Public => self.all_clients(),
            EventChannel::Mafia => match self.active_game {
                Some(game) => self.all_clients().difference(game.alive_villagers()),
                None => Set::empty(),
            },
            EventChannel::Spectator => match self.active_game {
                Some(game) => self.all_clients().difference(game.alive()),
                None => self.all_clients(),
            },
        };
        match actor {
            Some(id) => if id.0 < MAX_PLAYERS {
                audience.insert(id.0)
            } else {
                audience
            },
            None => audience,
        }
    }

    /// Whether the recipients of `event` are the same for all: a snapshot is
    /// made for one client and has no such set.
    pub open spec fn is_broadcast(event: EventView) -> bool {
        !(event is SetServerInfo) && !(event is SetGame)
    }

    /// Who sees `event`.
    pub open spec fn visibility(self, event: EventView) -> Set<usize> {
        match event {
            EventView::SetServerInfo(_) => Set::empty(),
            EventView::SetGame(_) => Set::empty(),
            EventView::EndGame => self.all_clients(),
            EventView::ClientConnected(info) => self.all_clients().remove(info.id.0),
            EventView::ClientDisconnected(id) => self.all_clients().remove(id.0),
            EventView::MessageReceived(message) => match message.from {
                Entity::Client(id) => self.channel_recipients(Some(id), message.channel),
                Entity::System => self.all_clients(),
            },
            EventView::VoteIssued { voter, target, channel } => self.channel_recipients(
                Some(voter),
                channel,
            ),
            EventView::FailedVote { cycle, channel } => self.channel_recipients(None, channel),
            EventView::SetCycle { .. } => self.all_clients(),
            EventView::PlayerKilled { .. } => self.all_clients(),
            EventView::PlayerInvestigated { actor, target, allegiance } => {
                self.channel_recipients(Some(actor), EventChannel::Spectator)
            },
            EventView::GameWon { .. } => self.all_clients(),
        }
    }

    /// Whether `sent` is what the server sends for `event`: the event itself,
    /// but that a server that randomizes death messages announces a death
    /// with one of the texts of its cycle.
    pub open spec fn is_tailoring_of(self, sent: EventView, event: EventView) -> bool {
        match event {
            EventView::PlayerKilled { player, cycle, death_message } => {
                if self.config.randomize_death_message {
                    exists|i: int|
                        0 <= i < death_texts(cycle).len() && sent == with_death_text(
                            event,
                            #[trigger] death_texts(cycle)[i],
                        )
                } else {
                    sent == event
                }
            },
            _ => sent == event,
        }
    }

    /// The server after `sent` has gone to those who see `event`.
    pub open spec fn delivered(self, event: EventView, sent: EventView) -> ServerView {
        ServerView { clients: self.clients.with_event(self.visibility(event), sent), ..self }
    }

    /// The server after the events `sent` have gone out, one after the
    /// other, each to those who see it.
    pub open spec fn delivered_all(self, sent: Seq<EventView>) -> ServerView
        decreases sent.len(),
    {
        if sent.len() == 0 {
            self
        } else {
            self.delivered_all(sent.drop_last()).delivered(sent.last(), sent.last())
        }
    }

    /// Whether the server sends `events` as they are given: it does unless
    /// it randomizes death messages and one of them announces a death.
    pub open spec fn sends_as_given(self, events: Seq<EventView>) -> bool {
        !self.config.randomize_death_message || forall|i: int|
            0 <= i < events.len() ==> !(#[trigger] events[i] is PlayerKilled)
    }

    /// Whether `sent` is what the server sends for `events`, one for one.
    pub open spec fn are_tailorings_of(self, sent: Seq<EventView>, events: Seq<EventView>) -> bool {
        &&& sent.len() == events.len()
        &&& forall|i: int|
            0 <= i < events.len() ==> self.is_tailoring_of(#[trigger] sent[i], events[i])
    }

    /// What `client` is told of the game at `now`, if there is a game.
    pub open spec fn game_info_for(self, client: usize, now: u64) -> Option<GameInfoView> {
        match self.active_game {
            Some(game) => Some(snapshot(game, client, now)),
            None => None,
        }
    }

    /// The channel on which a chat message of `sender` goes out. Without a
    /// game that is on, chat is public. In a game, the dead and those who do
    /// not play speak among the spectators; the living speak in public by
    /// day; by night the Mafia speak among themselves, and what a villager
    /// says reaches the spectators only.
    pub open spec fn message_channel(self, sender: usize) -> EventChannel {
        if self.in_active_game() {
            let game = self.active_game.unwrap();
            if !game.is_alive(sender) {
                EventChannel::Spectator
            } else if game.cycle == Cycle::Day {
                EventChannel::Public
            } else if game.side(sender) == Allegiance::Mafia {
                EventChannel::Mafia
            } else {
                EventChannel::Spectator
            }
        } else {
            EventChannel::Public
        }
    }

    /// The public information of the clients on record.
    pub open spec fn client_infos(self) -> Map<usize, ClientInfoView> {
        Map::new(
            |id: usize| self.clients.clients.contains_key(id),
            |id: usize| self.clients.clients[id].info,
        )
    }

    /// The notices that the clients `lost` have disconnected, in order.
    pub open spec fn disconnect_notices(lost: Seq<ClientId>) -> Seq<EventView> {
        lost.map_values(|id: ClientId| EventView::ClientDisconnected(id))
    }

    /// The server after each of the clients below `limit` was told of the
    /// game at `now`.
    pub open spec fn with_snapshots(self, now: u64, limit: int) -> ServerView {
        ServerView {
            clients: RegistryView {
                clients: Map::new(
                    |id: usize| self.clients.clients.contains_key(id),
                    |id: usize|
                        if id < limit && !self.clients.clients[id].disconnected
                            && self.active_game is Some {
                            self.clients.clients[id].with_event(
                                EventView::SetGame(
                                    snapshot(self.active_game.unwrap(), id, now),
                                ),
                            )
                        } else {
                            self.clients.clients[id]
                        },
                ),
                ..self.clients
            },
            ..self
        }
    }

    /// The server after a game has started at `now` with the players
    /// `order`, to whom the roles are dealt in that order, and after every
    /// client was told of it.
    pub open spec fn with_game(self, config: GameConfig, order: Seq<usize>, now: u64) -> ServerView {
        (ServerView {
            active_game: Some(started(config, order, now)),
            ..self
        }).with_snapshots(now, MAX_PLAYERS as int)
    }

    /// The server after `event` was put into the inbox of client `id` alone.
    pub open spec fn told(self, id: usize, event: EventView) -> ServerView {
        ServerView {
            clients: self.clients.with_event(Set::<usize>::empty().insert(id), event),
            ..self
        }
    }

    /// The server after the client that `token` authenticates has shown
    /// itself at `now`.
    pub open spec fn after_auth(self, token: SessionToken, now: u64) -> ServerView {
        ServerView {
            clients: self.clients.with_activity(self.clients.tokens[token.0], now),
            ..self
        }
    }

    /// The clients that a purge at `now` removes although they were
    /// connected, in ascending order.
    pub open spec fn lost(self, now: u64) -> Seq<ClientId> {
        ascending_ids(
            self.clients.lost(self.config.max_client_inactive_time, now),
            MAX_PLAYERS as int,
        )
    }

    /// The server after a purge at `now`: the clients that are disconnected
    /// or were silent for too long are gone, and the others are told of each
    /// one that was lost to silence.
    pub open spec fn purged(self, now: u64) -> ServerView {
        ServerView {
            clients: self.clients.purged(self.config.max_client_inactive_time, now),
            ..self
        }.delivered_all(Self::disconnect_notices(self.lost(now)))
    }

    /// The server after client `id` has disconnected: the others are told.
    pub open spec fn without_client(self, id: usize) -> ServerView {
        let notice = EventView::ClientDisconnected(ClientId(id));
        ServerView { clients: self.clients.with_disconnect(id), ..self }.delivered(notice, notice)
    }

    /// The server after a client has connected under `name` with `token` at
    /// `now`: the others are told of it, and the client is told of the
    /// clients on record and of the game.
    pub open spec fn with_client(
        self,
        name: Seq<char>,
        token: SessionToken,
        now: u64,
    ) -> ServerView {
        let id = self.clients.slot_for(name);
        let joined = ServerView { clients: self.clients.with_connection(name, token, now), ..self };
        let notice = EventView::ClientConnected(ClientInfoView { name, id: ClientId(id) });
        joined.delivered(notice, notice).told(
            id,
            EventView::SetServerInfo(
                ServerInfoView {
                    connected_clients: joined.client_infos(),
                    active_game: joined.game_info_for(id, now),
                },
            ),
        )
    }

    /// The announcement of a vote, followed by the events of the cycle's end
    /// if the vote ends the cycle.
    pub open spec fn vote_events(
        self,
        voter: ClientId,
        target: Option<ClientId>,
        now: u64,
    ) -> Seq<EventView> {
        let game = self.active_game.unwrap();
        seq![
            EventView::VoteIssued { voter, target, channel: vote_channel(game, voter.0) },
        ] + game.with_vote(voter, target).poll(now).events
    }

    /// The server after `sender` has said `contents`.
    pub open spec fn with_message(self, sender: usize, contents: Seq<char>) -> ServerView {
        let event = EventView::MessageReceived(
            MessageView {
                channel: self.message_channel(sender),
                contents,
                from: Entity::Client(ClientId(sender)),
            },
        );
        self.delivered(event, event)
    }

    /// The server after the system has said `contents` to all.
    pub open spec fn with_broadcast(self, contents: Seq<char>) -> ServerView {
        let event = EventView::MessageReceived(
            MessageView { channel: EventChannel::Public, contents, from: Entity::System },
        );
        self.delivered(event, event)
    }

    /// Whether the server has a game whose players are exactly `clients`,
    /// all of them alive, and whose roles are held by players.
    pub open spec fn plays_with(self, clients: Set<usize>) -> bool {
        &&& self.active_game is Some
        &&& self.active_game.unwrap().player_status.dom() == clients
        &&& self.active_game.unwrap().alive() == clients
        &&& forall|p: usize| #[trigger]
            self.active_game.unwrap().player_to_role.contains_key(p) ==> clients.contains(p)
    }

    /// Whether the players of the game that is on are clients on record: a
    /// client that connects while the game is on gets an id that no player
    /// has, so it watches and does not play.
    pub open spec fn players_on_record(self) -> bool {
        self.in_active_game() ==> forall|p: usize| #[trigger]
            self.active_game.unwrap().player_status.contains_key(p)
                ==> self.clients.clients.contains_key(p)
    }

    /// The invariant of a server.
    pub open spec fn wf(self) -> bool {
        &&& self.clients.wf()
        &&& self.active_game is Some ==> self.active_game.unwrap().wf()
        &&& self.players_on_record()
    }
}

/// The server: the client registry and, while one is played, the game.
pub struct MafiaGameServer {
    config: MafiaGameServerConfig,
    clients: ClientState,
    active_game: Option<Game>,
}

/// The model of an optional game.
pub open spec fn game_view(game: Option<Game>) -> Option<GameView> {
    match game {
        Some(g) => Some(g@),
        None => None,
    }
}

impl View for MafiaGameServer {
    type V = ServerView;

    closed spec fn view(&self) -> ServerView {
        ServerView {
            config: self.config,
            clients: self.clients@,
            active_game: game_view(self.active_game),
        }
    }
}

/// Picks one of the texts with `rand::seq::IndexedRandom::choose` and the
/// thread's generator `rand::rng()`: an element of the slice at a position
/// drawn at random, and nothing for an empty slice. Which one is picked is
/// not fixed.
#[verifier::external_body]
fn choose_text(pool: &Vec<&'static str>) -> (picked: Option<&'static str>)
    ensures
        picked is Some == (pool@.len() > 0),
        picked is Some ==> pool@.contains(picked.unwrap()),
{
    rand::seq::IndexedRandom::choose(pool.as_slice(), &mut rand::rng()).copied()
}

/// `event` with `text` as its death message, if it announces a death; any
/// other event as it is.
pub fn with_death_message(event: Event, text: &str) -> (tailored: Event)
    ensures
        tailored@ == with_death_text(event@, text@),
{
    match event {
        Event::PlayerKilled { player, cycle, death_message: _ } => Event::PlayerKilled {
            player,
            cycle,
            death_message: text.to_owned(),
        },
        other => other,
    }
}

impl MafiaGameServer {
    /// Whether the registry's own bookkeeping is in order.
    pub closed spec fn claims_match(&self) -> bool {
        self.clients.claims_match()
    }

    /// The invariant of the server.
    pub open spec fn wf(&self) -> bool {
        self@.wf() && self.claims_match()
    }

    /// A server without clients and without a game.
    pub fn new(config: MafiaGameServerConfig) -> (server: MafiaGameServer)
        ensures
            server.wf(),
            server@.config == config,
            server@.clients.clients == Map::<usize, ClientView>::empty(),
            server@.clients.tokens == Map::<u128, usize>::empty(),
            server@.active_game is None,
    {
        MafiaGameServer { config, clients: ClientState::new(), active_game: None }
    }

    /// Whether a game is on that nobody has won yet.
    pub fn in_active_game(&self) -> (active: bool)
        ensures
            active == self@.in_active_game(),
    {
        match &self.active_game {
            Some(game) => game.get_winner().is_none(),
            None => false,
        }
    }

    /// The game, won or not, if there is one.
    pub fn active_game(&self) -> (game: Option<&Game>)
        ensures
            match game {
                Some(g) => self@.active_game == Some(g@),
                None => self@.active_game is None,
            },
    {
        self.active_game.as_ref()
    }

    /// The client registry.
    pub fn clients(&self) -> (registry: &ClientState)
        ensures
            registry@ == self@.clients,
            self.wf() ==> registry.wf(),
    {
        &self.clients
    }

    /// The game that is on, unless somebody has won it.
    pub fn get_active_game(&self) -> (result: Result<&Game, MafiaGameError>)
        ensures
            match result {
                Ok(game) => self@.in_active_game() && game@ == self@.active_game.unwrap(),
                Err(fault) => !self@.in_active_game() && fault
                    == MafiaGameError::NoGameInProgress,
            },
    {
        match &self.active_game {
            Some(game) => {
                if game.get_winner().is_some() {
                    Err(MafiaGameError::NoGameInProgress)
                } else {
                    Ok(game)
                }
            },
            None => Err(MafiaGameError::NoGameInProgress),
        }
    }

    /// The game that is on, to be changed, unless somebody has won it. The
    /// rest of the server stays as it is.
    pub fn get_active_game_mut(&mut self) -> (result: Result<&mut Game, MafiaGameError>)
        ensures
            match result {
                Ok(game) => {
                    &&& old(self)@.in_active_game()
                    &&& game@ == old(self)@.active_game.unwrap()
                    &&& final(self)@ == (ServerView {
                        active_game: Some(final(game)@),
                        ..old(self)@
                    })
                    &&& final(self).claims_match() == old(self).claims_match()
                },
                Err(fault) => {
                    &&& !old(self)@.in_active_game()
                    &&& fault == MafiaGameError::NoGameInProgress
                    &&& final(self)@ == old(self)@
                    &&& final(self).claims_match() == old(self).claims_match()
                },
            },
    {
        match &mut self.active_game {
            Some(game) => {
                if game.get_winner().is_some() {
                    Err(MafiaGameError::NoGameInProgress)
                } else {
                    Ok(game)
                }
            },
            None => Err(MafiaGameError::NoGameInProgress),
        }
    }

    /// Who sees what `actor` does on `channel`.
    pub fn get_clients_for_channel(&self, actor: Option<ClientId>, channel: EventChannel) -> (to:
        ClientSet)
        requires
            self.wf(),
        ensures
            to@ == self@.channel_recipients(actor, channel),
    {
        let mut to = self.clients.all_client_ids();
        match channel {
            EventChannel::Public => {},
            EventChannel::Mafia => {
                match &self.active_game {
                    Some(game) => {
                        to.difference_with(&game.alive_villagers());
                    },
                    None => {
                        to = ClientSet::new();
                    },
                }
            },
            EventChannel::Spectator => {
                match &self.active_game {
                    Some(game) => {
                        to.difference_with(&game.alive_players());
                    },
                    None => {},
                }
            },
        }
        // The sender always sees its own messages.
        match actor {
            Some(client_id) => {
                to.insert(client_id);
            },
            None => {},
        }
        to
    }

    /// The clients that may see `event`. A snapshot has no such set: it is
    /// made for one client.
    pub fn get_event_visibility(&self, event: &Event) -> (to: ClientSet)
        requires
            self.wf(),
            ServerView::is_broadcast(event@),
        ensures
            to@ == self@.visibility(event@),
    {
        match event {
            Event::SetServerInfo(_) => ClientSet::new(),
            Event::SetGame(_) => ClientSet::new(),
            Event::EndGame => self.clients.all_client_ids(),
            Event::ClientConnected(info) => {
                let mut to = self.clients.all_client_ids();
                to.remove(info.id);
                to
            },
            Event::ClientDisconnected(client_id) => {
                let mut to = self.clients.all_client_ids();
                to.remove(*client_id);
                to
            },
            Event::MessageReceived(message) => match message.from {
                Entity::Client(client_id) => self.get_clients_for_channel(
                    Some(client_id),
                    message.channel,
                ),
                Entity::System => self.clients.all_client_ids(),
            },
            Event::VoteIssued { voter, target: _, channel } => self.get_clients_for_channel(
                Some(*voter),
                *channel,
            ),
            Event::FailedVote { cycle: _, channel } => self.get_clients_for_channel(
                None,
                *channel,
            ),
            Event::PlayerKilled { player: _, cycle: _, death_message: _ } => {
                self.clients.all_client_ids()
            },
            Event::SetCycle { start_time_unix_ts_secs: _, duration_secs: _, cycle: _, day_num: _ } => {
                self.clients.all_client_ids()
            },
            Event::PlayerInvestigated { actor, target: _, allegiance: _ } => {
                self.get_clients_for_channel(Some(*actor), EventChannel::Spectator)
            },
            Event::GameWon { player_to_role: _, side: _ } => self.clients.all_client_ids(),
        }
    }

    /// Sends `event` to the clients that may see it. A server that
    /// randomizes death messages first replaces the text of a death's
    /// announcement by one picked from the texts of its cycle; all
    /// recipients get the same text.
    pub fn send_event(&mut self, event: Event)
        requires
            old(self).wf(),
            ServerView::is_broadcast(event@),
        ensures
            final(self).wf(),
            exists|sent: EventView| #[trigger]
                old(self)@.is_tailoring_of(sent, event@) && final(self)@ == old(self)@.delivered(
                    event@,
                    sent,
                ),
            !(event@ is PlayerKilled) || !old(self)@.config.randomize_death_message ==> final(self)@ == old(self)@.delivered(event@, event@),
    {
        let to = self.get_event_visibility(&event);
        let mut event = event;
        let ghost given = event@;
        if self.config.randomize_death_message {
            let cycle = match &event {
                Event::PlayerKilled { player: _, cycle, death_message: _ } => Some(*cycle),
                _ => None,
            };
            match cycle {
                Some(cycle) => {
                    let pool = match cycle {
                        Cycle::Day => day_death_messages(),
                        Cycle::Night => night_death_messages(),
                    };
                    match choose_text(&pool) {
                        Some(text) => {
                            proof {
                                assert(pool@.contains(text));
                                let i = choose|i: int| 0 <= i < pool@.len() && pool@[i] == text;
                                assert(texts_of(pool@)[i] == text@);
                                assert(death_texts(cycle)[i] == text@);
                            }
                            event = with_death_message(event, text);
                        },
                        None => {},
                    }
                },
                None => {},
            }
        }
        proof {
            assert(old(self)@.is_tailoring_of(event@, given));
        }
        self.clients.send_event(to, event);
    }

    /// Sends the events, one after the other, each to the clients that may
    /// see it.
    pub fn send_events(&mut self, events: Vec<Event>)
        requires
            old(self).wf(),
            forall|i: int|
                0 <= i < event_views(events@).len() ==> ServerView::is_broadcast(
                    #[trigger] event_views(events@)[i],
                ),
        ensures
            final(self).wf(),
            exists|sent: Seq<EventView>| #[trigger]
                old(self)@.are_tailorings_of(sent, event_views(events@)) && final(self)@ == old(self)@.delivered_all(sent),
            old(self)@.sends_as_given(event_views(events@)) ==> final(self)@ == old(self)@.delivered_all(event_views(events@)),
    {
        let ghost all = event_views(events@);
        let ghost mut sent: Seq<EventView> = Seq::empty();
        for event in iter: events
            invariant
                self.wf(),
                iter.seq() == events@,
                all == event_views(events@),
                forall|i: int| 0 <= i < all.len() ==> ServerView::is_broadcast(#[trigger] all[i]),
                sent.len() == iter.index(),
                forall|i: int|
                    0 <= i < sent.len() ==> old(self)@.is_tailoring_of(#[trigger] sent[i], all[i]),
                self@ == old(self)@.delivered_all(sent),
                old(self)@.sends_as_given(all) ==> sent == all.subrange(0, iter.index() as int),
        {
            let ghost before = self@;
            let ghost given = event@;
            assert(given == all[iter.index() as int]);
            self.send_event(event);
            proof {
                let one = choose|one: EventView| #[trigger]
                    before.is_tailoring_of(one, given) && self@ == before.delivered(given, one);
                old(self)@.lemma_delivery_keeps(sent);
                assert(old(self)@.is_tailoring_of(one, given));
                assert(before.visibility(given) == before.visibility(one));
                let longer = sent.push(one);
                assert(longer.drop_last() =~= sent);
                assert(self@ == old(self)@.delivered_all(longer));
                if old(self)@.sends_as_given(all) {
                    assert(one == given);
                    assert(longer =~= all.subrange(0, iter.index() + 1));
                }
                sent = longer;
            }
        }
        proof {
            assert(old(self)@.are_tailorings_of(sent, all));
            assert(all.subrange(0, all.len() as int) =~= all);
        }
    }

    /// Removes the clients that are disconnected or were silent for too
    /// long at `now`, and tells the others of each one lost to silence. No
    /// client is removed while a game is on: its players keep their ids.
    pub fn purge_disconnected_clients(&mut self, now: u64)
        requires
            old(self).wf(),
            !old(self)@.in_active_game(),
        ensures
            final(self).wf(),
            final(self)@ == old(self)@.purged(now),
    {
        let lost = self.clients.purge_disconnected_clients(
            self.config.max_client_inactive_time,
            now,
        );
        let ghost notices = ServerView::disconnect_notices(lost@);
        let mut events: Vec<Event> = Vec::new();
        let mut i: usize = 0;
        while i < lost.len()
            invariant
                i <= lost.len(),
                event_views(events@) == notices.subrange(0, i as int),
                notices == ServerView::disconnect_notices(lost@),
            decreases lost.len() - i,
        {
            let event = Event::ClientDisconnected(lost[i]);
            proof {
                lemma_event_views_push(events@, event);
                assert(event_views(events@.push(event)) =~= notices.subrange(0, i + 1));
            }
            events.push(event);
            i += 1;
        }
        proof {
            assert(notices.subrange(0, lost@.len() as int) =~= notices);
            assert(self@.sends_as_given(notices));
        }
        self.send_events(events);
    }

    /// Disconnects a client, whoever asks, and tells the others.
    pub fn force_disconnect_client(&mut self, client_id: ClientId) -> (result: Result<
        (),
        MafiaGameError,
    >)
        requires
            old(self).wf(),
        ensures
            final(self).wf(),
            if !old(self)@.clients.clients.contains_key(client_id.0) {
                &&& final(self)@ == old(self)@
                &&& result == Err::<(), MafiaGameError>(MafiaGameError::InvalidClientId(client_id))
            } else if old(self)@.clients.clients[client_id.0].disconnected {
                &&& final(self)@ == old(self)@
                &&& result == Err::<(), MafiaGameError>(
                    MafiaGameError::ClientDisconnected(client_id),
                )
            } else {
                &&& final(self)@ == old(self)@.without_client(client_id.0)
                &&& result is Ok
            },
    {
        match self.clients.disconnect_client(client_id) {
            Ok(()) => {},
            Err(fault) => {
                return Err(fault);
            },
        }
        self.send_event(Event::ClientDisconnected(client_id));
        Ok(())
    }

    /// Disconnects the client that `session_token` authenticates, and tells
    /// the others.
    pub fn disconnect_client(&mut self, session_token: SessionToken, now: u64) -> (result:
        Result<(), MafiaGameError>)
        requires
            old(self).wf(),
        ensures
            final(self).wf(),
            match old(self)@.clients.auth_fault(session_token) {
                Some(fault) => {
                    &&& final(self)@ == old(self)@
                    &&& result == Err::<(), MafiaGameError>(fault)
                },
                None => {
                    &&& result is Ok
                    &&& final(self)@ == old(self)@.after_auth(session_token, now).without_client(
                        old(self)@.clients.tokens[session_token.0],
                    )
                },
            },
    {
        let client_id = match self.clients.auth_client(session_token, now) {
            Ok(client_id) => client_id,
            Err(fault) => {
                return Err(fault);
            },
        };
        self.force_disconnect_client(client_id)
    }

    /// Says `message` to all clients in the system's name.
    pub fn broadcast_message(&mut self, message: String)
        requires
            old(self).wf(),
        ensures
            final(self).wf(),
            final(self)@ == old(self)@.with_broadcast(message@),
    {
        let event = Event::MessageReceived(
            Message {
                channel: EventChannel::Public,
                contents: message,
                from: Entity::System,
            },
        );
        self.send_event(event);
    }

    /// Says `message` in the name of the client that `session_token`
    /// authenticates, on the channel that the state of the game gives it.
    pub fn send_message(&mut self, session_token: SessionToken, message: String, now: u64) -> (result:
        Result<(), MafiaGameError>)
        requires
            old(self).wf(),
        ensures
            final(self).wf(),
            match old(self)@.clients.auth_fault(session_token) {
                Some(fault) => {
                    &&& final(self)@ == old(self)@
                    &&& result == Err::<(), MafiaGameError>(fault)
                },
                None => {
                    &&& result is Ok
                    &&& final(self)@ == old(self)@.after_auth(session_token, now).with_message(
                        old(self)@.clients.tokens[session_token.0],
                        message@,
                    )
                },
            },
    {
        let client_id = match self.clients.auth_client(session_token, now) {
            Ok(client_id) => client_id,
            Err(fault) => {
                return Err(fault);
            },
        };
        let channel = match self.get_active_game() {
            Ok(game) => {
                if game.get_player_status(client_id) != Some(PlayerStatus::Alive) {
                    EventChannel::Spectator
                } else if game.get_cycle() == Cycle::Day {
                    EventChannel::Public
                } else if game.get_player_allegiance(client_id) == Allegiance::Mafia {
                    EventChannel::Mafia
                } else {
                    // What a villager says at night reaches the spectators only.
                    EventChannel::Spectator
                }
            },
            Err(_) => EventChannel::Public,
        };
        let event = Event::MessageReceived(
            Message { channel, contents: message, from: Entity::Client(client_id) },
        );
        self.send_event(event);
        Ok(())
    }

    /// Takes the events that wait for the client that `session_token`
    /// authenticates out of its inbox, oldest first.
    pub fn take_events(&mut self, session_token: SessionToken, now: u64) -> (result:
        Result<Vec<Arc<Event>>, MafiaGameError>)
        requires
            old(self).wf(),
        ensures
            final(self).wf(),
            match old(self)@.clients.auth_fault(session_token) {
                Some(fault) => {
                    &&& final(self)@ == old(self)@
                    &&& result is Err
                    &&& result->Err_0 == fault
                },
                None => {
                    let id = old(self)@.clients.tokens[session_token.0];
                    &&& result is Ok
                    &&& shared_event_views(result.unwrap()@)
                        == old(self)@.clients.inbox_of(id)
                    &&& final(self)@ == ServerView {
                        clients: old(self)@.after_auth(session_token, now).clients.drained(id),
                        ..old(self)@
                    }
                },
            },
    {
        let client_id = match self.clients.auth_client(session_token, now) {
            Ok(client_id) => client_id,
            Err(fault) => {
                return Err(fault);
            },
        };
        Ok(self.clients.take_events(client_id))
    }

    /// Ends the game, won or not, and tells all clients.
    pub fn end_game(&mut self) -> (result: Result<(), MafiaGameError>)
        requires
            old(self).wf(),
        ensures
            final(self).wf(),
            match old(self)@.active_game {
                None => {
                    &&& final(self)@ == old(self)@
                    &&& result == Err::<(), MafiaGameError>(MafiaGameError::NoGameInProgress)
                },
                Some(_) => {
                    &&& result is Ok
                    &&& final(self)@ == ServerView { active_game: None, ..old(self)@ }.delivered(
                        EventView::EndGame,
                        EventView::EndGame,
                    )
                },
            },
    {
        if self.active_game.is_none() {
            return Err(MafiaGameError::NoGameInProgress);
        }
        self.active_game = None;
        self.send_event(Event::EndGame);
        Ok(())
    }

    /// One tick of the clock at `now`. While a game is there, its cycle ends
    /// if it is due, and the events of its end go out. Without a game the
    /// registry is purged.
    pub fn do_tick(&mut self, now: u64)
        requires
            old(self).wf(),
        ensures
            final(self).wf(),
            match old(self)@.active_game {
                Some(game) => {
                    let polled = ServerView {
                        active_game: Some(game.poll(now).game),
                        ..old(self)@
                    };
                    &&& exists|sent: Seq<EventView>| #[trigger]
                        polled.are_tailorings_of(sent, game.poll(now).events) && final(self)@
                            == polled.delivered_all(sent)
                    &&& polled.sends_as_given(game.poll(now).events) ==> final(self)@
                        == polled.delivered_all(game.poll(now).events)
                },
                None => final(self)@ == old(self)@.purged(now),
            },
    {
        let events = match &mut self.active_game {
            Some(game) => {
                proof {
                    lemma_poll_events(game@, now);
                    lemma_players_stay(game@, now, ClientId(0), None);
                }
                game.poll_end_cycle(now)
            },
            None => {
                self.purge_disconnected_clients(now);
                return ;
            },
        };
        self.send_events(events);
    }

    /// Records the vote of the client that `session_token` authenticates for
    /// `target`, or for nobody, announces it on the channel that the voter's
    /// side and the cycle give it, and ends the cycle if it is due. The
    /// announcement goes out before the events of the cycle's end.
    pub fn cast_vote(&mut self, session_token: SessionToken, target: Option<ClientId>, now: u64) -> (result:
        Result<(), MafiaGameError>)
        requires
            old(self).wf(),
        ensures
            final(self).wf(),
            match old(self)@.clients.auth_fault(session_token) {
                Some(fault) => {
                    &&& final(self)@ == old(self)@
                    &&& result == Err::<(), MafiaGameError>(fault)
                },
                None => {
                    let voter = ClientId(old(self)@.clients.tokens[session_token.0]);
                    let known = old(self)@.after_auth(session_token, now);
                    if !known.in_active_game() {
                        &&& final(self)@ == known
                        &&& result == Err::<(), MafiaGameError>(MafiaGameError::NoGameInProgress)
                    } else {
                        let game = known.active_game.unwrap();
                        match game.vote_rejection(voter, target, now) {
                            Some(reason) => {
                                &&& final(self)@ == known
                                &&& result == Err::<(), MafiaGameError>(
                                    MafiaGameError::InvalidVote(reason),
                                )
                            },
                            None => {
                                let polled = ServerView {
                                    active_game: Some(game.with_vote(voter, target).poll(now).game),
                                    ..known
                                };
                                let events = known.vote_events(voter, target, now);
                                &&& result is Ok
                                &&& exists|sent: Seq<EventView>| #[trigger]
                                    polled.are_tailorings_of(sent, events) && final(self)@
                                        == polled.delivered_all(sent)
                                &&& polled.sends_as_given(events) ==> final(self)@
                                    == polled.delivered_all(events)
                            },
                        }
                    }
                },
            },
    {
        let client_id = match self.clients.auth_client(session_token, now) {
            Ok(client_id) => client_id,
            Err(fault) => {
                return Err(fault);
            },
        };
        let game = match self.get_active_game_mut() {
            Ok(game) => game,
            Err(fault) => {
                return Err(fault);
            },
        };
        match game.cast_vote(client_id, target, now) {
            Ok(()) => {},
            Err(fault) => {
                return Err(fault);
            },
        }
        let channel = if game.get_cycle() == Cycle::Day {
            EventChannel::Public
        } else if game.get_player_allegiance(client_id) == Allegiance::Mafia {
            EventChannel::Mafia
        } else {
            // Only the voter and the spectators see this vote.
            EventChannel::Spectator
        };
        let mut events: Vec<Event> = Vec::new();
        events.push(Event::VoteIssued { voter: client_id, target, channel });
        let ghost first = event_views(events@);
        proof {
            lemma_poll_events(game@, now);
            lemma_players_stay(game@, now, client_id, target);
        }
        let mut ended = game.poll_end_cycle(now);
        proof {
            assert(first =~= seq![EventView::VoteIssued { voter: client_id, target, channel }]);
            assert(event_views(events@ + ended@) =~= first + event_views(ended@));
        }
        events.append(&mut ended);
        self.send_events(events);
        Ok(())
    }

    /// What `client` is told of the game at `now`, if there is a game: the
    /// votes and the roles are those that this client may see.
    pub fn get_game_info_for(&self, client: ClientId, now: u64) -> (info: Option<GameInfo>)
        requires
            self.wf(),
        ensures
            game_info_view(info) == self@.game_info_for(client.0, now),
    {
        let game = match &self.active_game {
            Some(game) => game,
            None => {
                return None;
            },
        };
        let status = game.get_player_status(client);
        let role = game.get_player_role(client);
        let cycle = game.get_cycle();
        let alive = status == Some(PlayerStatus::Alive);
        let votes = if !alive || cycle == Cycle::Day {
            // A spectator or a dead player sees everything, and so does
            // everyone by day.
            game.get_votes().clone()
        } else {
            match role {
                // The Mafia see the votes of the Mafia.
                Some(SpecialRole::Mafia) => mafia_votes(game),
                // Another role sees its own vote.
                Some(_) => own_vote(game, client),
                // A villager without a role sees no vote at night.
                None => {
                    let none: HashMap<usize, Option<ClientId>> = HashMap::new();
                    none
                },
            }
        };
        let player_to_role = if !alive {
            game.get_player_roles().clone()
        } else {
            match role {
                Some(SpecialRole::Mafia) => mafia_roles(game),
                Some(_) => own_role(game, client),
                None => {
                    let none: HashMap<usize, SpecialRole> = HashMap::new();
                    none
                },
            }
        };
        let info = GameInfo {
            cycle_start_time_unix_ts_secs: now,
            cycle_duration_secs: game.get_cycle_duration(),
            current_cycle: cycle,
            day_num: game.get_day_num(),
            player_to_role,
            player_status: game.get_player_statuses().clone(),
            votes,
            winner: game.get_winner(),
        };
        proof {
            let expected = snapshot(game@, client.0, now);
            assert(info@.votes =~= expected.votes);
            assert(info@.player_to_role =~= expected.player_to_role);
        }
        Some(info)
    }

    /// Connects a client under `client_name` at `now`. The other clients are
    /// told of it, and the client is told of the clients on record and of
    /// the game as it may see it.
    pub fn connect_client(&mut self, client_name: &str, now: u64) -> (result: Result<
        (ClientId, SessionToken),
        MafiaGameError,
    >)
        requires
            old(self).wf(),
        ensures
            final(self).wf(),
            if old(self)@.clients.name_is_taken(client_name@) {
                &&& final(self)@ == old(self)@
                &&& match result {
                    Err(MafiaGameError::ClientNameRegistered(name)) => name@ == client_name@,
                    _ => false,
                }
            } else if !old(self)@.clients.knows_name(client_name@) && old(self)@.clients.is_full() {
                &&& final(self)@ == old(self)@
                &&& result == Err::<(ClientId, SessionToken), MafiaGameError>(
                    MafiaGameError::TooManyClientsRegistered,
                )
            } else {
                &&& result is Ok
                &&& result.unwrap().0 == ClientId(old(self)@.clients.slot_for(client_name@))
                &&& final(self)@ == old(self)@.with_client(client_name@, result.unwrap().1, now)
                &&& old(self)@.in_active_game() && !old(self)@.clients.knows_name(client_name@)
                    ==> final(self)@.active_game.unwrap().status_of(result.unwrap().0.0) is None
            },
    {
        let (client_id, session_token) = match self.clients.connect_client(client_name, now) {
            Ok(pair) => pair,
            Err(fault) => {
                return Err(fault);
            },
        };
        proof {
            lemma_connection_keeps_wf(
                old(self)@.clients,
                client_name@,
                session_token,
                now,
            );
        }
        let new_client_info = match self.clients.get_client(client_id) {
            Ok(client) => client.get_info().duplicate(),
            Err(fault) => {
                return Err(fault);
            },
        };
        let connected_clients = self.clients.all_client_info();
        let ghost joined = self@;
        self.send_event(Event::ClientConnected(new_client_info));
        let active_game = self.get_game_info_for(client_id, now);
        let mut to = ClientSet::new();
        to.insert(client_id);
        let info = ServerInfo { connected_clients, active_game };
        proof {
            assert(info@.connected_clients =~= joined.client_infos());
        }
        self.clients.send_event(to, Event::SetServerInfo(info));
        Ok((client_id, session_token))
    }

    /// Whether `order` names the clients on record, each once.
    fn is_ordering(&self, order: &Vec<ClientId>) -> (yes: bool)
        requires
            self.wf(),
        ensures
            yes == is_ordering_of(
                id_numbers(order@),
                self@.all_clients(),
            ),
            yes ==> order@.no_duplicates() && forall|i: int|
                0 <= i < order@.len() ==> (#[trigger] order@[i]).0 < MAX_PLAYERS,
    {
        let all = self.clients.all_client_ids();
        let ghost numbers = id_numbers(order@);
        let mut seen = ClientSet::new();
        let mut i: usize = 0;
        while i < order.len()
            invariant
                i <= order.len(),
                self.wf(),
                all@ == self@.all_clients(),
                numbers == id_numbers(order@),
                forall|p: usize| seen@.contains(p) <==> numbers.subrange(0, i as int).contains(p),
                numbers.subrange(0, i as int).no_duplicates(),
                forall|k: int| 0 <= k < i ==> all@.contains(#[trigger] numbers[k]),
            decreases order.len() - i,
        {
            let id = order[i];
            if !all.contains(id) {
                proof {
                    assert(numbers[i as int] == id.0);
                    assert(numbers.contains(id.0));
                }
                return false;
            }
            if seen.contains(id) {
                proof {
                    let before = numbers.subrange(0, i as int);
                    let k = choose|k: int| 0 <= k < before.len() && before[k] == id.0;
                    assert(numbers[k] == numbers[i as int]);
                }
                return false;
            }
            seen.insert(id);
            proof {
                let before = numbers.subrange(0, i as int);
                let after = numbers.subrange(0, i + 1);
                assert(after =~= before.push(id.0));
                assert forall|p: usize| seen@.contains(p) <==> after.contains(p) by {
                    if before.contains(p) {
                        let k = choose|k: int| 0 <= k < before.len() && before[k] == p;
                        assert(after[k] == p);
                    }
                    if after.contains(p) && p != id.0 {
                        let k = choose|k: int| 0 <= k < after.len() && after[k] == p;
                        assert(before[k] == p);
                    }
                    if p == id.0 {
                        assert(after[i as int] == p);
                    }
                }
            }
            i += 1;
        }
        proof {
            assert(numbers.subrange(0, order@.len() as int) =~= numbers);
            assert(order@.no_duplicates()) by {
                assert forall|a: int, b: int|
                    0 <= a < order@.len() && 0 <= b < order@.len() && a != b implies order@[a]
                    != order@[b] by {
                    assert(numbers[a] != numbers[b]);
                }
            }
            assert forall|k: int| 0 <= k < order@.len() implies (#[trigger] order@[k]).0
                < MAX_PLAYERS by {
                assert(all@.contains(numbers[k]));
            }
            if seen@ == all@ {
            } else {
                assert(!(seen@ =~= all@));
            }
        }
        seen.same_as(&all)
    }

    /// Makes `game` the game of the server and tells every client of it as
    /// the client may see it at `now`.
    fn install_game(&mut self, game: Game, now: u64)
        requires
            old(self).wf(),
            game.wf(),
            forall|p: usize| #[trigger]
                game@.player_status.contains_key(p) ==> old(self)@.clients.clients.contains_key(p),
        ensures
            final(self).wf(),
            final(self)@ == (ServerView { active_game: Some(game@), ..old(self)@ }).with_snapshots(
                now,
                MAX_PLAYERS as int,
            ),
    {
        self.active_game = Some(game);
        let ghost begun = self@;
        let all = self.clients.all_client_ids();
        let mut id: usize = 0;
        proof {
            assert(self@.clients.clients =~= begun.with_snapshots(now, 0).clients.clients);
        }
        while id < MAX_PLAYERS
            invariant
                id <= MAX_PLAYERS,
                self.wf(),
                begun.wf(),
                begun.active_game is Some,
                all@ == begun.all_clients(),
                self@ == begun.with_snapshots(now, id as int),
            decreases MAX_PLAYERS - id,
        {
            if all.contains(ClientId(id)) {
                match self.get_game_info_for(ClientId(id), now) {
                    Some(info) => {
                        let mut to = ClientSet::new();
                        to.insert(ClientId(id));
                        self.clients.send_event(to, Event::SetGame(info));
                    },
                    None => {},
                }
            }
            proof {
                assert(self@.clients.clients =~= begun.with_snapshots(
                    now,
                    id + 1,
                ).clients.clients);
            }
            id += 1;
        }
    }

    /// Starts a game at `now` unless one is on. First the registry is
    /// purged. Then the clients on record become the players: their ids, in
    /// ascending order, are shuffled with a generator seeded with `seed`, and
    /// the roles are dealt in that order. Every client is told of the game
    /// as it may see it.
    pub fn start_game(&mut self, config: GameConfig, seed: u64, now: u64) -> (result: Result<
        (),
        MafiaGameError,
    >)
        requires
            old(self).wf(),
        ensures
            final(self).wf(),
            if old(self)@.in_active_game() {
                &&& final(self)@ == old(self)@
                &&& result == Err::<(), MafiaGameError>(MafiaGameError::GameInProgress)
            } else {
                let purged = old(self)@.purged(now);
                match start_fault(config, purged.all_clients().len()) {
                    Some(fault) => {
                        &&& final(self)@ == purged
                        &&& result == Err::<(), MafiaGameError>(fault)
                    },
                    None => {
                        &&& result is Ok
                        &&& final(self)@ == purged.with_game(
                            config,
                            shuffled_players(purged.all_clients(), seed),
                            now,
                        )
                        &&& is_ordering_of(
                            shuffled_players(purged.all_clients(), seed),
                            purged.all_clients(),
                        )
                        &&& final(self)@.all_clients() == purged.all_clients()
                        &&& final(self)@.clients.connected() == purged.all_clients()
                        &&& final(self)@.plays_with(purged.all_clients())
                        &&& final(self)@.in_active_game()
                    },
                }
            },
    {
        if self.in_active_game() {
            return Err(MafiaGameError::GameInProgress);
        }
        self.purge_disconnected_clients(now);
        proof {
            old(self)@.lemma_purged_are_connected(now);
        }
        let game = match Game::start(config, &self.clients, seed, now) {
            Ok(game) => game,
            Err(fault) => {
                return Err(fault);
            },
        };
        proof {
            let order = shuffled_players(self@.all_clients(), seed);
            lemma_ordering_len(order, self@.all_clients());
            lemma_players_are_the_clients(config, order, self@.all_clients(), now);
        }
        self.install_game(game, now);
        proof {
            old(self)@.lemma_purged_are_connected(now);
            assert(self@.clients.connected() =~= old(self)@.purged(now).clients.connected());
        }
        Ok(())
    }

    /// Starts a game at `now` unless one is on, with the roles dealt to the
    /// clients in the order `order`. First the registry is purged. The order
    /// must then name the clients on record, each once.
    pub fn start_game_with_order(&mut self, config: GameConfig, order: &Vec<ClientId>, now: u64) -> (result:
        Result<(), MafiaGameError>)
        requires
            old(self).wf(),
        ensures
            final(self).wf(),
            if old(self)@.in_active_game() {
                &&& final(self)@ == old(self)@
                &&& result == Err::<(), MafiaGameError>(MafiaGameError::GameInProgress)
            } else {
                let purged = old(self)@.purged(now);
                if !is_ordering_of(
                    id_numbers(order@),
                    purged.all_clients(),
                ) {
                    &&& final(self)@ == purged
                    &&& result == Err::<(), MafiaGameError>(
                        MafiaGameError::InvalidGameConfig(
                            ConfigFault::NotThePlayers,
                        ),
                    )
                } else {
                    match start_fault(config, purged.all_clients().len()) {
                        Some(fault) => {
                            &&& final(self)@ == purged
                            &&& result == Err::<(), MafiaGameError>(fault)
                        },
                        None => {
                            &&& result is Ok
                            &&& final(self)@ == purged.with_game(
                                config,
                                id_numbers(order@),
                                now,
                            )
                            &&& final(self)@.all_clients() == purged.all_clients()
                            &&& final(self)@.clients.connected() == purged.all_clients()
                            &&& final(self)@.plays_with(purged.all_clients())
                            &&& final(self)@.in_active_game()
                        },
                    }
                }
            },
    {
        if self.in_active_game() {
            return Err(MafiaGameError::GameInProgress);
        }
        self.purge_disconnected_clients(now);
        if !self.is_ordering(order) {
            return Err(
                MafiaGameError::InvalidGameConfig(ConfigFault::NotThePlayers),
            );
        }
        let game = match Game::start_with_order(config, order, now) {
            Ok(game) => game,
            Err(fault) => {
                proof {
                    lemma_ordering_len(
                        id_numbers(order@),
                        self@.all_clients(),
                    );
                }
                return Err(fault);
            },
        };
        proof {
            lemma_ordering_len(id_numbers(order@), self@.all_clients());
            lemma_players_are_the_clients(config, id_numbers(order@), self@.all_clients(), now);
        }
        self.install_game(game, now);
        proof {
            old(self)@.lemma_purged_are_connected(now);
            assert(self@.clients.connected() =~= old(self)@.purged(now).clients.connected());
        }
        Ok(())
    }
}

/// The votes of the Mafia.
fn mafia_votes(game: &Game) -> (votes: HashMap<usize, Option<ClientId>>)
    requires
        game.wf(),
    ensures
        votes@ == game@.votes.restrict(
            Set::new(|voter: usize| game@.side(voter) == Allegiance::Mafia),
        ),
{
    let mut votes: HashMap<usize, Option<ClientId>> = HashMap::new();
    let mut voter: usize = 0;
    while voter < MAX_PLAYERS
        invariant
            voter <= MAX_PLAYERS,
            game.wf(),
            votes@ == game@.votes.restrict(
                Set::new(|v: usize| v < voter && game@.side(v) == Allegiance::Mafia),
            ),
        decreases MAX_PLAYERS - voter,
    {
        if game.get_player_allegiance(ClientId(voter)) == Allegiance::Mafia {
            match game.get_votes().get(&voter) {
                Some(target) => {
                    votes.insert(voter, *target);
                },
                None => {},
            }
        }
        proof {
            assert(votes@ =~= game@.votes.restrict(
                Set::new(|v: usize| v < voter + 1 && game@.side(v) == Allegiance::Mafia),
            ));
        }
        voter += 1;
    }
    proof {
        assert(votes@ =~= game@.votes.restrict(
            Set::new(|voter: usize| game@.side(voter) == Allegiance::Mafia),
        ));
    }
    votes
}

/// The vote of `client` alone.
fn own_vote(game: &Game, client: ClientId) -> (votes: HashMap<usize, Option<ClientId>>)
    ensures
        votes@ == game@.votes.restrict(Set::new(|voter: usize| voter == client.0)),
{
    let mut votes: HashMap<usize, Option<ClientId>> = HashMap::new();
    match game.get_votes().get(&client.0) {
        Some(target) => {
            votes.insert(client.0, *target);
        },
        None => {},
    }
    proof {
        assert(votes@ =~= game@.votes.restrict(Set::new(|voter: usize| voter == client.0)));
    }
    votes
}

/// The Mafia players with their role.
fn mafia_roles(game: &Game) -> (roles: HashMap<usize, SpecialRole>)
    requires
        game.wf(),
    ensures
        roles@ == game@.player_to_role.restrict(
            Set::new(|player: usize| game@.role_of(player) == Some(SpecialRole::Mafia)),
        ),
{
    let mut roles: HashMap<usize, SpecialRole> = HashMap::new();
    let mut player: usize = 0;
    while player < MAX_PLAYERS
        invariant
            player <= MAX_PLAYERS,
            game.wf(),
            roles@ == game@.player_to_role.restrict(
                Set::new(
                    |p: usize| p < player && game@.role_of(p) == Some(SpecialRole::Mafia),
                ),
            ),
        decreases MAX_PLAYERS - player,
    {
        match game.get_player_role(ClientId(player)) {
            Some(SpecialRole::Mafia) => {
                roles.insert(player, SpecialRole::Mafia);
            },
            _ => {},
        }
        proof {
            assert(roles@ =~= game@.player_to_role.restrict(
                Set::new(
                    |p: usize| p < player + 1 && game@.role_of(p) == Some(SpecialRole::Mafia),
                ),
            ));
        }
        player += 1;
    }
    proof {
        assert(roles@ =~= game@.player_to_role.restrict(
            Set::new(|player: usize| game@.role_of(player) == Some(SpecialRole::Mafia)),
        ));
    }
    roles
}

/// The role of `client` alone.
fn own_role(game: &Game, client: ClientId) -> (roles: HashMap<usize, SpecialRole>)
    ensures
        roles@ == game@.player_to_role.restrict(Set::new(|player: usize| player == client.0)),
{
    let mut roles: HashMap<usize, SpecialRole> = HashMap::new();
    match game.get_player_role(client) {
        Some(role) => {
            roles.insert(client.0, role);
        },
        None => {},
    }
    proof {
        assert(roles@ =~= game@.player_to_role.restrict(
            Set::new(|player: usize| player == client.0),
        ));
    }
    roles
}

impl ServerView {
    /// After a purge every client on record is connected.
    pub proof fn lemma_purged_are_connected(self, now: u64)
        ensures
            self.purged(now).clients.connected() == self.purged(now).all_clients(),
    {
        let registry = self.clients.purged(self.config.max_client_inactive_time, now);
        let swept = ServerView { clients: registry, ..self };
        crate::client::lemma_purged_are_connected(
            self.clients,
            self.config.max_client_inactive_time,
            now,
        );
        swept.lemma_delivery_keeps(Self::disconnect_notices(self.lost(now)));
        let after = self.purged(now);
        assert forall|id: usize|
            after.clients.connected().contains(id) == after.all_clients().contains(id) by {
            if after.all_clients().contains(id) {
                assert(registry.clients.contains_key(id));
                assert(registry.connected().contains(id));
            }
        }
        assert(after.clients.connected() =~= after.all_clients());
    }

    /// Delivering events changes what waits in the inboxes and nothing else:
    /// the settings, the game, the clients on record, their names, tokens
    /// and connection state stay.
    pub proof fn lemma_delivery_keeps(self, sent: Seq<EventView>)
        ensures
            self.delivered_all(sent).config == self.config,
            self.delivered_all(sent).active_game == self.active_game,
            self.delivered_all(sent).clients.tokens == self.clients.tokens,
            self.delivered_all(sent).all_clients() == self.all_clients(),
            forall|id: usize| #[trigger]
                self.clients.clients.contains_key(id) ==> {
                    let after = self.delivered_all(sent).clients.clients[id];
                    let before = self.clients.clients[id];
                    &&& after.info == before.info
                    &&& after.session_token == before.session_token
                    &&& after.last_active == before.last_active
                    &&& after.disconnected == before.disconnected
                },
            forall|event: EventView|
                self.delivered_all(sent).visibility(event) == self.visibility(event),
            forall|one: EventView, event: EventView|
                self.delivered_all(sent).is_tailoring_of(one, event) == self.is_tailoring_of(
                    one,
                    event,
                ),
            self.wf() ==> self.delivered_all(sent).wf(),
        decreases sent.len(),
    {
        if sent.len() > 0 {
            let before = self.delivered_all(sent.drop_last());
            self.lemma_delivery_keeps(sent.drop_last());
            let after = before.delivered(sent.last(), sent.last());
            assert(after.all_clients() =~= before.all_clients());
            assert forall|event: EventView| after.visibility(event) == self.visibility(event) by {
                assert(before.visibility(event) == self.visibility(event));
                assert(after.channel_recipients(None, EventChannel::Public)
                    == before.channel_recipients(None, EventChannel::Public));
            }
        }
    }
}

/// What is said on the Mafia's channel reaches no living villager but the
/// one who says it, and what is said on the spectators' channel reaches no
/// living player but the one who says it.
pub proof fn lemma_channels_hide(
    server: ServerView,
    actor: Option<ClientId>,
    channel: EventChannel,
    client: usize,
)
    requires
        server.active_game is Some,
        actor != Some(ClientId(client)),
    ensures
        channel == EventChannel::Mafia && server.active_game.unwrap().alive_villagers().contains(
            client,
        ) ==> !server.channel_recipients(actor, channel).contains(client),
        channel == EventChannel::Spectator && server.active_game.unwrap().alive().contains(client)
            ==> !server.channel_recipients(actor, channel).contains(client),
{
}

/// An event changes the inbox of a client only if the client may see it: the
/// inboxes of all others stay as they are.
pub proof fn lemma_unseen_leaves_inbox(
    server: ServerView,
    event: EventView,
    sent: EventView,
    client: usize,
)
    requires
        !server.visibility(event).contains(client),
    ensures
        server.delivered(event, sent).clients.inbox_of(client) == server.clients.inbox_of(client),
{
}

/// A chat message of a client on the Mafia's channel does not come into the
/// inbox of another client that is a living villager when it is sent; one on
/// the spectators' channel does not come into the inbox of another client
/// that is a living player.
pub proof fn lemma_chat_is_hidden(server: ServerView, message: MessageView, client: usize)
    requires
        server.active_game is Some,
        message.from is Client,
        message.from != Entity::Client(ClientId(client)),
        (message.channel == EventChannel::Mafia && server.active_game.unwrap().alive_villagers().contains(
            client,
        )) || (message.channel == EventChannel::Spectator
            && server.active_game.unwrap().alive().contains(client)),
    ensures
        !server.visibility(EventView::MessageReceived(message)).contains(client),
        server.delivered(
            EventView::MessageReceived(message),
            EventView::MessageReceived(message),
        ).clients.inbox_of(client) == server.clients.inbox_of(client),
{
}

/// A client that connects under a new name while a game is on is no player
/// of it: the id it gets is none of a player, so it has no status in the
/// game, before and after it has connected, and a vote of it is turned down.
pub proof fn lemma_newcomer_only_watches(
    server: ServerView,
    name: Seq<char>,
    token: SessionToken,
    target: Option<ClientId>,
    now: u64,
)
    requires
        server.wf(),
        server.in_active_game(),
        !server.clients.knows_name(name),
        !server.clients.is_full(),
    ensures
        server.active_game.unwrap().status_of(server.clients.slot_for(name)) is None,
        server.with_client(name, token, now).active_game == server.active_game,
        server.with_client(name, token, now).active_game.unwrap().vote_rejection(
            ClientId(server.clients.slot_for(name)),
            target,
            now,
        ) == Some(
            VoteRejection::VoterNotAlive(ClientId(server.clients.slot_for(name))),
        ),
{
    server.clients.lemma_lowest_free();
}

} // verus!
