//! The mirror that a client keeps of the server: what it was last told of
//! the clients and the game, and the chat it has seen. The mirror folds the
//! events it receives into this picture and never sends any.

use crate::types::Allegiance;
use crate::types::ClientId;
use crate::types::Event;
use crate::types::EventView;
use crate::types::GameInfoView;
use crate::types::Message;
use crate::types::MessageView;
use crate::types::PlayerStatus;
use crate::types::ServerInfo;
use crate::types::ServerInfoView;
use crate::types::SessionToken;
use crate::types::SpecialRole;
use std::collections::HashMap;
use std::collections::VecDeque;
use vstd::prelude::*;

verus! {

/// How many chat messages the mirror keeps: the oldest leaves when a new one
/// comes and the history is full.
pub const MAX_MESSAGES_HISTORY: usize = 200;

/// Who the client is to the server.
pub struct MafiaClientIdent {
    pub id: ClientId,
    pub session_token: SessionToken,
}

/// What the client knows.
pub struct MafiaClientInner {
    pub server_info: ServerInfo,
    pub messages: VecDeque<Message>,
}

/// What a mirror holds: the model that the contract of `apply_event` speaks
/// of.
pub struct MirrorView {
    pub server_info: ServerInfoView,
    /// The chat, oldest first.
    pub messages: Seq<MessageView>,
}

/// The views of a list of messages, in order.
pub open spec fn message_views(messages: Seq<Message>) -> Seq<MessageView> {
    messages.map_values(|message: Message| message@)
}

impl View for MafiaClientInner {
    type V = MirrorView;

    open spec fn view(&self) -> MirrorView {
        MirrorView {
            server_info: self.server_info@,
            messages: message_views(self.messages@),
        }
    }
}

/// The chat after `message` has come in: a full history drops its oldest
/// message first.
pub open spec fn with_message(messages: Seq<MessageView>, message: MessageView) -> Seq<
    MessageView,
> {
    if messages.len() >= MAX_MESSAGES_HISTORY {
        messages.drop_first().push(message)
    } else {
        messages.push(message)
    }
}

/// What a client knows of a game after `event`. A vote is noted; a new
/// cycle sets the cycle, the day and the times and clears the votes; a
/// killed player that the client knows of is dead; a detective's finding
/// that its target is Mafia is noted as that role; the end of the game
/// reveals the roles and the winner. Other events leave the game as it is.
pub open spec fn game_after(game: GameInfoView, event: EventView) -> GameInfoView {
    match event {
        EventView::VoteIssued { voter, target, channel } => GameInfoView {
            votes: game.votes.insert(voter.0, target),
            ..game
        },
        EventView::SetCycle { start_time_unix_ts_secs, duration_secs, cycle, day_num } => {
            GameInfoView {
                current_cycle: cycle,
                day_num,
                cycle_start_time_unix_ts_secs: start_time_unix_ts_secs,
                cycle_duration_secs: duration_secs,
                votes: Map::empty(),
                ..game
            }
        },
        EventView::PlayerKilled { player, cycle, death_message } => {
            if game.player_status.contains_key(player.0) {
                GameInfoView {
                    player_status: game.player_status.insert(player.0, PlayerStatus::Dead),
                    ..game
                }
            } else {
                game
            }
        },
        EventView::PlayerInvestigated { actor, target, allegiance } => {
            if allegiance == Allegiance::Mafia {
                GameInfoView {
                    player_to_role: game.player_to_role.insert(target.0, SpecialRole::Mafia),
                    ..game
                }
            } else {
                game
            }
        },
        EventView::GameWon { player_to_role, side } => GameInfoView {
            player_to_role,
            winner: Some(side),
            ..game
        },
        _ => game,
    }
}

impl MirrorView {
    /// The mirror after `event`. A snapshot of the server replaces what was
    /// known of it; a snapshot of a game becomes the game, and the end of
    /// the game leaves none; a client that connects is added to the clients,
    /// one that disconnects is removed; a chat message joins the history;
    /// an event of a game changes the game, if the client knows of one.
    pub open spec fn applied(self, event: EventView) -> MirrorView {
        match event {
            EventView::SetServerInfo(info) => MirrorView { server_info: info, ..self },
            EventView::SetGame(game) => MirrorView {
                server_info: ServerInfoView { active_game: Some(game), ..self.server_info },
                ..self
            },
            EventView::EndGame => MirrorView {
                server_info: ServerInfoView { active_game: None, ..self.server_info },
                ..self
            },
            EventView::ClientConnected(info) => MirrorView {
                server_info: ServerInfoView {
                    connected_clients: self.server_info.connected_clients.insert(
                        info.id.0,
                        info,
                    ),
                    ..self.server_info
                },
                ..self
            },
            EventView::ClientDisconnected(id) => MirrorView {
                server_info: ServerInfoView {
                    connected_clients: self.server_info.connected_clients.remove(id.0),
                    ..self.server_info
                },
                ..self
            },
            EventView::MessageReceived(message) => MirrorView {
                messages: with_message(self.messages, message),
                ..self
            },
            _ => match self.server_info.active_game {
                Some(game) => MirrorView {
                    server_info: ServerInfoView {
                        active_game: Some(game_after(game, event)),
                        ..self.server_info
                    },
                    ..self
                },
                None => self,
            },
        }
    }
}

/// The history never grows beyond its bound.
pub proof fn lemma_history_bounded(mirror: MirrorView, event: EventView)
    requires
        mirror.messages.len() <= MAX_MESSAGES_HISTORY,
    ensures
        mirror.applied(event).messages.len() <= MAX_MESSAGES_HISTORY,
{
}

/// Client-side picture of the server and of the game.
pub struct MafiaClient {
    ident: MafiaClientIdent,
    inner: MafiaClientInner,
}

impl View for MafiaClient {
    type V = MirrorView;

    closed spec fn view(&self) -> MirrorView {
        self.inner@
    }
}

impl MafiaClient {
    /// The identity that the mirror was made with.
    pub closed spec fn ident(&self) -> MafiaClientIdent {
        self.ident
    }

    /// A mirror of a client that was just told `server_info`: it has seen no
    /// chat.
    pub fn new(ident: MafiaClientIdent, server_info: ServerInfo) -> (client: MafiaClient)
        ensures
            client.ident() == ident,
            client@.server_info == server_info@,
            client@.messages == Seq::<MessageView>::empty(),
    {
        let client = MafiaClient {
            ident,
            inner: MafiaClientInner {
                server_info,
                messages: VecDeque::with_capacity(MAX_MESSAGES_HISTORY),
            },
        };
        assert(client@.messages =~= Seq::<MessageView>::empty());
        client
    }

    pub fn get_ident(&self) -> (ident: &MafiaClientIdent)
        ensures
            *ident == self.ident(),
    {
        &self.ident
    }

    pub fn get_inner(&self) -> (inner: &MafiaClientInner)
        ensures
            inner@ == self@,
    {
        &self.inner
    }

    /// Folds `event` into the mirror.
    pub fn apply_event(&mut self, event: Event)
        ensures
            final(self)@ == old(self)@.applied(event@),
            final(self).ident() == old(self).ident(),
    {
        let ghost before = self@;
        match event {
            Event::SetServerInfo(new_info) => {
                self.inner.server_info = new_info;
            },
            Event::SetGame(new_game) => {
                self.inner.server_info.active_game = Some(new_game);
            },
            Event::EndGame => {
                self.inner.server_info.active_game = None;
            },
            Event::ClientConnected(client_info) => {
                let ghost info = client_info@;
                self.inner.server_info.connected_clients.insert(client_info.id.0, client_info);
                assert(self@.server_info.connected_clients
                    =~= before.server_info.connected_clients.insert(info.id.0, info));
            },
            Event::ClientDisconnected(client_id) => {
                self.inner.server_info.connected_clients.remove(&client_id.0);
                assert(self@.server_info.connected_clients
                    =~= before.server_info.connected_clients.remove(client_id.0));
            },
            Event::MessageReceived(message) => {
                if self.inner.messages.len() >= MAX_MESSAGES_HISTORY {
                    self.inner.messages.pop_front();
                }
                let ghost text = message@;
                self.inner.messages.push_back(message);
                assert(self@.messages =~= with_message(before.messages, text));
            },
            Event::VoteIssued { voter, target, channel: _ } => {
                match &mut self.inner.server_info.active_game {
                    Some(game) => {
                        game.votes.insert(voter.0, target);
                    },
                    None => {},
                }
            },
            Event::FailedVote { cycle: _, channel: _ } => {},
            Event::SetCycle { start_time_unix_ts_secs, duration_secs, cycle, day_num } => {
                match &mut self.inner.server_info.active_game {
                    Some(game) => {
                        game.current_cycle = cycle;
                        game.day_num = day_num;
                        game.cycle_start_time_unix_ts_secs = start_time_unix_ts_secs;
                        game.cycle_duration_secs = duration_secs;
                        game.votes = HashMap::new();
                    },
                    None => {},
                }
            },
            Event::PlayerKilled { player, cycle: _, death_message: _ } => {
                match &mut self.inner.server_info.active_game {
                    Some(game) => {
                        if game.player_status.contains_key(&player.0) {
                            game.player_status.insert(player.0, PlayerStatus::Dead);
                        }
                    },
                    None => {},
                }
            },
            Event::PlayerInvestigated { actor: _, target, allegiance } => {
                match &mut self.inner.server_info.active_game {
                    Some(game) => {
                        if allegiance == Allegiance::Mafia {
                            game.player_to_role.insert(target.0, SpecialRole::Mafia);
                        }
                    },
                    None => {},
                }
            },
            Event::GameWon { player_to_role, side } => {
                match &mut self.inner.server_info.active_game {
                    Some(game) => {
                        game.player_to_role = player_to_role;
                        game.winner = Some(side);
                    },
                    None => {},
                }
            },
        }
    }
}

} // verus!
