//! The errors the server reports to its callers.

use crate::game::RoleCounts;
use crate::types::ClientId;
use crate::types::Cycle;
use crate::types::SessionToken;
use vstd::prelude::*;

verus! {

/// Why a game configuration cannot be played at all.
#[derive(Copy, Clone, PartialEq, Eq, Debug)]
pub enum ConfigFault {
    /// The configuration asks for no Mafia player.
    NoMafia,
    /// The players that were named are not the clients on record, each once.
    NotThePlayers,
}

/// Why the clients at hand are too few for a configuration.
#[derive(Copy, Clone, PartialEq, Eq, Debug)]
pub enum PlayerShortage {
    /// The villagers would not strictly outnumber the Mafia.
    MafiaNotOutnumbered { mafia: usize, players: usize },
    /// There are more special roles than players.
    MoreRolesThanPlayers { roles: RoleCounts, players: usize },
}

/// Why a vote was turned down.
#[derive(Copy, Clone, PartialEq, Eq, Debug)]
pub enum VoteRejection {
    /// The game already has a winner.
    GameComplete,
    /// The voter is not a living player.
    VoterNotAlive(ClientId),
    /// The target is not a living player.
    TargetNotAlive(ClientId),
    /// The cycle started less than the grace period (in seconds) ago.
    GracePeriod(u64),
    /// The voter holds no role that acts in this cycle.
    RoleCannotVote(ClientId, Cycle),
}

/// What the server can refuse a request with.
#[derive(Clone, PartialEq, Eq, Debug)]
pub enum MafiaGameError {
    /// The name is in use by a connected client.
    ClientNameRegistered(String),
    /// No client holds this token.
    InvalidSessionToken(SessionToken),
    /// No client has this id.
    InvalidClientId(ClientId),
    /// The id pool is exhausted.
    TooManyClientsRegistered,
    NotEnoughPlayers(PlayerShortage),
    InvalidGameConfig(ConfigFault),
    InvalidVote(VoteRejection),
    GameInProgress,
    NoGameInProgress,
    /// The client was disconnected and must reconnect first.
    ClientDisconnected(ClientId),
}

} // verus!
