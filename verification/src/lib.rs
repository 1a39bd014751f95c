//! The authoritative core of a multiplayer Mafia party-game server: a client
//! registry, a day/night game engine and the facade that fans events out to the
//! clients entitled to see them, together with the mirror a client keeps.

pub mod client;
pub mod client_set;
pub mod consts;
pub mod error;
pub mod game;
pub mod mirror;
pub mod server;
pub mod ticker;
pub mod types;

pub use error::MafiaGameError;
pub use server::MafiaGameServer;
pub use server::MafiaGameServerConfig;
pub use ticker::TickerShutdown;

pub use types::Allegiance;
pub use types::ClientId;
pub use types::ClientInfo;
pub use types::Cycle;
pub use types::Entity;
pub use types::Event;
pub use types::EventChannel;
pub use types::GameInfo;
pub use types::Message;
pub use types::PlayerStatus;
pub use types::ServerInfo;
pub use types::SessionToken;
pub use types::SpecialRole;
