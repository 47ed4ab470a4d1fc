//! Identifiers and names that the protocol messages carry.
use vstd::prelude::*;

verus! {

/// Identifies a server.
#[derive(Clone, Copy, Debug, PartialEq, Eq, Hash, Structural)]
pub struct ServerId(pub u8);

/// Identifies a geographic region.
#[derive(Clone, Copy, Debug, PartialEq, Eq, Hash, Structural)]
pub struct RegionId(pub u8);

/// Identifies an invitation to play together.
#[derive(Clone, Copy, Debug, PartialEq, Eq, Hash, Structural)]
pub struct InvitationId(pub u32);

/// Identifies an arena on a server.
#[derive(Clone, Copy, Debug, PartialEq, Eq, Hash, Structural)]
pub struct ArenaId(pub u32);

/// Identifies a session of a player.
#[derive(Clone, Copy, Debug, PartialEq, Eq, Hash, Structural)]
pub struct SessionId(pub u64);

/// Identifies a player.
#[derive(Clone, Copy, Debug, PartialEq, Eq, Hash, Structural)]
pub struct PlayerId(pub u32);

/// Identifies a team.
#[derive(Clone, Copy, Debug, PartialEq, Eq, Hash, Structural)]
pub struct TeamId(pub u32);

/// Encoding of the messages on a websocket.
#[derive(Clone, Copy, Debug, PartialEq, Eq, Hash, Structural)]
pub enum WebSocketProtocol {
    Binary,
    Json,
}

/// Where a player came from.
#[derive(Clone, Debug, PartialEq, Eq, Hash)]
pub struct Referrer(pub String);

/// Name of a team.
#[derive(Clone, Debug, PartialEq, Eq, Hash)]
pub struct TeamName(pub String);

/// Name a player goes by.
#[derive(Clone, Debug, PartialEq, Eq, Hash)]
pub struct PlayerAlias(pub String);

} // verus!
