//! Messages between clients, servers and the system endpoint.
use vstd::prelude::*;

use crate::ids::{
    ArenaId, InvitationId, PlayerAlias, PlayerId, Referrer, RegionId, ServerId, SessionId, TeamId,
    TeamName, WebSocketProtocol,
};

verus! {

/// Query parameters of the system endpoint, which inform server routing.
/// Each is a preference that need not be honored.
#[derive(Clone, Debug, PartialEq, Eq)]
pub struct SystemQuery {
    pub server_id: Option<ServerId>,
    pub region_id: Option<RegionId>,
    pub invitation_id: Option<InvitationId>,
}

/// Response to a system request.
#[derive(Clone, Debug, PartialEq, Eq)]
pub struct SystemResponse {
    /// The server matching the invitation, or closest to the client.
    pub server_id: Option<ServerId>,
}

/// Response to a status request.
#[derive(Clone, Debug, PartialEq, Eq)]
pub struct StatusResponse {
    /// If false, this server cannot be relied on and should be replaced.
    pub healthy: bool,
    /// Region of this server.
    pub region_id: Option<RegionId>,
    /// What server this server is redirecting to.
    pub redirect_server_id: Option<ServerId>,
    pub client_hash: Option<u64>,
    /// Number of (real) players.
    pub player_count: Option<u32>,
    /// Dying servers, in need of replacement, according to this server.
    pub dying_server_ids: Vec<ServerId>,
}

/// Optional parameters of a websocket, sent in the URL query string.
#[derive(Clone, Debug, PartialEq, Eq)]
pub struct WebSocketQuery {
    pub protocol: Option<WebSocketProtocol>,
    pub arena_id: Option<ArenaId>,
    pub session_id: Option<SessionId>,
    pub invitation_id: Option<InvitationId>,
    pub referrer: Option<Referrer>,
}

/// Team related requests from the client to the server.
#[derive(Clone, Debug, PartialEq, Eq)]
pub enum TeamRequest {
    Accept(PlayerId),
    Promote(PlayerId),
    Create(TeamName),
    Kick(PlayerId),
    Leave,
    Reject(PlayerId),
    Join(TeamId),
}

/// Chat related request from client to server.
#[derive(Clone, Debug, PartialEq, Eq)]
pub enum ChatRequest {
    Mute(PlayerId),
    Unmute(PlayerId),
    Send { message: String, whisper: bool },
}

/// Player related request from client to server.
#[derive(Clone, Debug, PartialEq, Eq)]
pub enum PlayerRequest {
    Report(PlayerId),
}

/// Invitation related request from client to server.
#[derive(Clone, Debug, PartialEq, Eq)]
pub enum InvitationRequest {
    CreateInvitation,
}

/// Invitation related update from server to client.
#[derive(Clone, Debug, PartialEq, Eq)]
pub enum InvitationUpdate {
    InvitationCreated(InvitationId),
}

/// General update from server to client.
#[derive(Clone, Debug, PartialEq, Eq)]
pub enum ClientUpdate {
    SessionCreated {
        arena_id: ArenaId,
        server_id: Option<ServerId>,
        session_id: SessionId,
        player_id: PlayerId,
    },
    AliasSet(PlayerAlias),
    FpsTallied,
    Traced,
}

} // verus!
