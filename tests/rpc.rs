use render_deque::ids::{PlayerId, ServerId, TeamName};
use render_deque::rpc::{ChatRequest, StatusResponse, SystemResponse, TeamRequest};

#[test]
fn messages_compare_by_fields() {
    let a = SystemResponse { server_id: Some(ServerId(3)) };
    assert_eq!(a.clone(), a);
    assert_ne!(a, SystemResponse { server_id: None });
    assert_ne!(TeamRequest::Kick(PlayerId(1)), TeamRequest::Accept(PlayerId(1)));
    assert_eq!(
        TeamRequest::Create(TeamName("red".to_string())),
        TeamRequest::Create(TeamName("red".to_string()))
    );
    let chat = ChatRequest::Send { message: "hi".to_string(), whisper: false };
    assert!(matches!(chat, ChatRequest::Send { whisper: false, .. }));
    let status = StatusResponse {
        healthy: true,
        region_id: None,
        redirect_server_id: None,
        client_hash: Some(5),
        player_count: Some(2),
        dying_server_ids: vec![ServerId(1)],
    };
    assert_eq!(status.dying_server_ids.len(), 1);
}
