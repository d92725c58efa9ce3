use collab_database::proto::{
    client_collab_message, ClientCollabMessage, ClientCollabMessageCollectionV1,
    ClientCollabMessageCollectionV2, ClientUpdateSync,
    system_action, system_message, BroadcastAction, BroadcastSync, BroadcastTracker, CollabAck,
    CollabType, DuplicateConnection, EmbeddingContentType, EncoderVersion, KickOff, RateLimit, Role,
    SystemAction, SystemMessage, UpdateAction, UpdateOrder, UpdateSync,
};

#[test]
fn collab_type_names_round_trip() {
    let all = [
        (CollabType::Unknown, "COLLAB_TYPE_UNKNOWN"),
        (CollabType::Document, "COLLAB_TYPE_DOCUMENT"),
        (CollabType::Database, "COLLAB_TYPE_DATABASE"),
        (CollabType::WorkspaceDatabase, "COLLAB_TYPE_WORKSPACE_DATABASE"),
        (CollabType::Folder, "COLLAB_TYPE_FOLDER"),
        (CollabType::DatabaseRow, "COLLAB_TYPE_DATABASE_ROW"),
        (CollabType::UserAwareness, "COLLAB_TYPE_USER_AWARENESS"),
    ];
    for (t, name) in all {
        assert_eq!(t.as_str_name(), name);
        assert_eq!(CollabType::from_str_name(name), Some(t));
    }
    assert_eq!(CollabType::from_str_name("COLLAB_TYPE_NOPE"), None);
    assert_eq!(CollabType::from_str_name(""), None);
}

#[test]
fn other_enum_names_round_trip() {
    assert_eq!(EncoderVersion::V2.as_str_name(), "ENCODER_VERSION_V2");
    assert_eq!(EncoderVersion::from_str_name("ENCODER_VERSION_V1"), Some(EncoderVersion::V1));
    assert_eq!(EncoderVersion::from_str_name("ENCODER_VERSION_UNKNOWN"), Some(EncoderVersion::Unknown));
    assert_eq!(EncoderVersion::from_str_name("encoder_version_v1"), None);
    assert_eq!(EmbeddingContentType::PlainText.as_str_name(), "EMBEDDING_CONTENT_TYPE_PLAIN_TEXT");
    assert_eq!(
        EmbeddingContentType::from_str_name("EMBEDDING_CONTENT_TYPE_UNKNOWN"),
        Some(EmbeddingContentType::Unknown)
    );
    assert_eq!(Role::Guest.as_str_name(), "ROLE_GUEST");
    assert_eq!(Role::from_str_name("ROLE_OWNER"), Some(Role::Owner));
    assert_eq!(Role::from_str_name("ROLE_MEMBER"), Some(Role::Member));
    assert_eq!(Role::from_str_name("ROLE_ADMIN"), None);
}

fn ack(code: u32) -> CollabAck {
    CollabAck {
        origin: None,
        object_id: "o".to_string(),
        meta: None,
        payload: vec![],
        code,
        msg_id: 1,
        seq_num: 0,
    }
}

#[test]
fn ack_code_zero_is_success() {
    assert!(ack(0).is_success());
    assert!(!ack(3).is_success());
}

fn broadcast(seq_num: u32) -> BroadcastSync {
    BroadcastSync { origin: None, object_id: "o".to_string(), payload: vec![1], seq_num }
}

#[test]
fn broadcast_gap_asks_for_resync() {
    let mut t = BroadcastTracker::new();
    assert_eq!(t.receive(&broadcast(4)), BroadcastAction::Apply);
    assert_eq!(t.last_seen, Some(4));
    assert_eq!(t.receive(&broadcast(5)), BroadcastAction::Apply);
    assert_eq!(t.receive(&broadcast(5)), BroadcastAction::Ignore);
    assert_eq!(t.receive(&broadcast(3)), BroadcastAction::Ignore);
    assert_eq!(t.last_seen, Some(5));
    assert_eq!(t.receive(&broadcast(7)), BroadcastAction::Resync);
    assert_eq!(t.last_seen, None);
    assert_eq!(t.receive(&broadcast(9)), BroadcastAction::Apply);
    assert_eq!(t.last_seen, Some(9));
}

fn update(msg_id: u64) -> UpdateSync {
    UpdateSync { origin: None, object_id: "o".to_string(), msg_id, payload: vec![] }
}

#[test]
fn updates_apply_in_message_id_order() {
    let mut o = UpdateOrder::new();
    assert_eq!(o.receive(&update(2)), UpdateAction::Apply);
    assert_eq!(o.receive(&update(1)), UpdateAction::Reject);
    assert_eq!(o.receive(&update(2)), UpdateAction::Reject);
    assert_eq!(o.receive(&update(5)), UpdateAction::Apply);
    assert_eq!(o.last_applied, Some(5));
}

#[test]
fn system_notifications_throttle_or_disconnect() {
    let rate = SystemMessage { message: Some(system_message::Message::RateLimit(RateLimit { limit: 10 })) };
    assert_eq!(system_action(&rate), Some(SystemAction::Throttle(10)));
    let kick = SystemMessage { message: Some(system_message::Message::KickOff(KickOff {})) };
    assert_eq!(system_action(&kick), Some(SystemAction::Disconnect));
    let dup = SystemMessage {
        message: Some(system_message::Message::DuplicateConnection(DuplicateConnection {})),
    };
    assert_eq!(system_action(&dup), Some(SystemAction::Disconnect));
    assert_eq!(system_action(&SystemMessage { message: None }), None);
}

fn client_update(object_id: &str, msg_id: u64) -> ClientCollabMessage {
    ClientCollabMessage {
        message: Some(client_collab_message::Message::ClientUpdateSync(ClientUpdateSync {
            data: Some(update_for(object_id, msg_id)),
        })),
    }
}

fn update_for(object_id: &str, msg_id: u64) -> UpdateSync {
    UpdateSync { origin: None, object_id: object_id.to_string(), msg_id, payload: vec![] }
}

#[test]
fn list_batch_becomes_one_message_per_object() {
    let list = ClientCollabMessageCollectionV1 {
        messages: vec![
            client_update("a", 1),
            client_update("b", 2),
            client_update("a", 3),
            ClientCollabMessage { message: None },
        ],
    };
    let map = ClientCollabMessageCollectionV2::from_list(list);
    assert_eq!(map.messages.len(), 2);
    match &map.messages.get("a").unwrap().message {
        Some(client_collab_message::Message::ClientUpdateSync(w)) => {
            assert_eq!(w.data.as_ref().unwrap().msg_id, 3)
        },
        _ => panic!("wrong variant"),
    }
    assert_eq!(client_update("b", 2).object_id(), Some("b".to_string()));
    assert_eq!(ClientCollabMessage { message: None }.object_id(), None);
}
