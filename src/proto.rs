//! The synchronisation message set exchanged between a replica and a hub,
//! and the bookkeeping a receiver does on it.
use vstd::prelude::*;
use crate::keyed::KeyedMap;
use crate::text::same_text;

pub mod client_collab_message;
pub mod collab_message;
pub mod collab_origin;
pub mod collab_update_event;
pub mod realtime_message;
pub mod system_message;
pub mod user_message;

verus! {

/// Collab Type.
#[derive(Clone, Copy, Debug, PartialEq, Eq, Hash, PartialOrd, Ord, Structural)]
pub enum CollabType {
    Unknown,
    Document,
    Database,
    WorkspaceDatabase,
    Folder,
    DatabaseRow,
    UserAwareness,
}

/// The name of each value in the wire schema.
pub open spec fn collab_type_name(t: CollabType) -> Seq<char> {
    match t {
        CollabType::Unknown => "COLLAB_TYPE_UNKNOWN"@,
        CollabType::Document => "COLLAB_TYPE_DOCUMENT"@,
        CollabType::Database => "COLLAB_TYPE_DATABASE"@,
        CollabType::WorkspaceDatabase => "COLLAB_TYPE_WORKSPACE_DATABASE"@,
        CollabType::Folder => "COLLAB_TYPE_FOLDER"@,
        CollabType::DatabaseRow => "COLLAB_TYPE_DATABASE_ROW"@,
        CollabType::UserAwareness => "COLLAB_TYPE_USER_AWARENESS"@,
    }
}

/// The value whose schema name is `s`, if any.
pub open spec fn collab_type_from_name(s: Seq<char>) -> Option<CollabType> {
    if s == "COLLAB_TYPE_UNKNOWN"@ {
        Some(CollabType::Unknown)
    } else if s == "COLLAB_TYPE_DOCUMENT"@ {
        Some(CollabType::Document)
    } else if s == "COLLAB_TYPE_DATABASE"@ {
        Some(CollabType::Database)
    } else if s == "COLLAB_TYPE_WORKSPACE_DATABASE"@ {
        Some(CollabType::WorkspaceDatabase)
    } else if s == "COLLAB_TYPE_FOLDER"@ {
        Some(CollabType::Folder)
    } else if s == "COLLAB_TYPE_DATABASE_ROW"@ {
        Some(CollabType::DatabaseRow)
    } else if s == "COLLAB_TYPE_USER_AWARENESS"@ {
        Some(CollabType::UserAwareness)
    } else {
        None
    }
}

impl CollabType {
    /// String value of the enum field names used in the wire schema.
    pub fn as_str_name(&self) -> (r: &'static str)
        ensures
            r@ == collab_type_name(*self),
    {
        match self {
            CollabType::Unknown => "COLLAB_TYPE_UNKNOWN",
            CollabType::Document => "COLLAB_TYPE_DOCUMENT",
            CollabType::Database => "COLLAB_TYPE_DATABASE",
            CollabType::WorkspaceDatabase => "COLLAB_TYPE_WORKSPACE_DATABASE",
            CollabType::Folder => "COLLAB_TYPE_FOLDER",
            CollabType::DatabaseRow => "COLLAB_TYPE_DATABASE_ROW",
            CollabType::UserAwareness => "COLLAB_TYPE_USER_AWARENESS",
        }
    }

    /// Creates an enum from field names used in the wire schema.
    pub fn from_str_name(value: &str) -> (r: Option<Self>)
        ensures
            r == collab_type_from_name(value@),
    {
        if same_text(value, "COLLAB_TYPE_UNKNOWN") {
            Some(Self::Unknown)
        } else if same_text(value, "COLLAB_TYPE_DOCUMENT") {
            Some(Self::Document)
        } else if same_text(value, "COLLAB_TYPE_DATABASE") {
            Some(Self::Database)
        } else if same_text(value, "COLLAB_TYPE_WORKSPACE_DATABASE") {
            Some(Self::WorkspaceDatabase)
        } else if same_text(value, "COLLAB_TYPE_FOLDER") {
            Some(Self::Folder)
        } else if same_text(value, "COLLAB_TYPE_DATABASE_ROW") {
            Some(Self::DatabaseRow)
        } else if same_text(value, "COLLAB_TYPE_USER_AWARENESS") {
            Some(Self::UserAwareness)
        } else {
            None
        }
    }
}

/// Encoder version of an encoded document.
#[derive(Clone, Copy, Debug, PartialEq, Eq, Hash, PartialOrd, Ord, Structural)]
pub enum EncoderVersion {
    Unknown,
    V1,
    V2,
}

/// The name of each value in the wire schema.
pub open spec fn encoder_version_name(t: EncoderVersion) -> Seq<char> {
    match t {
        EncoderVersion::Unknown => "ENCODER_VERSION_UNKNOWN"@,
        EncoderVersion::V1 => "ENCODER_VERSION_V1"@,
        EncoderVersion::V2 => "ENCODER_VERSION_V2"@,
    }
}

/// The value whose schema name is `s`, if any.
pub open spec fn encoder_version_from_name(s: Seq<char>) -> Option<EncoderVersion> {
    if s == "ENCODER_VERSION_UNKNOWN"@ {
        Some(EncoderVersion::Unknown)
    } else if s == "ENCODER_VERSION_V1"@ {
        Some(EncoderVersion::V1)
    } else if s == "ENCODER_VERSION_V2"@ {
        Some(EncoderVersion::V2)
    } else {
        None
    }
}

impl EncoderVersion {
    /// String value of the enum field names used in the wire schema.
    pub fn as_str_name(&self) -> (r: &'static str)
        ensures
            r@ == encoder_version_name(*self),
    {
        match self {
            EncoderVersion::Unknown => "ENCODER_VERSION_UNKNOWN",
            EncoderVersion::V1 => "ENCODER_VERSION_V1",
            EncoderVersion::V2 => "ENCODER_VERSION_V2",
        }
    }

    /// Creates an enum from field names used in the wire schema.
    pub fn from_str_name(value: &str) -> (r: Option<Self>)
        ensures
            r == encoder_version_from_name(value@),
    {
        if same_text(value, "ENCODER_VERSION_UNKNOWN") {
            Some(Self::Unknown)
        } else if same_text(value, "ENCODER_VERSION_V1") {
            Some(Self::V1)
        } else if same_text(value, "ENCODER_VERSION_V2") {
            Some(Self::V2)
        } else {
            None
        }
    }
}

/// Types of embeddings content.
#[derive(Clone, Copy, Debug, PartialEq, Eq, Hash, PartialOrd, Ord, Structural)]
pub enum EmbeddingContentType {
    Unknown,
    PlainText,
}

/// The name of each value in the wire schema.
pub open spec fn embedding_content_type_name(t: EmbeddingContentType) -> Seq<char> {
    match t {
        EmbeddingContentType::Unknown => "EMBEDDING_CONTENT_TYPE_UNKNOWN"@,
        EmbeddingContentType::PlainText => "EMBEDDING_CONTENT_TYPE_PLAIN_TEXT"@,
    }
}

/// The value whose schema name is `s`, if any.
pub open spec fn embedding_content_type_from_name(s: Seq<char>) -> Option<EmbeddingContentType> {
    if s == "EMBEDDING_CONTENT_TYPE_UNKNOWN"@ {
        Some(EmbeddingContentType::Unknown)
    } else if s == "EMBEDDING_CONTENT_TYPE_PLAIN_TEXT"@ {
        Some(EmbeddingContentType::PlainText)
    } else {
        None
    }
}

impl EmbeddingContentType {
    /// String value of the enum field names used in the wire schema.
    pub fn as_str_name(&self) -> (r: &'static str)
        ensures
            r@ == embedding_content_type_name(*self),
    {
        match self {
            EmbeddingContentType::Unknown => "EMBEDDING_CONTENT_TYPE_UNKNOWN",
            EmbeddingContentType::PlainText => "EMBEDDING_CONTENT_TYPE_PLAIN_TEXT",
        }
    }

    /// Creates an enum from field names used in the wire schema.
    pub fn from_str_name(value: &str) -> (r: Option<Self>)
        ensures
            r == embedding_content_type_from_name(value@),
    {
        if same_text(value, "EMBEDDING_CONTENT_TYPE_UNKNOWN") {
            Some(Self::Unknown)
        } else if same_text(value, "EMBEDDING_CONTENT_TYPE_PLAIN_TEXT") {
            Some(Self::PlainText)
        } else {
            None
        }
    }
}

/// Workspace member role.
#[derive(Clone, Copy, Debug, PartialEq, Eq, Hash, PartialOrd, Ord, Structural)]
pub enum Role {
    Unknown,
    Owner,
    Member,
    Guest,
}

/// The name of each value in the wire schema.
pub open spec fn role_name(t: Role) -> Seq<char> {
    match t {
        Role::Unknown => "ROLE_UNKNOWN"@,
        Role::Owner => "ROLE_OWNER"@,
        Role::Member => "ROLE_MEMBER"@,
        Role::Guest => "ROLE_GUEST"@,
    }
}

/// The value whose schema name is `s`, if any.
pub open spec fn role_from_name(s: Seq<char>) -> Option<Role> {
    if s == "ROLE_UNKNOWN"@ {
        Some(Role::Unknown)
    } else if s == "ROLE_OWNER"@ {
        Some(Role::Owner)
    } else if s == "ROLE_MEMBER"@ {
        Some(Role::Member)
    } else if s == "ROLE_GUEST"@ {
        Some(Role::Guest)
    } else {
        None
    }
}

impl Role {
    /// String value of the enum field names used in the wire schema.
    pub fn as_str_name(&self) -> (r: &'static str)
        ensures
            r@ == role_name(*self),
    {
        match self {
            Role::Unknown => "ROLE_UNKNOWN",
            Role::Owner => "ROLE_OWNER",
            Role::Member => "ROLE_MEMBER",
            Role::Guest => "ROLE_GUEST",
        }
    }

    /// Creates an enum from field names used in the wire schema.
    pub fn from_str_name(value: &str) -> (r: Option<Self>)
        ensures
            r == role_from_name(value@),
    {
        if same_text(value, "ROLE_UNKNOWN") {
            Some(Self::Unknown)
        } else if same_text(value, "ROLE_OWNER") {
            Some(Self::Owner)
        } else if same_text(value, "ROLE_MEMBER") {
            Some(Self::Member)
        } else if same_text(value, "ROLE_GUEST") {
            Some(Self::Guest)
        } else {
            None
        }
    }
}

/// Originating from a client.
#[derive(Clone, Debug, PartialEq, Eq)]
pub struct ClientOrigin {
    /// User id.
    pub uid: i64,
    /// Device id.
    pub device_id: String,
}

/// Unknown origin.
#[derive(Clone, Debug, PartialEq, Eq)]
pub struct EmptyOrigin {
}

/// Originating from the server.
#[derive(Clone, Debug, PartialEq, Eq)]
pub struct ServerOrigin {
}

/// Origin of a collab message.
#[derive(Clone, Debug, PartialEq, Eq)]
pub struct CollabOrigin {
    pub origin: Option<collab_origin::Origin>,
}

/// Encoded collaborative document.
#[derive(Clone, Debug, PartialEq, Eq)]
pub struct EncodedCollab {
    /// State vector.
    pub state_vector: Vec<u8>,
    /// Document state.
    pub doc_state: Vec<u8>,
    /// Encoder version used for the state vector and doc state.
    pub encoder_version: i32,
}

/// Payload for creating new collab or update existing collab over http.
#[derive(Clone, Debug, PartialEq, Eq)]
pub struct CreateCollabParams {
    /// Workspace id.
    pub workspace_id: String,
    /// Object id.
    pub object_id: String,
    /// Serialized encoded collab.
    pub encoded_collab: Vec<u8>,
    /// Collab type.
    pub collab_type: i32,
}

/// Message sent when the origin attempts to sync the payload with a collab document.
#[derive(Clone, Debug, PartialEq, Eq)]
pub struct InitSync {
    /// Message origin.
    pub origin: Option<CollabOrigin>,
    /// Object id for the collab.
    pub object_id: String,
    /// Collab type.
    pub collab_type: i32,
    /// Workspace which the collab belongs to.
    pub workspace_id: String,
    /// Message id for the sync.
    pub msg_id: u64,
    /// Encoded document state vector.
    pub payload: Vec<u8>,
}

/// Update message sent from the origin to the collab.
#[derive(Clone, Debug, PartialEq, Eq)]
pub struct UpdateSync {
    /// Message origin.
    pub origin: Option<CollabOrigin>,
    /// Object id for the collab.
    pub object_id: String,
    /// Message id for the sync.
    pub msg_id: u64,
    /// Encoded updates.
    pub payload: Vec<u8>,
}

/// Metadata for ack message, to be deprecated.
#[derive(Clone, Debug, PartialEq, Eq)]
pub struct AckMeta {
    pub data: String,
    pub msg_id: u64,
}

/// Acknowledgement of a message, correlated by `msg_id`.
#[derive(Clone, Debug, PartialEq, Eq)]
pub struct CollabAck {
    pub origin: Option<CollabOrigin>,
    pub object_id: String,
    /// Deprecated.
    pub meta: Option<AckMeta>,
    pub payload: Vec<u8>,
    /// Result code: zero on success.
    pub code: u32,
    pub msg_id: u64,
    /// Position in the hub's broadcast stream.
    pub seq_num: u32,
}

/// Initial sync from the hub.
#[derive(Clone, Debug, PartialEq, Eq)]
pub struct ServerInit {
    pub origin: Option<CollabOrigin>,
    pub object_id: String,
    pub msg_id: u64,
    pub payload: Vec<u8>,
}

/// Ephemeral presence payload.
#[derive(Clone, Debug, PartialEq, Eq)]
pub struct AwarenessSync {
    pub origin: Option<CollabOrigin>,
    pub object_id: String,
    pub payload: Vec<u8>,
}

/// Update broadcast by the hub to its subscribers.
#[derive(Clone, Debug, PartialEq, Eq)]
pub struct BroadcastSync {
    pub origin: Option<CollabOrigin>,
    pub object_id: String,
    pub payload: Vec<u8>,
    /// Per-object increasing sequence number.
    pub seq_num: u32,
}

/// Wrapper for init sync, for the case when the client is the origin.
#[derive(Clone, Debug, PartialEq, Eq)]
pub struct ClientInitSync {
    pub data: Option<InitSync>,
}

/// Wrapper for update sync, for the case when the client is the origin.
#[derive(Clone, Debug, PartialEq, Eq)]
pub struct ClientUpdateSync {
    pub data: Option<UpdateSync>,
}

/// Identifier of an active collab document sent over pubsub.
#[derive(Clone, Debug, PartialEq, Eq)]
pub struct ActiveCollabId {
    /// Workspace id the active collab belongs to.
    pub workspace_id: String,
    /// Object id.
    pub oid: String,
}

/// Update content sent over pubsub.
#[derive(Clone, Debug, PartialEq, Eq)]
pub struct CollabUpdateEvent {
    pub update: Option<collab_update_event::Update>,
}

/// Message sent over websocket to perform collab sync.
#[derive(Clone, Debug, PartialEq, Eq)]
pub struct CollabMessage {
    pub message: Option<collab_message::Message>,
}

/// User profile change event.
#[derive(Clone, Debug, PartialEq, Eq)]
pub struct UserChange {
    /// User id.
    pub uid: u64,
    /// User name.
    pub name: Option<String>,
    /// User email.
    pub email: Option<String>,
    /// Metadata.
    pub metadata: Option<String>,
}

/// Workspace member.
#[derive(Clone, Debug, PartialEq, Eq)]
pub struct WorkspaceMember {
    /// Member's user name.
    pub name: String,
    /// Member's email.
    pub email: String,
    /// Member's role.
    pub role: i32,
    /// Member's avatar URL.
    pub avatar_url: Option<String>,
}

/// Workspace member change event.
#[derive(Clone, Debug, PartialEq, Eq)]
pub struct WorkspaceMemberChange {
    /// Members added to the workspace.
    pub added: Vec<WorkspaceMember>,
    /// Members with updated profile.
    pub updated: Vec<WorkspaceMember>,
    /// Members removed from the workspace.
    pub removed: Vec<WorkspaceMember>,
}

/// Notification on workspace members and user profile related changes.
#[derive(Clone, Debug, PartialEq, Eq)]
pub struct UserMessage {
    pub message: Option<user_message::Message>,
}

/// Rate limit exceeded notification.
#[derive(Clone, Debug, PartialEq, Eq)]
pub struct RateLimit {
    pub limit: u32,
}

/// Connection kick off from the server.
#[derive(Clone, Debug, PartialEq, Eq)]
pub struct KickOff {
}

/// There's already an existing connection from the client.
#[derive(Clone, Debug, PartialEq, Eq)]
pub struct DuplicateConnection {
}

/// Notification on system related events.
#[derive(Clone, Debug, PartialEq, Eq)]
pub struct SystemMessage {
    pub message: Option<system_message::Message>,
}

/// Periodic collab state checker.
#[derive(Clone, Debug, PartialEq, Eq)]
pub struct CollabStateCheck {
    /// Collab origin.
    pub origin: Option<CollabOrigin>,
    /// Object id.
    pub object_id: String,
    /// Message id.
    pub msg_id: u64,
}

/// Collab message originating from the client.
#[derive(Clone, Debug, PartialEq, Eq)]
pub struct ClientCollabMessage {
    pub message: Option<client_collab_message::Message>,
}

/// Client collab messages in the form of a list; kept for older peers.
#[derive(Clone, Debug, PartialEq, Eq)]
pub struct ClientCollabMessageCollectionV1 {
    pub messages: Vec<ClientCollabMessage>,
}

/// Client collab messages keyed by object id.
#[derive(Clone, Debug, PartialEq, Eq)]
pub struct ClientCollabMessageCollectionV2 {
    /// One entry per object id.
    pub messages: KeyedMap<ClientCollabMessage>,
}

/// Server collab messages in the form of a list.
#[derive(Clone, Debug, PartialEq, Eq)]
pub struct ServerCollabMessageCollection {
    pub messages: Vec<CollabMessage>,
}

/// Realtime message sent over websocket.
#[derive(Clone, Debug, PartialEq, Eq)]
pub struct RealtimeMessage {
    pub message: Option<realtime_message::Message>,
}

impl CollabAck {
    /// Whether the acknowledged message succeeded.
    pub fn is_success(&self) -> (r: bool)
        ensures
            r == (self.code == 0),
    {
        self.code == 0
    }
}

/// What a subscriber does with a broadcast update.
#[derive(Clone, Copy, Debug, PartialEq, Eq, Structural)]
pub enum BroadcastAction {
    /// The next update of the stream: apply it.
    Apply,
    /// Already seen: drop it.
    Ignore,
    /// Updates were missed: the local replica may be behind, so it asks for
    /// a fresh init sync rather than trusting the stream.
    Resync,
}

/// The action for broadcast number `seq_num` after `last_seen`.
pub open spec fn broadcast_action(last_seen: Option<u32>, seq_num: u32) -> BroadcastAction {
    match last_seen {
        None => BroadcastAction::Apply,
        Some(l) => if seq_num as int == l + 1 {
            BroadcastAction::Apply
        } else if seq_num as int > l + 1 {
            BroadcastAction::Resync
        } else {
            BroadcastAction::Ignore
        },
    }
}

/// A subscriber's position in the broadcast stream of one object.
pub struct BroadcastTracker {
    /// The last sequence number applied; `None` before the first one and
    /// after a resync.
    pub last_seen: Option<u32>,
}

impl BroadcastTracker {
    pub fn new() -> (r: Self)
        ensures
            r.last_seen is None,
    {
        BroadcastTracker { last_seen: None }
    }

    /// Decides what to do with `msg` and moves the position accordingly.
    pub fn receive(&mut self, msg: &BroadcastSync) -> (r: BroadcastAction)
        ensures
            r == broadcast_action(old(self).last_seen, msg.seq_num),
            final(self).last_seen == (match r {
                BroadcastAction::Apply => Some(msg.seq_num),
                BroadcastAction::Resync => None,
                BroadcastAction::Ignore => old(self).last_seen,
            }),
    {
        let r = match self.last_seen {
            None => BroadcastAction::Apply,
            Some(l) => {
                if l < u32::MAX && msg.seq_num == l + 1 {
                    BroadcastAction::Apply
                } else if l < u32::MAX && msg.seq_num > l + 1 {
                    BroadcastAction::Resync
                } else {
                    BroadcastAction::Ignore
                }
            },
        };
        match r {
            BroadcastAction::Apply => self.last_seen = Some(msg.seq_num),
            BroadcastAction::Resync => self.last_seen = None,
            BroadcastAction::Ignore => {},
        }
        r
    }
}

/// What a receiver does with an update from one origin for one object.
#[derive(Clone, Copy, Debug, PartialEq, Eq, Structural)]
pub enum UpdateAction {
    Apply,
    /// Out of order or already applied: never applied.
    Reject,
}

/// Applies updates of one origin and object in increasing message id order.
pub struct UpdateOrder {
    /// The id of the last update applied.
    pub last_applied: Option<u64>,
}

impl UpdateOrder {
    pub fn new() -> (r: Self)
        ensures
            r.last_applied is None,
    {
        UpdateOrder { last_applied: None }
    }

    /// Accepts `msg` only when its id is above every id applied before.
    pub fn receive(&mut self, msg: &UpdateSync) -> (r: UpdateAction)
        ensures
            r == (if (old(self).last_applied matches Some(l) && msg.msg_id <= l) {
                UpdateAction::Reject
            } else {
                UpdateAction::Apply
            }),
            r == UpdateAction::Apply ==> final(self).last_applied == Some(msg.msg_id),
            r == UpdateAction::Reject ==> final(self).last_applied == old(self).last_applied,
    {
        match self.last_applied {
            Some(l) => {
                if msg.msg_id <= l {
                    return UpdateAction::Reject;
                }
            },
            None => {},
        }
        self.last_applied = Some(msg.msg_id);
        UpdateAction::Apply
    }
}

/// What a client does on a system notification.
#[derive(Clone, Copy, Debug, PartialEq, Eq, Structural)]
pub enum SystemAction {
    /// Slow down to at most this many messages.
    Throttle(u32),
    /// Close the connection.
    Disconnect,
}

/// The action a system notification calls for; `None` for a variant this
/// reader does not know.
pub fn system_action(msg: &SystemMessage) -> (r: Option<SystemAction>)
    ensures
        r == (match msg.message {
            Some(system_message::Message::RateLimit(l)) => Some(SystemAction::Throttle(l.limit)),
            Some(system_message::Message::KickOff(_)) => Some(SystemAction::Disconnect),
            Some(system_message::Message::DuplicateConnection(_)) => Some(SystemAction::Disconnect),
            None => None,
        }),
{
    match &msg.message {
        Some(system_message::Message::RateLimit(l)) => Some(SystemAction::Throttle(l.limit)),
        Some(system_message::Message::KickOff(_)) => Some(SystemAction::Disconnect),
        Some(system_message::Message::DuplicateConnection(_)) => Some(SystemAction::Disconnect),
        None => None,
    }
}

/// The object a client message is about; `None` when it carries no message.
pub open spec fn message_object_id(m: ClientCollabMessage) -> Option<Seq<char>> {
    match m.message {
        Some(client_collab_message::Message::ClientInitSync(w)) => match w.data {
            Some(d) => Some(d.object_id@),
            None => None,
        },
        Some(client_collab_message::Message::ClientUpdateSync(w)) => match w.data {
            Some(d) => Some(d.object_id@),
            None => None,
        },
        Some(client_collab_message::Message::ServerInitSync(d)) => Some(d.object_id@),
        Some(client_collab_message::Message::ClientAwarenessSync(d)) => Some(d.object_id@),
        Some(client_collab_message::Message::ClientCollabStateCheck(d)) => Some(d.object_id@),
        None => None,
    }
}

/// The messages of a list keyed by object id, a later message for an id
/// replacing an earlier one; messages about no object are left out.
pub open spec fn keyed_by_object(ms: Seq<ClientCollabMessage>) -> Map<Seq<char>, ClientCollabMessage>
    decreases ms.len(),
{
    if ms.len() == 0 {
        Map::empty()
    } else {
        let m = keyed_by_object(ms.drop_last());
        match message_object_id(ms.last()) {
            Some(k) => m.insert(k, ms.last()),
            None => m,
        }
    }
}

impl ClientCollabMessage {
    /// The object this message is about.
    pub fn object_id(&self) -> (r: Option<String>)
        ensures
            r matches Some(s) ==> message_object_id(*self) == Some(s@),
            r is None ==> message_object_id(*self) is None,
    {
        match &self.message {
            Some(client_collab_message::Message::ClientInitSync(w)) => match &w.data {
                Some(d) => Some(d.object_id.clone()),
                None => None,
            },
            Some(client_collab_message::Message::ClientUpdateSync(w)) => match &w.data {
                Some(d) => Some(d.object_id.clone()),
                None => None,
            },
            Some(client_collab_message::Message::ServerInitSync(d)) => Some(d.object_id.clone()),
            Some(client_collab_message::Message::ClientAwarenessSync(d)) => Some(d.object_id.clone()),
            Some(client_collab_message::Message::ClientCollabStateCheck(d)) => Some(d.object_id.clone()),
            None => None,
        }
    }
}

impl ClientCollabMessageCollectionV2 {
    /// The map form of a list-form batch: one message per object id, the
    /// later of two messages for the same object winning.
    pub fn from_list(list: ClientCollabMessageCollectionV1) -> (r: Self)
        ensures
            r.messages.wf(),
            r.messages@ == keyed_by_object(list.messages@),
    {
        let ghost all = list.messages@;
        let mut rest = list.messages;
        let n = rest.len();
        let mut out: KeyedMap<ClientCollabMessage> = KeyedMap::new();
        let mut i: usize = 0;
        proof {
            assert(all.take(0) =~= Seq::<ClientCollabMessage>::empty());
            assert(out@ =~= keyed_by_object(all.take(0)));
            assert(rest@ =~= all.skip(0));
        }
        while rest.len() > 0
            invariant
                n == all.len(),
                0 <= i <= n,
                rest@ == all.skip(i as int),
                out.wf(),
                out@ == keyed_by_object(all.take(i as int)),
            decreases rest@.len(),
        {
            let m = rest.remove(0);
            proof {
                assert(m == all[i as int]);
                assert(all.take(i + 1).drop_last() =~= all.take(i as int));
                assert(all.take(i + 1).last() == m);
                assert(rest@ =~= all.skip(i + 1));
            }
            match m.object_id() {
                Some(k) => out.insert(k, m),
                None => {},
            }
            i = i + 1;
        }
        proof {
            assert(all.take(i as int) =~= all);
        }
        ClientCollabMessageCollectionV2 { messages: out }
    }
}

} // verus!
