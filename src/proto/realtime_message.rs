//! Variants of a realtime message.
use vstd::prelude::*;

verus! {

#[derive(Clone, Debug, PartialEq, Eq)]
pub enum Message {
    Collab(super::CollabMessage),
    User(super::UserMessage),
    System(super::SystemMessage),
    ClientCollabV1(super::ClientCollabMessageCollectionV1),
    ClientCollabV2(super::ClientCollabMessageCollectionV2),
    Server(super::ServerCollabMessageCollection),
}

} // verus!
