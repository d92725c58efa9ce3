//! Variants of a collab sync message.
use vstd::prelude::*;

verus! {

#[derive(Clone, Debug, PartialEq, Eq)]
pub enum Message {
    ClientInitSync(super::InitSync),
    ClientUpdateSync(super::UpdateSync),
    ClientAck(super::CollabAck),
    ServerInitSync(super::ServerInit),
    AwarenessSync(super::AwarenessSync),
    ServerBroadcast(super::BroadcastSync),
}

} // verus!
