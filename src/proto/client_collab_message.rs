//! Variants of a client collab message.
use vstd::prelude::*;

verus! {

#[derive(Clone, Debug, PartialEq, Eq)]
pub enum Message {
    ClientInitSync(super::ClientInitSync),
    ClientUpdateSync(super::ClientUpdateSync),
    ServerInitSync(super::ServerInit),
    ClientAwarenessSync(super::UpdateSync),
    ClientCollabStateCheck(super::CollabStateCheck),
}

} // verus!
