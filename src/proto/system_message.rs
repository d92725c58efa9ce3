//! Variants of a system notification.
use vstd::prelude::*;

verus! {

#[derive(Clone, Debug, PartialEq, Eq)]
pub enum Message {
    RateLimit(super::RateLimit),
    KickOff(super::KickOff),
    DuplicateConnection(super::DuplicateConnection),
}

} // verus!
