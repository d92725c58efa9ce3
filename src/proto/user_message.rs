//! Variants of a user notification.
use vstd::prelude::*;

verus! {

#[derive(Clone, Debug, PartialEq, Eq)]
pub enum Message {
    ProfileChange(super::UserChange),
    WorkspaceMemberChange(super::WorkspaceMemberChange),
}

} // verus!
