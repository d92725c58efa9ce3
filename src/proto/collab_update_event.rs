//! Variants of a pubsub update event.
use vstd::prelude::*;

verus! {

#[derive(Clone, Debug, PartialEq, Eq)]
pub enum Update {
    UpdateV1(Vec<u8>),
}

} // verus!
