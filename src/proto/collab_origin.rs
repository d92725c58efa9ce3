//! Variants of a message origin.
use vstd::prelude::*;

verus! {

#[derive(Clone, Debug, PartialEq, Eq)]
pub enum Origin {
    Empty(super::EmptyOrigin),
    Client(super::ClientOrigin),
    Server(super::ServerOrigin),
}

} // verus!
