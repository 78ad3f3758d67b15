//! Verified storage core for a chat-driven registration service.
//!
//! The crate provides a typed, collection-oriented key-value store with a
//! canonical big-endian binary codec, entity repositories (corners, users,
//! chats, revenue records, invite codes), and the invite-code lifecycle
//! state machine that enforces exactly-once redemption of time-limited,
//! single-use invite codes.
#![allow(unused_imports)]
use vstd::prelude::*;

pub mod codec;
pub mod entities;
pub mod store;
pub mod invite;
pub mod repos;

verus! {

/// True exactly when the integer behind the reference is zero.
pub fn i32_is_null(x: &i32) -> (r: bool)
    ensures
        r == (*x == 0),
{
    *x == 0
}

} // verus!
