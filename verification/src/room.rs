//! Room identifiers. A room is a named set of currently-present sessions;
//! the membership itself lives in the world store.

use vstd::prelude::*;

verus! {

/// Identifies a room.
pub type RoomId = u64;

/// The one room that exists from the start and is never removed; every
/// newly registered identity begins there.
pub const INITIAL_LOC: RoomId = 0;

} // verus!
