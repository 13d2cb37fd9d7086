//! Identities: the durable `PersonRecord` kept by the world store, and the
//! ephemeral `Person` session created when a connection logs in.

use vstd::prelude::*;

verus! {

use crate::connection::Connection;
use crate::crypto::{argon2_verifies, argon2_verify};
use crate::room::RoomId;

/// Unique ID numbers for each person.
pub type PersonId = u64;

/// Number of characters of base64 text generated per salt, four for every
/// three bytes of randomness begun.
pub const PASSWD_SALT_LENGTH: usize = 16;

/// A person/user. Not necessarily connected.
pub struct PersonRecord {
    pub id: PersonId,
    pub name: String,
    /// Last known location/default location.
    pub loc: RoomId,
    /// The salt the password was hashed with, as base64 text.
    pub salt: String,
    /// The encoded hash of the password.
    pub password: String,
}

impl Clone for PersonRecord {
    fn clone(&self) -> (res: Self)
        ensures
            res == *self,
    {
        PersonRecord {
            id: self.id,
            name: self.name.clone(),
            loc: self.loc,
            salt: self.salt.clone(),
            password: self.password.clone(),
        }
    }
}

impl PersonRecord {
    /// Whether `candidate` is the password this record was registered
    /// with, decided by re-running the hash verification. Neither the
    /// plaintext nor the hash leaves this function.
    pub fn authenticate(&self, candidate: &str) -> (r: bool)
        ensures
            r == argon2_verifies(self.password@, candidate@),
    {
        argon2_verify(self.password.as_str(), candidate)
    }
}

/// Password verification is deterministic: whether a candidate matches
/// depends only on the stored encoded hash (which carries its own salt
/// and parameters) and the candidate, so re-checking the same candidate
/// against the same record always yields the same answer.
pub proof fn lemma_verification_deterministic(a: PersonRecord, b: PersonRecord, candidate: Seq<char>)
    requires
        a.password@ == b.password@,
    ensures
        argon2_verifies(a.password@, candidate) == argon2_verifies(b.password@, candidate),
{
}

/// A logged-in connection to the server.
pub struct Person {
    pub id: PersonId,
    pub name: String,
    /// The room this session is currently in.
    pub loc: RoomId,
    pub conn: Connection,
}

impl Clone for Person {
    fn clone(&self) -> (res: Self)
        ensures
            res == *self,
    {
        Person { id: self.id, name: self.name.clone(), loc: self.loc, conn: self.conn.clone() }
    }
}

impl Person {
    /// Begin a live session for the identity behind `p`, attached to
    /// `conn`. The session starts in the record's last known room.
    pub fn new(p: &PersonRecord, conn: Connection) -> (r: Self)
        ensures
            r.id == p.id,
            r.name == p.name,
            r.loc == p.loc,
            r.conn == conn,
    {
        Person { id: p.id, name: p.name.clone(), loc: p.loc, conn }
    }
}

} // verus!
