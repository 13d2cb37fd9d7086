//! The command layer: parsing a trimmed input line into the closed set of
//! commands, and dispatching a command against the world store.

use vstd::prelude::*;

verus! {

use crate::message::Message;
use crate::person::{Person, PersonId};
use crate::room::RoomId;
use crate::state::{delivered, delivered_except, same_identities, same_rooms, same_queues, State};
use crate::text::{str_eq, trim_str, trimmed};

broadcast use vstd::string::group_string_axioms;

/// An immutable parsed input line.
pub enum Command {
    Logout,
    Say { text: String },
    Shutdown,
}

impl Clone for Command {
    fn clone(&self) -> (res: Self)
        ensures
            res == *self,
    {
        match self {
            Command::Logout => Command::Logout,
            Command::Say { text } => Command::Say { text: text.clone() },
            Command::Shutdown => Command::Shutdown,
        }
    }
}

/// Error for an input line that parses to no command. Parsing is total —
/// any line that is no exact command is spoken text — so this is never
/// produced; it is kept so callers can treat parsing as fallible.
#[derive(Debug)]
pub struct ParserError {
    pub msg: String,
}

impl Command {
    /// Parse a line of input: after trimming whitespace, the exact word
    /// `shutdown` or `logout` is that command, and anything else — the
    /// empty line included — is the trimmed line spoken as text. The
    /// catch-all is deliberate for a chat-first interface: parsing never
    /// fails.
    pub fn parse(s: String) -> (r: Result<Command, ParserError>)
        ensures
            r is Ok,
            trimmed(s@) == "shutdown"@ ==> r->Ok_0 is Shutdown,
            trimmed(s@) == "logout"@ ==> r->Ok_0 is Logout,
            trimmed(s@) != "shutdown"@ && trimmed(s@) != "logout"@ ==> (r->Ok_0 matches
                Command::Say { text } && text@ == trimmed(s@)),
    {
        proof {
            reveal_strlit("shutdown");
            reveal_strlit("logout");
            assert("shutdown"@.len() == 8);
            assert("logout"@.len() == 6);
            assert("shutdown"@ != "logout"@);
        }
        let t = trim_str(s.as_str());
        if str_eq(t, "shutdown") {
            Ok(Command::Shutdown)
        } else if str_eq(t, "logout") {
            Ok(Command::Logout)
        } else {
            Ok(Command::Say { text: t.to_owned() })
        }
    }

    /// Execute this command against the world store on behalf of the
    /// session `p`: `Logout` ends `p`'s presence, `Say` speaks to `p`'s
    /// room, and `Shutdown` requests a cooperative shutdown. Pure
    /// delegation, no further validation.
    pub fn run(self, state: &mut State, p: &Person)
        requires
            old(state).wf(),
            forall|r: RoomId| old(state).in_room(p.id, r) ==> r == p.loc,
        ensures
            final(state).wf(),
            self is Logout ==> {
                &&& forall|r: RoomId| !final(state).in_room(p.id, r)
                &&& forall|r: RoomId| final(state).has_room(r) == old(state).has_room(r)
                &&& final(state).has_queue(p.id) == old(state).has_queue(p.id)
                &&& old(state).has_queue(p.id) ==> !final(state).queue_open(p.id) && final(
                    state).conn_of(p.id) == old(state).conn_of(p.id)
                &&& old(state).has_queue(p.id) && old(state).conn_of(p.id) is TCP ==> final(
                    state).queue_of(p.id) == old(state).queue_of(p.id).push(Message::Logout)
                &&& old(state).has_queue(p.id) && !(old(state).conn_of(p.id) is TCP) ==> final(
                    state).queue_of(p.id) == old(state).queue_of(p.id)
                &&& old(state).has_room(p.loc) ==> delivered_except(
                    *old(state),
                    *final(state),
                    final(state).room_members(p.loc).to_set(),
                    Message::Depart { id: p.id, name: p.name, loc: p.loc },
                    p.id,
                )
                &&& same_identities(*old(state), *final(state))
            },
            self matches Command::Say { text } ==> {
                &&& !old(state).has_room(p.loc) ==> *final(state) == *old(state)
                &&& old(state).has_room(p.loc) ==> delivered(
                    *old(state),
                    *final(state),
                    old(state).room_members(p.loc).to_set(),
                    Message::Say { speaker: p.id, speaker_name: p.name, loc: p.loc, text },
                )
                &&& same_identities(*old(state), *final(state))
                &&& same_rooms(*old(state), *final(state))
                &&& final(state).spec_shutdown_requested() == old(
                    state).spec_shutdown_requested()
            },
            self is Shutdown ==> {
                &&& final(state).spec_shutdown_requested()
                &&& same_identities(*old(state), *final(state))
                &&& same_rooms(*old(state), *final(state))
                &&& same_queues(*old(state), *final(state))
            },
    {
        match self {
            Command::Logout => state.logout(p),
            Command::Say { text } => {
                let msg = Message::Say {
                    speaker: p.id,
                    speaker_name: p.name.clone(),
                    loc: p.loc,
                    text,
                };
                state.roomcast(p.loc, msg);
            },
            Command::Shutdown => state.shutdown(),
        }
    }

    /// A short name for the command's kind.
    pub fn tag(&self) -> (r: &'static str)
        ensures
            *self is Logout ==> r@ == "logout"@,
            *self is Say ==> r@ == "say"@,
            *self is Shutdown ==> r@ == "shutdown"@,
    {
        match self {
            Command::Logout => "logout",
            Command::Say { .. } => "say",
            Command::Shutdown => "shutdown",
        }
    }
}

} // verus!
