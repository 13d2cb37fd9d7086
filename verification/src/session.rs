//! The per-connection session protocol: the login/registration handshake
//! as an explicit state machine, and the entry into and exit from the
//! steady-state message loop.
//!
//! The transport layer owns the socket and the task; it feeds each input
//! line (or the fact of a disconnect) into `login_step`, writes the
//! returned output lines back to the wire, and carries the returned state
//! to the next call. All decisions are made here, against the world
//! store, in one critical section per step.

use vstd::prelude::*;

verus! {

use crate::connection::Connection;
use crate::crypto::argon2_verifies;
use crate::message::Message;
use crate::person::{Person, PersonId, PersonRecord};
use crate::room::{RoomId, INITIAL_LOC};
use crate::state::{delivered_except, queues_same_except, same_identities, RegisterError, State};
use crate::text::{contains_char, trim_str, trimmed};
use vstd::string::{StrSliceExecFns, StringExecFns};

/// How many failed password attempts end the connection.
pub const MAX_PASSWORD_TRIES: u64 = 3;

/// An identifier line is acceptable when, after trimming, it is nonempty
/// and contains an `@` — a proxy for "looks like an email address or
/// Twitter handle".
pub open spec fn identifier_valid(s: Seq<char>) -> bool {
    s.len() > 0 && s.contains('@')
}

/// A fresh password must have at least 8 characters; the upper bound only
/// keeps the hash's input comfortably inside the machine limits of the
/// hashing primitive.
pub open spec fn new_password_valid(s: Seq<char>) -> bool {
    8 <= s.len() <= 0x1000000
}

/// Where a connection stands in the login/registration handshake.
pub enum LoginState {
    /// Waiting for an identifier line.
    AwaitingIdentifier,
    /// A known user: waiting for their password. `hash` is the stored
    /// encoded password hash, `tries` the failed attempts so far.
    AwaitingPassword { name: String, hash: String, tries: u64 },
    /// An unknown user: waiting for them to pick a password.
    AwaitingNewPassword { name: String },
    /// Waiting for the chosen password to be typed once more.
    AwaitingPasswordConfirm { name: String, password: String },
}

/// What the transport saw: one line of input, or the end of the stream.
pub enum LoginEvent {
    /// A line arrived from the peer.
    Line(String),
    /// The transport dropped, or a read failed.
    Disconnected,
}

/// Why a login attempt ended without a session.
pub enum AbortReason {
    /// The transport dropped or a read failed.
    ConnectionReset,
    /// Three password attempts failed.
    TooManyPasswordAttempts,
    /// The store could not register the new identity.
    RegistrationFailed,
}

/// What one step of the handshake decided.
pub enum LoginOutcome {
    /// Stay in the handshake: send `output`, then wait in `state`.
    Next { state: LoginState, output: Vec<String> },
    /// End the connection: send `output`, then close.
    Aborted { reason: AbortReason, output: Vec<String> },
    /// The handshake succeeded: send `output`, then enter the steady
    /// loop as `person`.
    LoggedIn { person: Person, output: Vec<String> },
}

/// The handshake states carry only values the steps can rely on: a try
/// counter below the cap, and a password that was already validated.
pub open spec fn login_state_wf(st: LoginState) -> bool {
    match st {
        LoginState::AwaitingPassword { tries, .. } => tries < MAX_PASSWORD_TRIES,
        LoginState::AwaitingPasswordConfirm { password, .. } => new_password_valid(password@),
        _ => true,
    }
}

/// The server's opening prompt, sent once before the first input line.
pub fn login_greeting() -> (r: Vec<String>)
    ensures
        r@.len() == 1,
        r@[0]@ == "What is your email address or Twitter handle? "@,
{
    let mut out: Vec<String> = Vec::new();
    out.push(String::from_str("What is your email address or Twitter handle? "));
    out
}

/// Begin the live session for the identity `rec` on `conn`: construct the
/// `Person`, register the connection with a fresh open queue, and arrive
/// in the record's room. The queue ends up holding exactly the arrival
/// announcement (which the renderer suppresses for the person himself),
/// and everyone already in the room is told of the arrival.
pub fn begin_session(world: &mut State, rec: &PersonRecord, conn: Connection) -> (person: Person)
    requires
        old(world).wf(),
        rec.id < old(world).spec_next_id(),
        old(world).people_seq()[rec.id as int] == *rec,
    ensures
        final(world).wf(),
        person.id == rec.id,
        person.name == rec.name,
        person.loc == rec.loc,
        person.conn == conn,
        forall|r: RoomId| final(world).in_room(person.id, r) <==> r == person.loc,
        final(world).has_queue(person.id),
        final(world).queue_open(person.id),
        final(world).conn_of(person.id) == conn,
        final(world).queue_of(person.id) == Seq::<Message>::empty().push(
            Message::Arrive { id: rec.id, name: rec.name, loc: rec.loc },
        ),
        delivered_except(
            *old(world),
            *final(world),
            final(world).room_members(rec.loc).to_set(),
            Message::Arrive { id: rec.id, name: rec.name, loc: rec.loc },
            rec.id,
        ),
        same_identities(*old(world), *final(world)),
        forall|r: RoomId| final(world).has_room(r) == old(world).has_room(r),
        forall|r: RoomId, x: PersonId|
            #![auto]
            old(world).has_room(r) && x != rec.id ==> final(world).room_members(r).contains(x)
                == old(world).room_members(r).contains(x),
        final(world).spec_shutdown_requested() == old(world).spec_shutdown_requested(),
{
    proof {
        assert forall|r: RoomId| old(world).in_room(rec.id, r) implies r == rec.loc by {
            crate::state::lemma_membership_consistent(*old(world), rec.id, r, r);
        }
        crate::state::lemma_store_shape(*old(world));
        assert((rec.id as int) < old(world).people_seq().len());
        assert(old(world).has_room(rec.loc)) by {
            assert(old(world).people_seq()[rec.id as int].loc == rec.loc);
        }
    }
    let c = conn.clone();
    let mut person = Person::new(rec, conn);
    world.register_connection(person.id, c);
    proof {
        assert forall|r: RoomId| world.in_room(person.id, r) implies r == person.loc by {
            assert(world.has_room(r) == old(world).has_room(r));
            if world.has_room(r) {
                assert(world.room_members(r) == old(world).room_members(r));
                assert(old(world).in_room(rec.id, r));
            }
        }
    }
    let loc = person.loc;
    let ghost mid = *world;
    world.arrive(&mut person, loc);
    proof {
        assert(world.people_seq() =~= old(world).people_seq());
        assert(world.in_room(person.id, person.loc));
        assert(world.room_members(rec.loc).to_set().contains(rec.id));
        assert(mid.queue_of(rec.id) == Seq::<Message>::empty());
        assert(mid.queue_open(rec.id));
        assert(world.queue_of(rec.id) == Seq::<Message>::empty().push(
            Message::Arrive { id: rec.id, name: rec.name, loc: rec.loc },
        ));
    }
    person
}

/// Drive the login/registration handshake by one event: an input line,
/// or the loss of the transport. The returned outcome carries the lines
/// to write back and either the next handshake state, the reason the
/// connection is to be closed, or the live session that was set up.
///
/// Inputs are trimmed. An invalid identifier or an invalid fresh password
/// reprompts indefinitely; a wrong password for a known user is allowed
/// `MAX_PASSWORD_TRIES` attempts in all; a confirmation mismatch loops
/// back to choosing a password. A name that lost the registration race is
/// reported taken and the handshake restarts at the identifier prompt.
pub fn login_step(
    world: &mut State,
    st: LoginState,
    conn: Connection,
    ev: LoginEvent,
) -> (r: LoginOutcome)
    requires
        old(world).wf(),
        login_state_wf(st),
    ensures
        final(world).wf(),
        r matches LoginOutcome::Next { state, .. } ==> login_state_wf(state),
        ev is Disconnected ==> (r matches LoginOutcome::Aborted { reason, output }
            && reason is ConnectionReset && output@.len() == 0 && *final(world) == *old(world)),
        ev matches LoginEvent::Line(l) ==> ({
            let t = trimmed(l@);
            &&& st is AwaitingIdentifier ==> {
                &&& !identifier_valid(t) ==> (r matches LoginOutcome::Next { state, output }
                    && state is AwaitingIdentifier && output@.len() == 2 && output@[0]@
                    == "Please enter a valid email address or Twitter handle."@ && output@[1]@
                    == "What is your email address or Twitter handle? "@ && *final(world) == *old(
                    world,
                ))
                &&& identifier_valid(t) && old(world).has_name(t) ==> (r matches
                    LoginOutcome::Next { state, output } && (state matches
                    LoginState::AwaitingPassword { name, hash, tries } && name@ == t && tries == 0
                    && (exists|i: int|
                    #![auto]
                    0 <= i < old(world).people_seq().len() && old(world).people_seq()[i].name@ == t
                        && hash@ == old(world).people_seq()[i].password@)) && output@.len() == 1
                    && output@[0]@ == "Password: "@ && *final(world) == *old(world))
                &&& identifier_valid(t) && !old(world).has_name(t) ==> (r matches
                    LoginOutcome::Next { state, output } && (state matches
                    LoginState::AwaitingNewPassword { name } && name@ == t) && output@.len() == 2
                    && output@[0]@ == "You must be new here!"@ && output@[1]@
                    == "Please enter a password: "@ && *final(world) == *old(world))
            }
            &&& st matches LoginState::AwaitingPassword { name, hash, tries } ==> ({
                &&& argon2_verifies(hash@, t) && old(world).has_name(name@) ==> (r matches
                    LoginOutcome::LoggedIn { person, output } && {
                    &&& person.id < old(world).spec_next_id()
                    &&& old(world).people_seq()[person.id as int].name@ == name@
                    &&& person.name@ == name@
                    &&& person.loc == old(world).people_seq()[person.id as int].loc
                    &&& person.conn == conn
                    &&& forall|rm: RoomId| final(world).in_room(person.id, rm) <==> rm == person.loc
                    &&& final(world).has_queue(person.id) && final(world).queue_open(person.id)
                    &&& final(world).queue_of(person.id).len() == 1
                    &&& final(world).queue_of(person.id)[0] == Message::Arrive {
                        id: person.id,
                        name: final(world).people_seq()[person.id as int].name,
                        loc: person.loc,
                    }
                    &&& same_identities(*old(world), *final(world))
                    &&& output@.len() == 1 && output@[0]@ == "Logged in as "@ + name@ + "..."@
                })
                &&& argon2_verifies(hash@, t) && !old(world).has_name(name@) ==> (r matches
                    LoginOutcome::Next { state, output } && state is AwaitingIdentifier
                    && output@.len() == 2 && output@[0]@
                    == "Please enter a valid email address or Twitter handle."@ && output@[1]@
                    == "What is your email address or Twitter handle? "@ && *final(world) == *old(
                    world,
                ))
                &&& !argon2_verifies(hash@, t) && tries + 1 < MAX_PASSWORD_TRIES ==> (r matches
                    LoginOutcome::Next { state, output } && (state matches
                    LoginState::AwaitingPassword { name: n2, hash: h2, tries: t2 } && n2 == name
                    && h2 == hash && t2 == tries + 1) && output@.len() == 2 && output@[0]@
                    == "Password incorrect."@ && output@[1]@ == "Password: "@ && *final(world)
                    == *old(world))
                &&& !argon2_verifies(hash@, t) && tries + 1 >= MAX_PASSWORD_TRIES ==> (r matches
                    LoginOutcome::Aborted { reason, output } && reason is TooManyPasswordAttempts
                    && output@.len() == 1 && output@[0]@ == "Too many password attempts."@
                    && *final(world) == *old(world))
            })
            &&& st matches LoginState::AwaitingNewPassword { name } ==> ({
                &&& new_password_valid(t) ==> (r matches LoginOutcome::Next { state, output } && (
                state matches LoginState::AwaitingPasswordConfirm { name: n2, password } && n2
                    == name && password@ == t) && output@.len() == 1 && output@[0]@
                    == "Please re-enter your password: "@ && *final(world) == *old(world))
                &&& !new_password_valid(t) ==> (r matches LoginOutcome::Next { state, output } && (
                state matches LoginState::AwaitingNewPassword { name: n2 } && n2 == name)
                    && output@.len() == 2 && output@[0]@
                    == "That is not a valid password. It should be at least 8 characters."@
                    && output@[1]@ == "Please enter a password: "@ && *final(world) == *old(world))
            })
            &&& st matches LoginState::AwaitingPasswordConfirm { name, password } ==> ({
                &&& t != password@ ==> (r matches LoginOutcome::Next { state, output } && (
                state matches LoginState::AwaitingNewPassword { name: n2 } && n2 == name)
                    && output@.len() == 3 && output@[0]@ == "Passwords don't match."@
                    && output@[1]@ == "You must be new here!"@ && output@[2]@
                    == "Please enter a password: "@ && *final(world) == *old(world))
                &&& t == password@ && old(world).has_name(name@) ==> (r matches LoginOutcome::Next {
                    state,
                    output,
                } && state is AwaitingIdentifier && output@.len() == 2 && output@[0]@
                    == "That name is already taken."@ && output@[1]@
                    == "What is your email address or Twitter handle? "@ && *final(world) == *old(
                    world,
                ))
                &&& t == password@ && !old(world).has_name(name@) && old(world).spec_next_id()
                    < PersonId::MAX ==> (r matches LoginOutcome::LoggedIn { person, output } && {
                    &&& person.id == old(world).spec_next_id()
                    &&& person.name@ == name@
                    &&& person.loc == INITIAL_LOC
                    &&& person.conn == conn
                    &&& final(world).people_seq().len() == old(world).people_seq().len() + 1
                    &&& final(world).has_name(name@)
                    &&& argon2_verifies(
                        final(world).people_seq()[person.id as int].password@,
                        password@,
                    )
                    &&& forall|rm: RoomId| final(world).in_room(person.id, rm) <==> rm
                        == INITIAL_LOC
                    &&& final(world).has_queue(person.id) && final(world).queue_open(person.id)
                    &&& final(world).queue_of(person.id).len() == 1
                    &&& final(world).queue_of(person.id)[0] == Message::Arrive {
                        id: person.id,
                        name: final(world).people_seq()[person.id as int].name,
                        loc: INITIAL_LOC,
                    }
                    &&& output@.len() == 1 && output@[0]@ == "Logged in as "@ + name@ + "..."@
                })
                &&& t == password@ && !old(world).has_name(name@) && old(world).spec_next_id()
                    == PersonId::MAX ==> (r matches LoginOutcome::Aborted { reason, output }
                    && reason is RegistrationFailed && output@.len() == 1 && output@[0]@
                    == "Registration is unavailable."@ && *final(world) == *old(world))
            })
        }),
{
    let line = match ev {
        LoginEvent::Disconnected => {
            return LoginOutcome::Aborted {
                reason: AbortReason::ConnectionReset,
                output: Vec::new(),
            };
        },
        LoginEvent::Line(l) => l,
    };
    let t = trim_str(line.as_str());
    match st {
        LoginState::AwaitingIdentifier => {
            if !t.is_empty() && contains_char(t, '@') {
                let found = world.person_by_name(t);
                match found {
                    Some(rec) => {
                        proof {
                            crate::state::lemma_store_shape(*old(world));
                            assert((rec.id as int) < old(world).people_seq().len());
                            assert(old(world).people_seq()[rec.id as int].name@ == t@);
                            assert(old(world).people_seq()[rec.id as int].password@
                                == rec.password@);
                        }
                        let mut out: Vec<String> = Vec::new();
                        out.push(String::from_str("Password: "));
                        LoginOutcome::Next {
                            state: LoginState::AwaitingPassword {
                                name: t.to_owned(),
                                hash: rec.password,
                                tries: 0,
                            },
                            output: out,
                        }
                    },
                    None => {
                        let mut out: Vec<String> = Vec::new();
                        out.push(String::from_str("You must be new here!"));
                        out.push(String::from_str("Please enter a password: "));
                        LoginOutcome::Next {
                            state: LoginState::AwaitingNewPassword { name: t.to_owned() },
                            output: out,
                        }
                    },
                }
            } else {
                let mut out: Vec<String> = Vec::new();
                out.push(
                    String::from_str("Please enter a valid email address or Twitter handle."),
                );
                out.push(String::from_str("What is your email address or Twitter handle? "));
                LoginOutcome::Next { state: LoginState::AwaitingIdentifier, output: out }
            }
        },
        LoginState::AwaitingPassword { name, hash, tries } => {
            if crate::crypto::argon2_verify(hash.as_str(), t) {
                let found = world.person_by_name(name.as_str());
                match found {
                    Some(rec) => {
                        let person = begin_session(world, &rec, conn);
                        proof {
                            assert(world.people_seq() == old(world).people_seq());
                            assert(world.queue_of(person.id).len() == 1);
                            assert(world.queue_of(person.id)[0] == Message::Arrive {
                                id: rec.id,
                                name: rec.name,
                                loc: rec.loc,
                            });
                        }
                        let mut msg = String::from_str("Logged in as ");
                        msg.append(name.as_str());
                        msg.append("...");
                        let mut out: Vec<String> = Vec::new();
                        out.push(msg);
                        LoginOutcome::LoggedIn { person, output: out }
                    },
                    None => {
                        let mut out: Vec<String> = Vec::new();
                        out.push(
                            String::from_str(
                                "Please enter a valid email address or Twitter handle.",
                            ),
                        );
                        out.push(
                            String::from_str("What is your email address or Twitter handle? "),
                        );
                        LoginOutcome::Next { state: LoginState::AwaitingIdentifier, output: out }
                    },
                }
            } else {
                if tries >= MAX_PASSWORD_TRIES - 1 {
                    let mut out: Vec<String> = Vec::new();
                    out.push(String::from_str("Too many password attempts."));
                    LoginOutcome::Aborted {
                        reason: AbortReason::TooManyPasswordAttempts,
                        output: out,
                    }
                } else {
                    let mut out: Vec<String> = Vec::new();
                    out.push(String::from_str("Password incorrect."));
                    out.push(String::from_str("Password: "));
                    LoginOutcome::Next {
                        state: LoginState::AwaitingPassword { name, hash, tries: tries + 1 },
                        output: out,
                    }
                }
            }
        },
        LoginState::AwaitingNewPassword { name } => {
            let len = t.unicode_len();
            if 8 <= len && len <= 0x1000000 {
                let mut out: Vec<String> = Vec::new();
                out.push(String::from_str("Please re-enter your password: "));
                LoginOutcome::Next {
                    state: LoginState::AwaitingPasswordConfirm { name, password: t.to_owned() },
                    output: out,
                }
            } else {
                let mut out: Vec<String> = Vec::new();
                out.push(
                    String::from_str(
                        "That is not a valid password. It should be at least 8 characters.",
                    ),
                );
                out.push(String::from_str("Please enter a password: "));
                LoginOutcome::Next { state: LoginState::AwaitingNewPassword { name }, output: out }
            }
        },
        LoginState::AwaitingPasswordConfirm { name, password } => {
            if crate::text::str_eq(t, password.as_str()) {
                proof {
                    assert(new_password_valid(password@));
                }
                let made = world.new_person(name.as_str(), password.as_str());
                let ghost mid = *world;
                match made {
                    Ok(rec) => {
                        proof {
                            crate::state::lemma_store_shape(*old(world));
                            assert(mid.people_seq() == old(world).people_seq().push(rec));
                            assert(rec.id as int == old(world).people_seq().len());
                            assert(mid.people_seq()[rec.id as int] == rec);
                        }
                        let person = begin_session(world, &rec, conn);
                        proof {
                            crate::state::lemma_same_people_same_names(mid, *world);
                            assert(world.people_seq()[person.id as int] == rec);
                            assert(world.queue_of(person.id).len() == 1);
                            assert(world.queue_of(person.id)[0] == Message::Arrive {
                                id: rec.id,
                                name: rec.name,
                                loc: rec.loc,
                            });
                        }
                        let mut msg = String::from_str("Logged in as ");
                        msg.append(name.as_str());
                        msg.append("...");
                        let mut out: Vec<String> = Vec::new();
                        out.push(msg);
                        LoginOutcome::LoggedIn { person, output: out }
                    },
                    Err(RegisterError::NameTaken) => {
                        let mut out: Vec<String> = Vec::new();
                        out.push(String::from_str("That name is already taken."));
                        out.push(
                            String::from_str("What is your email address or Twitter handle? "),
                        );
                        LoginOutcome::Next { state: LoginState::AwaitingIdentifier, output: out }
                    },
                    Err(RegisterError::IdSpaceExhausted) => {
                        let mut out: Vec<String> = Vec::new();
                        out.push(String::from_str("Registration is unavailable."));
                        LoginOutcome::Aborted {
                            reason: AbortReason::RegistrationFailed,
                            output: out,
                        }
                    },
                }
            } else {
                let mut out: Vec<String> = Vec::new();
                out.push(String::from_str("Passwords don't match."));
                out.push(String::from_str("You must be new here!"));
                out.push(String::from_str("Please enter a password: "));
                LoginOutcome::Next { state: LoginState::AwaitingNewPassword { name }, output: out }
            }
        },
    }
}

/// Unregister `p`'s connection and announce the departure: the cleanup a
/// session performs when its transport disconnects without a logout.
pub fn end_session(world: &mut State, p: &Person)
    requires
        old(world).wf(),
        forall|r: RoomId| old(world).in_room(p.id, r) ==> r == p.loc,
    ensures
        final(world).wf(),
        !final(world).has_queue(p.id),
        forall|r: RoomId| !final(world).in_room(p.id, r),
        old(world).has_room(p.loc) ==> delivered_except(
            *old(world),
            *final(world),
            final(world).room_members(p.loc).to_set(),
            Message::Depart { id: p.id, name: p.name, loc: p.loc },
            p.id,
        ),
        !old(world).has_room(p.loc) ==> queues_same_except(*old(world), *final(world), p.id),
        same_identities(*old(world), *final(world)),
        final(world).spec_shutdown_requested() == old(world).spec_shutdown_requested(),
{
    world.unregister_connection(p.id);
    proof {
        assert forall|r: RoomId| world.in_room(p.id, r) implies r == p.loc by {
            assert(world.has_room(r) == old(world).has_room(r));
            if world.has_room(r) {
                assert(world.room_members(r) == old(world).room_members(r));
                assert(old(world).in_room(p.id, r));
            }
        }
    }
    world.depart(p);
}

} // verus!
