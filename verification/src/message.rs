//! The closed set of event messages fanned out to sessions, and their
//! per-recipient text rendering rule.

use vstd::prelude::*;

verus! {

use crate::person::PersonId;
use crate::room::RoomId;
use vstd::string::StringExecFns;

/// Messages from, e.g., commands.
pub enum Message {
    /// Someone arrived.
    Arrive { id: PersonId, name: String, loc: RoomId },
    /// Someone left.
    Depart { id: PersonId, name: String, loc: RoomId },
    /// Force a logout.
    Logout,
    /// Someone spoke.
    Say { speaker: PersonId, speaker_name: String, loc: RoomId, text: String },
}

impl Clone for Message {
    fn clone(&self) -> (res: Self)
        ensures
            res == *self,
    {
        match self {
            Message::Arrive { id, name, loc } => Message::Arrive {
                id: *id,
                name: name.clone(),
                loc: *loc,
            },
            Message::Depart { id, name, loc } => Message::Depart {
                id: *id,
                name: name.clone(),
                loc: *loc,
            },
            Message::Logout => Message::Logout,
            Message::Say { speaker, speaker_name, loc, text } => Message::Say {
                speaker: *speaker,
                speaker_name: speaker_name.clone(),
                loc: *loc,
                text: text.clone(),
            },
        }
    }
}

/// The text shown to `receiver` for a message. Arrivals and departures are
/// suppressed for the person they are about; an utterance reads
/// differently to its speaker than to everyone else.
pub open spec fn render_spec(m: Message, receiver: PersonId) -> Seq<char> {
    match m {
        Message::Arrive { id, name, .. } => if id == receiver {
            Seq::<char>::empty()
        } else {
            name@ + " arrived."@
        },
        Message::Depart { id, name, .. } => if id == receiver {
            Seq::<char>::empty()
        } else {
            name@ + " left."@
        },
        Message::Logout => "You have logged out."@,
        Message::Say { speaker, speaker_name, text, .. } => if speaker == receiver {
            "You say, '"@ + text@ + "'"@
        } else {
            speaker_name@ + " says, '"@ + text@ + "'"@
        },
    }
}

impl Message {
    /// Render this message as the line of text shown to `receiver`.
    /// Rendering is pure and recipient-parameterized; the speaker's name
    /// is carried in the message, never looked up at render time.
    pub fn render(&self, receiver: PersonId) -> (r: String)
        ensures
            r@ == render_spec(*self, receiver),
    {
        match self {
            Message::Arrive { id, name, .. } => {
                if *id == receiver {
                    String::new()
                } else {
                    let mut r = name.clone();
                    r.append(" arrived.");
                    r
                }
            },
            Message::Depart { id, name, .. } => {
                if *id == receiver {
                    String::new()
                } else {
                    let mut r = name.clone();
                    r.append(" left.");
                    r
                }
            },
            Message::Logout => String::from_str("You have logged out."),
            Message::Say { speaker, speaker_name, text, .. } => {
                if *speaker == receiver {
                    let mut r = String::from_str("You say, '");
                    r.append(text.as_str());
                    r.append("'");
                    r
                } else {
                    let mut r = speaker_name.clone();
                    r.append(" says, '");
                    r.append(text.as_str());
                    r.append("'");
                    r
                }
            },
        }
    }
}

/// Self-suppression: an arrival or departure renders as the empty string
/// for the person it announces; for every other receiver the line is
/// nonempty and begins with that person's name.
pub proof fn lemma_render_self_suppression(m: Message, receiver: PersonId)
    ensures
        m matches Message::Arrive { id, .. } ==> (id == receiver ==> render_spec(m, receiver)
            == Seq::<char>::empty()),
        m matches Message::Depart { id, .. } ==> (id == receiver ==> render_spec(m, receiver)
            == Seq::<char>::empty()),
        m matches Message::Arrive { id, name, .. } ==> (id != receiver ==> render_spec(
            m,
            receiver,
        ).len() > name@.len() && render_spec(m, receiver).subrange(0, name@.len() as int)
            == name@),
        m matches Message::Depart { id, name, .. } ==> (id != receiver ==> render_spec(
            m,
            receiver,
        ).len() > name@.len() && render_spec(m, receiver).subrange(0, name@.len() as int)
            == name@),
{
    reveal_strlit(" arrived.");
    reveal_strlit(" left.");
    match m {
        Message::Arrive { id, name, .. } => {
            if id != receiver {
                assert((name@ + " arrived."@).subrange(0, name@.len() as int) =~= name@);
            }
        },
        Message::Depart { id, name, .. } => {
            if id != receiver {
                assert((name@ + " left."@).subrange(0, name@.len() as int) =~= name@);
            }
        },
        _ => {},
    }
}

/// Rendering an utterance: to its speaker the line starts with
/// `You say, '`; to everyone else it starts with the speaker's name
/// followed by ` says, '`; in both cases it ends with the spoken text and
/// a closing quote.
pub proof fn lemma_render_say(m: Message, receiver: PersonId)
    ensures
        m matches Message::Say { speaker, text, .. } ==> (speaker == receiver ==> {
            let r = render_spec(m, receiver);
            &&& r.len() == "You say, '"@.len() + text@.len() + 1
            &&& r.subrange(0, "You say, '"@.len() as int) == "You say, '"@
            &&& r.subrange(r.len() - text@.len() - 1, r.len() as int) == text@ + "'"@
        }),
        m matches Message::Say { speaker, speaker_name, text, .. } ==> (speaker != receiver ==> {
            let r = render_spec(m, receiver);
            &&& r.len() == speaker_name@.len() + " says, '"@.len() + text@.len() + 1
            &&& r.subrange(0, speaker_name@.len() as int) == speaker_name@
            &&& r.subrange(
                speaker_name@.len() as int,
                (speaker_name@.len() + " says, '"@.len()) as int,
            ) == " says, '"@
            &&& r.subrange(r.len() - text@.len() - 1, r.len() as int) == text@ + "'"@
        }),
{
    reveal_strlit("You say, '");
    reveal_strlit(" says, '");
    reveal_strlit("'");
    match m {
        Message::Say { speaker, speaker_name, text, .. } => {
            if speaker == receiver {
                let r = render_spec(m, receiver);
                assert(r.subrange(0, "You say, '"@.len() as int) =~= "You say, '"@);
                assert(r.subrange(r.len() - text@.len() - 1, r.len() as int) =~= text@ + "'"@);
            } else {
                let r = render_spec(m, receiver);
                assert(r.subrange(0, speaker_name@.len() as int) =~= speaker_name@);
                assert(r.subrange(
                    speaker_name@.len() as int,
                    (speaker_name@.len() + " says, '"@.len()) as int,
                ) =~= " says, '"@);
                assert(r.subrange(r.len() - text@.len() - 1, r.len() as int) =~= text@ + "'"@);
            }
        },
        _ => {},
    }
}

} // verus!
