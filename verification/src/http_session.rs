//! Session-cookie and CSRF-token bookkeeping for the stateless HTTP
//! transport: which session token belongs to which identity, and the
//! CSRF token most recently issued to each session. Tokens are sixteen
//! random bytes rendered as base64 text. The HTTP routes themselves live
//! with the transport, outside the library.

use vstd::prelude::*;

verus! {

use crate::crypto::{base64_encode, random_bytes};
use crate::person::PersonId;
use crate::text::str_eq;

/// Identifies an HTTP session: the value stored in the session cookie.
pub type SessionId = String;

/// A token a page must echo back on a POST, bound to one session.
pub type CSRFToken = String;

/// The number of random bytes behind each generated token.
pub const TOKEN_BYTES: usize = 16;

struct SessionEntry {
    session: String,
    person: PersonId,
}

struct TokenEntry {
    session: String,
    token: String,
}

spec fn skeys_distinct(es: Seq<SessionEntry>) -> bool {
    forall|i: int, j: int| 0 <= i < j < es.len() ==> es[i].session@ != es[j].session@
}

spec fn tkeys_distinct(es: Seq<TokenEntry>) -> bool {
    forall|i: int, j: int| 0 <= i < j < es.len() ==> es[i].session@ != es[j].session@
}

spec fn shas(es: Seq<SessionEntry>, s: Seq<char>) -> bool {
    exists|i: int| 0 <= i < es.len() && es[i].session@ == s
}

spec fn sidx(es: Seq<SessionEntry>, s: Seq<char>) -> int {
    choose|i: int| 0 <= i < es.len() && es[i].session@ == s
}

spec fn thas(es: Seq<TokenEntry>, s: Seq<char>) -> bool {
    exists|i: int| 0 <= i < es.len() && es[i].session@ == s
}

spec fn tidx(es: Seq<TokenEntry>, s: Seq<char>) -> int {
    choose|i: int| 0 <= i < es.len() && es[i].session@ == s
}

/// Bookkeeping for HTTP sessions and their CSRF tokens.
pub struct HTTPState {
    sessions: Vec<SessionEntry>,
    tokens: Vec<TokenEntry>,
}

impl HTTPState {
    /// Whether `session` is a live session token.
    pub closed spec fn has_session(self, session: Seq<char>) -> bool {
        shas(self.sessions@, session)
    }

    /// The identity behind `session` (meaningful when it exists).
    pub closed spec fn person_of(self, session: Seq<char>) -> PersonId {
        self.sessions@[sidx(self.sessions@, session)].person
    }

    /// Whether `session` currently has a CSRF token issued.
    pub closed spec fn has_token(self, session: Seq<char>) -> bool {
        thas(self.tokens@, session)
    }

    /// The CSRF token of `session` (meaningful when one was issued).
    pub closed spec fn token_of(self, session: Seq<char>) -> Seq<char> {
        self.tokens@[tidx(self.tokens@, session)].token@
    }

    /// Each session token maps to at most one identity and at most one
    /// CSRF token.
    pub closed spec fn wf(self) -> bool {
        skeys_distinct(self.sessions@) && tkeys_distinct(self.tokens@)
    }

    /// A fresh bookkeeping table with no sessions.
    pub fn new() -> (r: Self)
        ensures
            r.wf(),
            forall|s: Seq<char>| !r.has_session(s),
            forall|s: Seq<char>| !r.has_token(s),
    {
        HTTPState { sessions: Vec::new(), tokens: Vec::new() }
    }

    /// Sixteen random bytes as base64 text. Random, so nothing is claimed
    /// of the value beyond its length.
    fn gen_token(&mut self) -> (r: String)
        ensures
            r@.len() == 24,
            *final(self) == *old(self),
    {
        let buf = random_bytes(TOKEN_BYTES);
        base64_encode(buf.as_slice())
    }

    /// Generate a fresh session token and record that it belongs to
    /// `id`. A colliding token (vanishingly unlikely) replaces the old
    /// binding.
    pub fn gen_session_id_for(&mut self, id: PersonId) -> (r: SessionId)
        requires
            old(self).wf(),
        ensures
            final(self).wf(),
            r@.len() == 24,
            final(self).has_session(r@),
            final(self).person_of(r@) == id,
            forall|s: Seq<char>|
                #![auto]
                s != r@ ==> final(self).has_session(s) == old(self).has_session(s) && (old(
                    self).has_session(s) ==> final(self).person_of(s) == old(self).person_of(s)),
            forall|s: Seq<char>|
                #![auto]
                final(self).has_token(s) == old(self).has_token(s) && (old(self).has_token(s)
                    ==> final(self).token_of(s) == old(self).token_of(s)),
    {
        let session = self.gen_token();
        let n = self.sessions.len();
        let mut i: usize = 0;
        while i < n
            invariant
                i <= n,
                n == self.sessions@.len(),
                old(self).wf(),
                *self == *old(self),
                session@.len() == 24,
                forall|k: int| 0 <= k < i ==> (#[trigger] self.sessions@[k]).session@ != session@,
            decreases n - i,
        {
            if str_eq(self.sessions[i].session.as_str(), session.as_str()) {
                proof {
                    assert(self.sessions@[i as int].session@ == session@);
                    lemma_sidx(self.sessions@, session@);
                }
                self.sessions[i] = SessionEntry { session: session.clone(), person: id };
                proof {
                    lemma_sessions_same_keys(old(self).sessions@, self.sessions@);
                    lemma_sidx(self.sessions@, session@);
                }
                return session;
            }
            i = i + 1;
        }
        let ghost pre = self.sessions@;
        self.sessions.push(SessionEntry { session: session.clone(), person: id });
        proof {
            assert(self.sessions@[pre.len() as int].session@ == session@);
            assert forall|s: Seq<char>| s != session@ implies shas(self.sessions@, s) == shas(
                pre,
                s,
            ) by {
                if shas(pre, s) {
                    let w = sidx(pre, s);
                    assert(self.sessions@[w].session@ == s);
                }
                if shas(self.sessions@, s) {
                    let w = sidx(self.sessions@, s);
                    assert(0 <= w < pre.len());
                    assert(pre[w].session@ == s);
                }
            }
            assert(skeys_distinct(self.sessions@));
            lemma_sidx(self.sessions@, session@);
            assert forall|s: Seq<char>| s != session@ && shas(pre, s) implies self.person_of(s)
                == old(self).person_of(s) by {
                lemma_sidx(pre, s);
                lemma_sidx(self.sessions@, s);
            }
        }
        session
    }

    /// Generate a fresh CSRF token for `session` and record it,
    /// replacing any token the session had before.
    pub fn gen_csrf_token_for(&mut self, session: SessionId) -> (r: CSRFToken)
        requires
            old(self).wf(),
        ensures
            final(self).wf(),
            r@.len() == 24,
            final(self).has_token(session@),
            final(self).token_of(session@) == r@,
            forall|s: Seq<char>|
                #![auto]
                s != session@ ==> final(self).has_token(s) == old(self).has_token(s) && (old(
                    self).has_token(s) ==> final(self).token_of(s) == old(self).token_of(s)),
            forall|s: Seq<char>|
                #![auto]
                final(self).has_session(s) == old(self).has_session(s) && (old(self).has_session(
                    s,
                ) ==> final(self).person_of(s) == old(self).person_of(s)),
    {
        let token = self.gen_token();
        let n = self.tokens.len();
        let mut i: usize = 0;
        while i < n
            invariant
                i <= n,
                n == self.tokens@.len(),
                old(self).wf(),
                *self == *old(self),
                token@.len() == 24,
                forall|k: int| 0 <= k < i ==> (#[trigger] self.tokens@[k]).session@ != session@,
            decreases n - i,
        {
            if str_eq(self.tokens[i].session.as_str(), session.as_str()) {
                proof {
                    assert(self.tokens@[i as int].session@ == session@);
                    lemma_tidx(self.tokens@, session@);
                }
                self.tokens[i] = TokenEntry { session: session.clone(), token: token.clone() };
                proof {
                    lemma_tokens_same_keys(old(self).tokens@, self.tokens@);
                    lemma_tidx(self.tokens@, session@);
                }
                return token;
            }
            i = i + 1;
        }
        let ghost pre = self.tokens@;
        self.tokens.push(TokenEntry { session: session.clone(), token: token.clone() });
        proof {
            assert(self.tokens@[pre.len() as int].session@ == session@);
            assert forall|s: Seq<char>| s != session@ implies thas(self.tokens@, s) == thas(
                pre,
                s,
            ) by {
                if thas(pre, s) {
                    let w = tidx(pre, s);
                    assert(self.tokens@[w].session@ == s);
                }
                if thas(self.tokens@, s) {
                    let w = tidx(self.tokens@, s);
                    assert(0 <= w < pre.len());
                    assert(pre[w].session@ == s);
                }
            }
            assert(tkeys_distinct(self.tokens@));
            lemma_tidx(self.tokens@, session@);
            assert forall|s: Seq<char>| s != session@ && thas(pre, s) implies self.token_of(s)
                == old(self).token_of(s) by {
                lemma_tidx(pre, s);
                lemma_tidx(self.tokens@, s);
            }
        }
        token
    }

    /// The identity behind a session cookie, if the session is live.
    pub fn person_for_session(&self, session: &str) -> (r: Option<PersonId>)
        requires
            self.wf(),
        ensures
            r is Some <==> self.has_session(session@),
            r matches Some(id) ==> id == self.person_of(session@),
    {
        let n = self.sessions.len();
        let mut i: usize = 0;
        while i < n
            invariant
                self.wf(),
                i <= n,
                n == self.sessions@.len(),
                forall|k: int| 0 <= k < i ==> (#[trigger] self.sessions@[k]).session@ != session@,
            decreases n - i,
        {
            if str_eq(self.sessions[i].session.as_str(), session) {
                proof {
                    assert(self.sessions@[i as int].session@ == session@);
                    lemma_sidx(self.sessions@, session@);
                }
                return Some(self.sessions[i].person);
            }
            i = i + 1;
        }
        None
    }

    /// The CSRF token issued to a session, if any.
    pub fn token_for_session(&self, session: &str) -> (r: Option<String>)
        requires
            self.wf(),
        ensures
            r is Some <==> self.has_token(session@),
            r matches Some(tok) ==> tok@ == self.token_of(session@),
    {
        let n = self.tokens.len();
        let mut i: usize = 0;
        while i < n
            invariant
                self.wf(),
                i <= n,
                n == self.tokens@.len(),
                forall|k: int| 0 <= k < i ==> (#[trigger] self.tokens@[k]).session@ != session@,
            decreases n - i,
        {
            if str_eq(self.tokens[i].session.as_str(), session) {
                proof {
                    assert(self.tokens@[i as int].session@ == session@);
                    lemma_tidx(self.tokens@, session@);
                }
                return Some(self.tokens[i].token.clone());
            }
            i = i + 1;
        }
        None
    }
}

proof fn lemma_sidx(es: Seq<SessionEntry>, s: Seq<char>)
    requires
        skeys_distinct(es),
        shas(es, s),
    ensures
        0 <= sidx(es, s) < es.len(),
        es[sidx(es, s)].session@ == s,
        forall|i: int| 0 <= i < es.len() && es[i].session@ == s ==> i == sidx(es, s),
{
}

proof fn lemma_tidx(es: Seq<TokenEntry>, s: Seq<char>)
    requires
        tkeys_distinct(es),
        thas(es, s),
    ensures
        0 <= tidx(es, s) < es.len(),
        es[tidx(es, s)].session@ == s,
        forall|i: int| 0 <= i < es.len() && es[i].session@ == s ==> i == tidx(es, s),
{
}

proof fn lemma_sessions_same_keys(pre: Seq<SessionEntry>, post: Seq<SessionEntry>)
    requires
        skeys_distinct(pre),
        post.len() == pre.len(),
        forall|i: int| 0 <= i < pre.len() ==> (#[trigger] post[i]).session@ == pre[i].session@,
    ensures
        skeys_distinct(post),
        forall|s: Seq<char>| shas(post, s) == shas(pre, s),
        forall|s: Seq<char>| #[trigger] shas(pre, s) ==> sidx(post, s) == sidx(pre, s),
{
    assert forall|s: Seq<char>| shas(post, s) == shas(pre, s) by {
        if shas(pre, s) {
            let w = sidx(pre, s);
            assert(post[w].session@ == s);
        }
        if shas(post, s) {
            let w = choose|i: int| 0 <= i < post.len() && post[i].session@ == s;
            assert(pre[w].session@ == s);
        }
    }
    assert forall|s: Seq<char>| #[trigger] shas(pre, s) implies sidx(post, s) == sidx(pre, s) by {
        lemma_sidx(pre, s);
        let a = sidx(pre, s);
        assert(post[a].session@ == s);
        let b = sidx(post, s);
        assert(0 <= b < post.len() && post[b].session@ == s);
        assert(pre[b].session@ == s);
    }
}

proof fn lemma_tokens_same_keys(pre: Seq<TokenEntry>, post: Seq<TokenEntry>)
    requires
        tkeys_distinct(pre),
        post.len() == pre.len(),
        forall|i: int| 0 <= i < pre.len() ==> (#[trigger] post[i]).session@ == pre[i].session@,
    ensures
        tkeys_distinct(post),
        forall|s: Seq<char>| thas(post, s) == thas(pre, s),
        forall|s: Seq<char>| #[trigger] thas(pre, s) ==> tidx(post, s) == tidx(pre, s),
{
    assert forall|s: Seq<char>| thas(post, s) == thas(pre, s) by {
        if thas(pre, s) {
            let w = tidx(pre, s);
            assert(post[w].session@ == s);
        }
        if thas(post, s) {
            let w = choose|i: int| 0 <= i < post.len() && post[i].session@ == s;
            assert(pre[w].session@ == s);
        }
    }
    assert forall|s: Seq<char>| #[trigger] thas(pre, s) implies tidx(post, s) == tidx(pre, s) by {
        lemma_tidx(pre, s);
        let a = tidx(pre, s);
        assert(post[a].session@ == s);
        let b = tidx(post, s);
        assert(0 <= b < post.len() && post[b].session@ == s);
        assert(pre[b].session@ == s);
    }
}

} // verus!
