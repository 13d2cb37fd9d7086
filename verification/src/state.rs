//! The global shared world store: identities and credentials, room
//! membership, and the connection registry with per-connection outbound
//! message queues. All mutation of the world goes through one `State`
//! value; the transport layer serializes access to it and drives it with
//! plain values.

use vstd::prelude::*;

verus! {

use crate::connection::Connection;
use crate::crypto::{argon2_hash, argon2_hash_of, argon2_verifies, base64_encode, random_bytes};
use crate::message::Message;
use crate::person::{Person, PersonId, PersonRecord, PASSWD_SALT_LENGTH};
use crate::room::{RoomId, INITIAL_LOC};
use crate::text::str_eq;

/// Whether the elements of `s` are pairwise distinct.
pub open spec fn seq_distinct<A>(s: Seq<A>) -> bool {
    forall|i: int, j: int| 0 <= i < j < s.len() ==> s[i] != s[j]
}

/// Who is in a room.
struct Room {
    id: RoomId,
    members: Vec<PersonId>,
}

/// A registered connection: its owner, its transport descriptor, and its
/// outbound message queue. A closed entry no longer receives fan-out, but
/// its queued messages can still be drained by the owning session.
struct ConnEntry {
    id: PersonId,
    conn: Connection,
    queue: Vec<Message>,
    open: bool,
}

/// Why a registration attempt was refused.
#[derive(Clone, Copy, Debug, PartialEq, Eq, Structural)]
pub enum RegisterError {
    /// The display name is already registered to someone.
    NameTaken,
    /// Every identifier has been handed out; no fresh id exists.
    IdSpaceExhausted,
}

spec fn rhas(rooms: Seq<Room>, loc: RoomId) -> bool {
    exists|i: int| 0 <= i < rooms.len() && rooms[i].id == loc
}

spec fn ridx(rooms: Seq<Room>, loc: RoomId) -> int {
    choose|i: int| 0 <= i < rooms.len() && rooms[i].id == loc
}

spec fn rids_distinct(rooms: Seq<Room>) -> bool {
    forall|i: int, j: int| 0 <= i < j < rooms.len() ==> rooms[i].id != rooms[j].id
}

spec fn chas(cs: Seq<ConnEntry>, id: PersonId) -> bool {
    exists|i: int| 0 <= i < cs.len() && cs[i].id == id
}

spec fn cidx(cs: Seq<ConnEntry>, id: PersonId) -> int {
    choose|i: int| 0 <= i < cs.len() && cs[i].id == id
}

spec fn cids_distinct(cs: Seq<ConnEntry>) -> bool {
    forall|i: int, j: int| 0 <= i < j < cs.len() ==> cs[i].id != cs[j].id
}

proof fn lemma_ridx(rooms: Seq<Room>, loc: RoomId)
    requires
        rids_distinct(rooms),
        rhas(rooms, loc),
    ensures
        0 <= ridx(rooms, loc) < rooms.len(),
        rooms[ridx(rooms, loc)].id == loc,
        forall|i: int| 0 <= i < rooms.len() && rooms[i].id == loc ==> i == ridx(rooms, loc),
{
}

proof fn lemma_cidx(cs: Seq<ConnEntry>, id: PersonId)
    requires
        cids_distinct(cs),
        chas(cs, id),
    ensures
        0 <= cidx(cs, id) < cs.len(),
        cs[cidx(cs, id)].id == id,
        forall|i: int| 0 <= i < cs.len() && cs[i].id == id ==> i == cidx(cs, id),
{
}

/// Whether `post` has the same rooms with the same occupants as `pre`.
pub open spec fn same_rooms(pre: State, post: State) -> bool {
    forall|loc: RoomId|
        #![auto]
        post.has_room(loc) == pre.has_room(loc) && (pre.has_room(loc) ==> post.room_members(loc)
            == pre.room_members(loc))
}

/// Whether `post` has the same connection entries, queues and open flags
/// as `pre`.
pub open spec fn same_queues(pre: State, post: State) -> bool {
    forall|id: PersonId|
        #![auto]
        post.has_queue(id) == pre.has_queue(id) && (pre.has_queue(id) ==> post.queue_of(id)
            == pre.queue_of(id) && post.queue_open(id) == pre.queue_open(id) && post.conn_of(id)
            == pre.conn_of(id))
}

/// Whether `post` has the same records and next id as `pre`.
pub open spec fn same_identities(pre: State, post: State) -> bool {
    post.people_seq() == pre.people_seq() && post.spec_next_id() == pre.spec_next_id()
}

/// The effect of one fan-out of `m` aimed at `targets`: every open queue
/// of a target identity has exactly `m` appended, and every other entry —
/// closed, or not aimed at — is untouched. No entry appears or vanishes.
pub open spec fn delivered(pre: State, post: State, targets: Set<PersonId>, m: Message) -> bool {
    forall|id: PersonId|
        #![auto]
        post.has_queue(id) == pre.has_queue(id) && (pre.has_queue(id) ==> post.queue_open(id)
            == pre.queue_open(id) && post.conn_of(id) == pre.conn_of(id) && (if pre.queue_open(id)
            && targets.contains(id) {
            post.queue_of(id) == pre.queue_of(id).push(m)
        } else {
            post.queue_of(id) == pre.queue_of(id)
        }))
}

/// Like `delivered`, but saying nothing about the entry of `except`,
/// whose queue is handled separately by the operation at hand.
pub open spec fn delivered_except(
    pre: State,
    post: State,
    targets: Set<PersonId>,
    m: Message,
    except: PersonId,
) -> bool {
    forall|id: PersonId|
        #![auto]
        id != except ==> post.has_queue(id) == pre.has_queue(id) && (pre.has_queue(id)
            ==> post.queue_open(id) == pre.queue_open(id) && post.conn_of(id) == pre.conn_of(id)
            && (if pre.queue_open(id) && targets.contains(id) {
            post.queue_of(id) == pre.queue_of(id).push(m)
        } else {
            post.queue_of(id) == pre.queue_of(id)
        }))
}

/// Whether every connection entry except possibly `id`'s is the same in
/// `post` as in `pre`.
pub open spec fn queues_same_except(pre: State, post: State, id: PersonId) -> bool {
    forall|x: PersonId|
        #![auto]
        x != id ==> post.has_queue(x) == pre.has_queue(x) && (pre.has_queue(x) ==> post.queue_of(x)
            == pre.queue_of(x) && post.queue_open(x) == pre.queue_open(x) && post.conn_of(x)
            == pre.conn_of(x))
}

/// The global shared state.
pub struct State {
    /// Next `PersonId` to generate.
    next_id: PersonId,
    /// The records of everyone ever registered, indexed by their id.
    people: Vec<PersonRecord>,
    /// Who is in each room.
    rooms: Vec<Room>,
    /// The registered connections and their outbound queues.
    conns: Vec<ConnEntry>,
    /// Set when a shutdown has been commanded; the driver observes it and
    /// ends the process cooperatively.
    shutdown_requested: bool,
}

impl State {
    /// The registered records, in order of registration.
    pub closed spec fn people_seq(self) -> Seq<PersonRecord> {
        self.people@
    }

    /// The next id registration will assign.
    pub closed spec fn spec_next_id(self) -> PersonId {
        self.next_id
    }

    /// Whether a shutdown has been commanded.
    pub closed spec fn spec_shutdown_requested(self) -> bool {
        self.shutdown_requested
    }

    /// Whether a room with id `loc` exists.
    pub closed spec fn has_room(self, loc: RoomId) -> bool {
        rhas(self.rooms@, loc)
    }

    /// The occupants of room `loc` (meaningful when the room exists).
    pub closed spec fn room_members(self, loc: RoomId) -> Seq<PersonId> {
        self.rooms@[ridx(self.rooms@, loc)].members@
    }

    /// Whether the identity `id` is present in room `loc`.
    pub open spec fn in_room(self, id: PersonId, loc: RoomId) -> bool {
        self.has_room(loc) && self.room_members(loc).contains(id)
    }

    /// Whether the identity `id` has a registered connection entry.
    pub closed spec fn has_queue(self, id: PersonId) -> bool {
        chas(self.conns@, id)
    }

    /// The pending outbound messages of `id`'s queue (meaningful when the
    /// entry exists).
    pub closed spec fn queue_of(self, id: PersonId) -> Seq<Message> {
        self.conns@[cidx(self.conns@, id)].queue@
    }

    /// Whether `id`'s queue still receives fan-out (meaningful when the
    /// entry exists).
    pub closed spec fn queue_open(self, id: PersonId) -> bool {
        self.conns@[cidx(self.conns@, id)].open
    }

    /// The connection descriptor registered for `id` (meaningful when the
    /// entry exists).
    pub closed spec fn conn_of(self, id: PersonId) -> Connection {
        self.conns@[cidx(self.conns@, id)].conn
    }

    /// Whether some record carries the display name `name`.
    pub closed spec fn has_name(self, name: Seq<char>) -> bool {
        exists|i: int| 0 <= i < self.people@.len() && self.people@[i].name@ == name
    }

    spec fn room_ok(self, r: Room) -> bool {
        &&& seq_distinct(r.members@)
        &&& forall|k: int| 0 <= k < r.members@.len() ==> (#[trigger] r.members@[k]) < self.next_id
            && self.people@[r.members@[k] as int].loc == r.id
    }

    /// The store's internal invariant: ids are dense and match record
    /// positions, names are unique, room ids are unique and the initial
    /// room exists, each room's member list is duplicate-free and agrees
    /// with the members' records, every record's room exists, and at most
    /// one connection entry exists per identity.
    pub closed spec fn wf(self) -> bool {
        &&& self.next_id as int == self.people@.len()
        &&& forall|i: int| 0 <= i < self.people@.len() ==> (#[trigger] self.people@[i]).id
            == i as PersonId
        &&& forall|i: int, j: int| 0 <= i < j < self.people@.len() ==> self.people@[i].name@
            != self.people@[j].name@
        &&& rids_distinct(self.rooms@)
        &&& rhas(self.rooms@, INITIAL_LOC)
        &&& forall|i: int| 0 <= i < self.rooms@.len() ==> self.room_ok(#[trigger] self.rooms@[i])
        &&& forall|i: int| 0 <= i < self.people@.len() ==> rhas(
            self.rooms@,
            (#[trigger] self.people@[i]).loc,
        )
        &&& cids_distinct(self.conns@)
    }

    /// Make a fresh world: no identities, no connections, one empty
    /// initial room.
    pub fn new() -> (r: Self)
        ensures
            r.wf(),
            r.spec_next_id() == 0,
            r.people_seq() == Seq::<PersonRecord>::empty(),
            r.has_room(INITIAL_LOC),
            r.room_members(INITIAL_LOC) == Seq::<PersonId>::empty(),
            forall|loc: RoomId| loc != INITIAL_LOC ==> !r.has_room(loc),
            forall|id: PersonId| !r.has_queue(id),
            !r.spec_shutdown_requested(),
    {
        let mut rooms: Vec<Room> = Vec::new();
        rooms.push(Room { id: INITIAL_LOC, members: Vec::new() });
        let r = State {
            next_id: 0,
            people: Vec::new(),
            rooms,
            conns: Vec::new(),
            shutdown_requested: false,
        };
        proof {
            assert(r.rooms@.len() == 1);
            assert(r.rooms@[0].id == INITIAL_LOC);
            assert(rhas(r.rooms@, INITIAL_LOC));
            assert(r.room_members(INITIAL_LOC) =~= Seq::<PersonId>::empty());
        }
        r
    }

    /// Request a cooperative shutdown. The store only records the request;
    /// the driver that owns the process observes it and exits, so existing
    /// sessions are not torn down from here.
    pub fn shutdown(&mut self)
        ensures
            final(self).spec_shutdown_requested(),
            same_identities(*old(self), *final(self)),
            same_rooms(*old(self), *final(self)),
            same_queues(*old(self), *final(self)),
            old(self).wf() ==> final(self).wf(),
    {
        self.shutdown_requested = true;
    }

    /// Whether a shutdown has been commanded.
    pub fn is_shutdown_requested(&self) -> (r: bool)
        ensures
            r == self.spec_shutdown_requested(),
    {
        self.shutdown_requested
    }

    fn find_room(&self, loc: RoomId) -> (r: Option<usize>)
        ensures
            r matches Some(k) ==> k < self.rooms@.len() && self.rooms@[k as int].id == loc
                && self.has_room(loc),
            r is None ==> !self.has_room(loc),
    {
        let n = self.rooms.len();
        let mut i: usize = 0;
        while i < n
            invariant
                i <= n,
                n == self.rooms@.len(),
                forall|k: int| 0 <= k < i ==> (#[trigger] self.rooms@[k]).id != loc,
            decreases n - i,
        {
            if self.rooms[i].id == loc {
                return Some(i);
            }
            i = i + 1;
        }
        None
    }

    fn find_conn(&self, id: PersonId) -> (r: Option<usize>)
        ensures
            r matches Some(k) ==> k < self.conns@.len() && self.conns@[k as int].id == id
                && self.has_queue(id),
            r is None ==> !self.has_queue(id),
    {
        let n = self.conns.len();
        let mut i: usize = 0;
        while i < n
            invariant
                i <= n,
                n == self.conns@.len(),
                forall|k: int| 0 <= k < i ==> (#[trigger] self.conns@[k]).id != id,
            decreases n - i,
        {
            if self.conns[i].id == id {
                return Some(i);
            }
            i = i + 1;
        }
        None
    }

    /// Record the connection under the person id, with a fresh, empty,
    /// open outbound queue. A connection already registered for the same
    /// identity is replaced, pending messages and all.
    pub fn register_connection(&mut self, id: PersonId, conn: Connection)
        requires
            old(self).wf(),
        ensures
            final(self).wf(),
            final(self).has_queue(id),
            final(self).queue_of(id) == Seq::<Message>::empty(),
            final(self).queue_open(id),
            final(self).conn_of(id) == conn,
            queues_same_except(*old(self), *final(self), id),
            same_identities(*old(self), *final(self)),
            same_rooms(*old(self), *final(self)),
            final(self).spec_shutdown_requested() == old(self).spec_shutdown_requested(),
    {
        let e = ConnEntry { id, conn, queue: Vec::new(), open: true };
        let found = self.find_conn(id);
        match found {
            Some(k) => {
                proof {
                    lemma_cidx(self.conns@, id);
                }
                self.conns[k] = e;
                proof {
                    lemma_conns_same_ids(old(self).conns@, self.conns@);
                    lemma_cidx(self.conns@, id);
                }
            },
            None => {
                self.conns.push(e);
                proof {
                    assert forall|x: PersonId| x != id implies chas(self.conns@, x) == chas(
                        old(self).conns@,
                        x,
                    ) by {
                        if chas(old(self).conns@, x) {
                            let w = cidx(old(self).conns@, x);
                            assert(self.conns@[w].id == x);
                        }
                        if chas(self.conns@, x) {
                            let w = cidx(self.conns@, x);
                            assert(0 <= w < old(self).conns@.len());
                            assert(old(self).conns@[w].id == x);
                        }
                    }
                    assert(cids_distinct(self.conns@));
                    assert(self.conns@[old(self).conns@.len() as int].id == id);
                    lemma_cidx(self.conns@, id);
                    assert forall|x: PersonId| x != id && chas(old(self).conns@, x) implies self
                        .queue_of(x) == old(self).queue_of(x) && self.queue_open(x) == old(
                        self,
                    ).queue_open(x) && self.conn_of(x) == old(self).conn_of(x) by {
                        lemma_cidx(old(self).conns@, x);
                        lemma_cidx(self.conns@, x);
                    }
                }
            },
        }
    }

    /// Remove the connection entry of `id`, if any, queued messages
    /// included. A missing entry is no error: a connection may race with
    /// its own cleanup during shutdown.
    pub fn unregister_connection(&mut self, id: PersonId)
        requires
            old(self).wf(),
        ensures
            final(self).wf(),
            !final(self).has_queue(id),
            queues_same_except(*old(self), *final(self), id),
            same_identities(*old(self), *final(self)),
            same_rooms(*old(self), *final(self)),
            final(self).spec_shutdown_requested() == old(self).spec_shutdown_requested(),
    {
        let found = self.find_conn(id);
        match found {
            Some(k) => {
                proof {
                    lemma_cidx(self.conns@, id);
                }
                self.conns.remove(k);
                proof {
                    lemma_conns_remove(old(self).conns@, self.conns@, k as int);
                }
            },
            None => {},
        }
    }

    /// Pop the oldest pending outbound message of `id`'s queue, if any.
    /// The queue keeps FIFO order; a missing entry yields nothing.
    pub fn next_message(&mut self, id: PersonId) -> (r: Option<Message>)
        requires
            old(self).wf(),
        ensures
            final(self).wf(),
            !(old(self).has_queue(id) && old(self).queue_of(id).len() > 0) ==> r is None
                && *final(self) == *old(self),
            old(self).has_queue(id) && old(self).queue_of(id).len() > 0 ==> {
                &&& r == Some(old(self).queue_of(id)[0])
                &&& final(self).has_queue(id)
                &&& final(self).queue_of(id) == old(self).queue_of(id).drop_first()
                &&& final(self).queue_open(id) == old(self).queue_open(id)
                &&& final(self).conn_of(id) == old(self).conn_of(id)
            },
            queues_same_except(*old(self), *final(self), id),
            same_identities(*old(self), *final(self)),
            same_rooms(*old(self), *final(self)),
            final(self).spec_shutdown_requested() == old(self).spec_shutdown_requested(),
    {
        let found = self.find_conn(id);
        match found {
            None => None,
            Some(k) => {
                proof {
                    lemma_cidx(self.conns@, id);
                }
                if self.conns[k].queue.len() == 0 {
                    return None;
                }
                let m = self.conns[k].queue.remove(0);
                proof {
                    lemma_conns_same_ids(old(self).conns@, self.conns@);
                    lemma_cidx(self.conns@, id);
                    assert(final(self).queue_of(id) =~= old(self).queue_of(id).drop_first());
                }
                Some(m)
            },
        }
    }
    /// The record registered under `id`.
    pub fn person(&self, id: PersonId) -> (r: &PersonRecord)
        requires
            self.wf(),
            id < self.spec_next_id(),
        ensures
            *r == self.people_seq()[id as int],
    {
        let n = self.people.len();
        proof {
            assert((id as int) < (n as int));
        }
        &self.people[id as usize]
    }

    /// Look an identity up by display name. Returns a copy of the record,
    /// never a reference into the store.
    pub fn person_by_name(&self, name: &str) -> (r: Option<PersonRecord>)
        requires
            self.wf(),
        ensures
            r is Some <==> self.has_name(name@),
            r matches Some(rec) ==> rec.id < self.spec_next_id() && self.people_seq()[rec.id as int]
                == rec && rec.name@ == name@,
    {
        let n = self.people.len();
        let mut i: usize = 0;
        while i < n
            invariant
                self.wf(),
                i <= n,
                n == self.people@.len(),
                forall|k: int| 0 <= k < i ==> (#[trigger] self.people@[k]).name@ != name@,
            decreases n - i,
        {
            if str_eq(self.people[i].name.as_str(), name) {
                proof {
                    assert(self.people@[i as int].id == i as PersonId);
                }
                return Some(self.people[i].clone());
            }
            i = i + 1;
        }
        None
    }

    /// Send a message to _all_ peers: append it to every open queue,
    /// whatever room its owner is in.
    pub fn broadcast(&mut self, message: Message)
        requires
            old(self).wf(),
        ensures
            final(self).wf(),
            delivered(*old(self), *final(self), Set::<PersonId>::full(), message),
            same_identities(*old(self), *final(self)),
            same_rooms(*old(self), *final(self)),
            final(self).spec_shutdown_requested() == old(self).spec_shutdown_requested(),
    {
        let n = self.conns.len();
        let mut i: usize = 0;
        while i < n
            invariant
                i <= n,
                old(self).wf(),
                n == self.conns@.len(),
                self.people@ == old(self).people@,
                self.next_id == old(self).next_id,
                self.rooms@ == old(self).rooms@,
                self.shutdown_requested == old(self).shutdown_requested,
                forall|k: int|
                    #![auto]
                    0 <= k < n ==> self.conns@[k].id == old(self).conns@[k].id && self.conns@[k].conn
                        == old(self).conns@[k].conn && self.conns@[k].open == old(
                        self,
                    ).conns@[k].open,
                forall|k: int|
                    #![auto]
                    0 <= k < i ==> if old(self).conns@[k].open {
                        self.conns@[k].queue@ == old(self).conns@[k].queue@.push(message)
                    } else {
                        self.conns@[k] == old(self).conns@[k]
                    },
                forall|k: int| #![auto] i <= k < n ==> self.conns@[k] == old(self).conns@[k],
            decreases n - i,
        {
            if self.conns[i].open {
                let m = message.clone();
                self.conns[i].queue.push(m);
            }
            i = i + 1;
        }
        proof {
            lemma_elementwise_delivered(
                *old(self),
                *self,
                Set::<PersonId>::full(),
                message,
            );
        }
    }
    /// Send a message to everyone in a given location, resolved via the
    /// room's membership list. A missing room is an internal-consistency
    /// error: the operation is abandoned, the process keeps running.
    pub fn roomcast(&mut self, loc: RoomId, message: Message)
        requires
            old(self).wf(),
        ensures
            final(self).wf(),
            !old(self).has_room(loc) ==> *final(self) == *old(self),
            old(self).has_room(loc) ==> delivered(
                *old(self),
                *final(self),
                old(self).room_members(loc).to_set(),
                message,
            ),
            same_identities(*old(self), *final(self)),
            same_rooms(*old(self), *final(self)),
            final(self).spec_shutdown_requested() == old(self).spec_shutdown_requested(),
    {
        let found = self.find_room(loc);
        let ri: usize = match found {
            None => {
                return ;
            },
            Some(ri) => ri,
        };
        proof {
            lemma_ridx(self.rooms@, loc);
            assert(self.room_ok(self.rooms@[ri as int]));
        }
        let ghost members = self.rooms@[ri as int].members@;
        let n = self.rooms[ri].members.len();
        let mut k: usize = 0;
        while k < n
            invariant
                old(self).wf(),
                k <= n,
                (ri as int) < self.rooms@.len(),
                self.rooms@ == old(self).rooms@,
                self.people@ == old(self).people@,
                self.next_id == old(self).next_id,
                self.shutdown_requested == old(self).shutdown_requested,
                members == self.rooms@[ri as int].members@,
                n == members.len(),
                seq_distinct(members),
                self.conns@.len() == old(self).conns@.len(),
                forall|i: int|
                    #![auto]
                    0 <= i < old(self).conns@.len() ==> self.conns@[i].id == old(self).conns@[i].id
                        && self.conns@[i].conn == old(self).conns@[i].conn && self.conns@[i].open
                        == old(self).conns@[i].open,
                forall|i: int|
                    #![auto]
                    0 <= i < old(self).conns@.len() ==> if old(self).conns@[i].open
                        && members.take(k as int).contains(old(self).conns@[i].id) {
                        self.conns@[i].queue@ == old(self).conns@[i].queue@.push(message)
                    } else {
                        self.conns@[i] == old(self).conns@[i]
                    },
            decreases n - k,
        {
            let ghost pre_conns = self.conns@;
            proof {
                lemma_conns_same_ids(old(self).conns@, self.conns@);
            }
            let mid = self.rooms[ri].members[k];
            deliver(&mut self.conns, mid, &message);
            proof {
                let ka = k as int;
                assert(members.take(ka + 1) =~= members.take(ka).push(members[ka]));
                assert forall|j: int| 0 <= j < ka implies #[trigger] members.take(ka)[j] != mid by {
                    assert(members[j] != members[ka]);
                }
                assert(!members.take(ka).contains(mid));
                assert forall|x: PersonId| x != mid implies #[trigger] members.take(ka + 1).contains(
                    x,
                ) == members.take(ka).contains(x) by {
                    vstd::seq_lib::lemma_seq_contains_after_push(members.take(ka), members[ka], x);
                }
                assert forall|i: int|
                    #![auto]
                    0 <= i < old(self).conns@.len() implies (if old(self).conns@[i].open
                        && members.take(ka + 1).contains(old(self).conns@[i].id) {
                        self.conns@[i].queue@ == old(self).conns@[i].queue@.push(message)
                    } else {
                        self.conns@[i] == old(self).conns@[i]
                    }) by {
                    let id_i = old(self).conns@[i].id;
                    if id_i == mid {
                        assert(pre_conns[i] == old(self).conns@[i]);
                        assert(members.take(ka + 1)[ka] == mid);
                        assert(members.take(ka + 1).contains(mid));
                        if old(self).conns@[i].open {
                            assert(self.conns@[i].queue@ == pre_conns[i].queue@.push(message));
                        } else {
                            assert(self.conns@[i] == pre_conns[i]);
                        }
                    } else {
                        assert(self.conns@[i] == pre_conns[i]);
                    }
                }
            }
            k = k + 1;
        }
        proof {
            assert(members.take(n as int) =~= members);
            lemma_elementwise_delivered(*old(self), *self, members.to_set(), message);
            assert(old(self).room_members(loc) == members);
        }
    }

    fn remove_member(&mut self, ri: usize, id: PersonId)
        requires
            ri < old(self).rooms@.len(),
            seq_distinct(old(self).rooms@[ri as int].members@),
        ensures
            final(self).rooms@ == old(self).rooms@.update(
                ri as int,
                final(self).rooms@[ri as int],
            ),
            final(self).rooms@[ri as int].id == old(self).rooms@[ri as int].id,
            seq_distinct(final(self).rooms@[ri as int].members@),
            !final(self).rooms@[ri as int].members@.contains(id),
            forall|x: PersonId|
                x != id ==> final(self).rooms@[ri as int].members@.contains(x) == old(
                    self,
                ).rooms@[ri as int].members@.contains(x),
            forall|x: PersonId|
                final(self).rooms@[ri as int].members@.contains(x) ==> old(
                    self,
                ).rooms@[ri as int].members@.contains(x),
            final(self).people@ == old(self).people@,
            final(self).next_id == old(self).next_id,
            final(self).conns@ == old(self).conns@,
            final(self).shutdown_requested == old(self).shutdown_requested,
    {
        remove_id(&mut self.rooms[ri].members, id);
        proof {
            assert(self.rooms@ =~= old(self).rooms@.update(ri as int, self.rooms@[ri as int]));
        }
    }

    fn insert_member(&mut self, ri: usize, id: PersonId)
        requires
            ri < old(self).rooms@.len(),
            seq_distinct(old(self).rooms@[ri as int].members@),
        ensures
            final(self).rooms@ == old(self).rooms@.update(
                ri as int,
                final(self).rooms@[ri as int],
            ),
            final(self).rooms@[ri as int].id == old(self).rooms@[ri as int].id,
            seq_distinct(final(self).rooms@[ri as int].members@),
            final(self).rooms@[ri as int].members@.contains(id),
            forall|x: PersonId|
                x != id ==> final(self).rooms@[ri as int].members@.contains(x) == old(
                    self,
                ).rooms@[ri as int].members@.contains(x),
            forall|x: PersonId|
                final(self).rooms@[ri as int].members@.contains(x) ==> old(
                    self,
                ).rooms@[ri as int].members@.contains(x) || x == id,
            final(self).people@ == old(self).people@,
            final(self).next_id == old(self).next_id,
            final(self).conns@ == old(self).conns@,
            final(self).shutdown_requested == old(self).shutdown_requested,
    {
        insert_id(&mut self.rooms[ri].members, id);
        proof {
            assert(self.rooms@ =~= old(self).rooms@.update(ri as int, self.rooms@[ri as int]));
        }
    }

    /// Register a new identity: check the name is free, generate a fresh
    /// salt, hash the password, assign the next id, store and index the
    /// record, and return a copy of it. The check and the insertion happen
    /// in one critical section, so two racing registrations of one name
    /// cannot both succeed: the later one is told the name is taken.
    pub fn new_person(&mut self, name: &str, password: &str) -> (r: Result<
        PersonRecord,
        RegisterError,
    >)
        requires
            old(self).wf(),
            password@.len() <= 0x1000000,
        ensures
            final(self).wf(),
            old(self).has_name(name@) ==> r == Err::<PersonRecord, RegisterError>(
                RegisterError::NameTaken,
            ) && *final(self) == *old(self),
            !old(self).has_name(name@) && old(self).spec_next_id() == PersonId::MAX ==> r == Err::<
                PersonRecord,
                RegisterError,
            >(RegisterError::IdSpaceExhausted) && *final(self) == *old(self),
            !old(self).has_name(name@) && old(self).spec_next_id() < PersonId::MAX ==> (r matches Ok(
                rec,
            ) && {
                &&& rec.id == old(self).spec_next_id()
                &&& rec.name@ == name@
                &&& rec.loc == INITIAL_LOC
                &&& rec.salt@.len() == 8
                &&& rec.password@ == argon2_hash_of(password@, rec.salt@)
                &&& argon2_verifies(rec.password@, password@)
                &&& final(self).people_seq() == old(self).people_seq().push(rec)
                &&& final(self).spec_next_id() == old(self).spec_next_id() + 1
                &&& final(self).has_name(name@)
            }),
            same_rooms(*old(self), *final(self)),
            same_queues(*old(self), *final(self)),
            final(self).spec_shutdown_requested() == old(self).spec_shutdown_requested(),
    {
        let existing = self.person_by_name(name);
        if existing.is_some() {
            return Err(RegisterError::NameTaken);
        }
        if self.next_id == u64::MAX {
            return Err(RegisterError::IdSpaceExhausted);
        }
        let id = self.next_id;
        let salt_bytes = random_bytes(PASSWD_SALT_LENGTH / 4);
        let salt = base64_encode(salt_bytes.as_slice());
        proof {
            assert(salt@.len() == 8);
        }
        let hashed_opt = argon2_hash(password, salt.as_str());
        let hashed = match hashed_opt {
            Some(h) => h,
            None => {
                proof {
                    assert(false);
                }
                String::new()
            },
        };
        let person = PersonRecord {
            id,
            loc: INITIAL_LOC,
            name: name.to_owned(),
            salt,
            password: hashed,
        };
        self.people.push(person.clone());
        self.next_id = id + 1;
        proof {
            let n = old(self).people@.len();
            assert(self.people@ == old(self).people@.push(person));
            assert(self.people@[n as int] == person);
            assert forall|i: int| 0 <= i < self.people@.len() implies (
            #[trigger] self.people@[i]).id == i as PersonId by {
                if i < n {
                    assert(self.people@[i] == old(self).people@[i]);
                }
            }
            assert forall|i: int, j: int| 0 <= i < j < self.people@.len() implies self.people@[i].name@
                != self.people@[j].name@ by {
                if j < n {
                } else {
                    assert(self.people@[j] == person);
                    assert(old(self).people@[i].name@ != name@);
                }
            }
            assert forall|i: int| 0 <= i < self.rooms@.len() implies self.room_ok(
                #[trigger] self.rooms@[i],
            ) by {
                assert(old(self).room_ok(old(self).rooms@[i]));
                assert forall|k: int| 0 <= k < self.rooms@[i].members@.len() implies (
                #[trigger] self.rooms@[i].members@[k]) < self.next_id
                    && self.people@[self.rooms@[i].members@[k] as int].loc
                    == self.rooms@[i].id by {
                    let x = old(self).rooms@[i].members@[k];
                    assert(x < old(self).next_id);
                    assert(self.people@[x as int] == old(self).people@[x as int]);
                }
            }
            assert forall|i: int| 0 <= i < self.people@.len() implies rhas(
                self.rooms@,
                (#[trigger] self.people@[i]).loc,
            ) by {
                if i < n {
                    assert(self.people@[i] == old(self).people@[i]);
                    assert(rhas(old(self).rooms@, old(self).people@[i].loc));
                } else {
                    assert(self.people@[i].loc == INITIAL_LOC);
                }
            }
            assert(self.wf());
            assert(self.has_name(name@)) by {
                assert(self.people@[n as int].name@ == name@);
            }
        }
        Ok(person)
    }

    /// Take `p` out of its current room's membership, then announce the
    /// departure to everyone still in that room. A missing room is an
    /// internal-consistency error: the operation is abandoned. The record's
    /// last-known room is deliberately kept, so the person would return
    /// there.
    pub fn depart(&mut self, p: &Person)
        requires
            old(self).wf(),
            forall|r: RoomId| old(self).in_room(p.id, r) ==> r == p.loc,
        ensures
            final(self).wf(),
            forall|r: RoomId| !final(self).in_room(p.id, r),
            !old(self).has_room(p.loc) ==> *final(self) == *old(self),
            old(self).has_room(p.loc) ==> {
                &&& forall|x: PersonId|
                    x != p.id ==> final(self).room_members(p.loc).contains(x) == old(
                        self,
                    ).room_members(p.loc).contains(x)
                &&& forall|r: RoomId|
                    #![auto]
                    r != p.loc && old(self).has_room(r) ==> final(self).room_members(r) == old(
                        self,
                    ).room_members(r)
                &&& forall|r: RoomId| final(self).has_room(r) == old(self).has_room(r)
                &&& delivered(
                    *old(self),
                    *final(self),
                    final(self).room_members(p.loc).to_set(),
                    Message::Depart { id: p.id, name: p.name, loc: p.loc },
                )
            },
            same_identities(*old(self), *final(self)),
            final(self).spec_shutdown_requested() == old(self).spec_shutdown_requested(),
    {
        let found = self.find_room(p.loc);
        let ri: usize = match found {
            None => {
                return ;
            },
            Some(ri) => ri,
        };
        proof {
            lemma_ridx(self.rooms@, p.loc);
            assert(self.room_ok(self.rooms@[ri as int]));
        }
        let ghost pre = *self;
        self.remove_member(ri, p.id);
        proof {
            lemma_rooms_update(pre, *self, ri as int);
            assert forall|i: int| 0 <= i < self.rooms@.len() implies self.room_ok(
                #[trigger] self.rooms@[i],
            ) by {
                if i == ri as int {
                    let newm = self.rooms@[i].members@;
                    let oldm = pre.rooms@[i].members@;
                    assert(pre.room_ok(pre.rooms@[i]));
                    assert forall|k: int| 0 <= k < newm.len() implies (#[trigger] newm[k])
                        < self.next_id && self.people@[newm[k] as int].loc == self.rooms@[i].id by {
                        let x = newm[k];
                        assert(newm.contains(x));
                        assert(oldm.contains(x));
                        let j = choose|j: int| 0 <= j < oldm.len() && oldm[j] == x;
                        assert(oldm[j] < pre.next_id);
                    }
                } else {
                    assert(self.rooms@[i] == pre.rooms@[i]);
                    assert(pre.room_ok(pre.rooms@[i]));
                }
            }
            assert(self.has_room(INITIAL_LOC) == pre.has_room(INITIAL_LOC));
            assert forall|i: int| 0 <= i < self.people@.len() implies rhas(
                self.rooms@,
                (#[trigger] self.people@[i]).loc,
            ) by {
                assert(rhas(pre.rooms@, pre.people@[i].loc));
                assert(self.has_room(self.people@[i].loc) == pre.has_room(self.people@[i].loc));
            }
            assert(self.wf());
        }
        let msg = Message::Depart { id: p.id, name: p.name.clone(), loc: p.loc };
        let ghost mid = *self;
        self.roomcast(p.loc, msg);
        proof {
            assert(!mid.room_members(p.loc).contains(p.id));
            assert forall|r: RoomId| !self.in_room(p.id, r) by {
                if self.has_room(r) {
                    assert(mid.has_room(r));
                    assert(self.room_members(r) == mid.room_members(r));
                    if r != p.loc {
                        assert(pre.has_room(r));
                        assert(!old(self).in_room(p.id, r));
                        assert(mid.room_members(r) == pre.room_members(r));
                    }
                }
            }
        }
    }

    /// Create an empty room under `loc` if none exists yet. Tells whether
    /// the room was created. Rooms are never removed.
    pub fn add_room(&mut self, loc: RoomId) -> (r: bool)
        requires
            old(self).wf(),
        ensures
            final(self).wf(),
            final(self).has_room(loc),
            r == !old(self).has_room(loc),
            old(self).has_room(loc) ==> *final(self) == *old(self),
            !old(self).has_room(loc) ==> final(self).room_members(loc) == Seq::<
                PersonId,
            >::empty(),
            forall|x: RoomId|
                #![auto]
                x != loc ==> final(self).has_room(x) == old(self).has_room(x) && (old(
                    self).has_room(x) ==> final(self).room_members(x) == old(self).room_members(
                    x,
                )),
            same_identities(*old(self), *final(self)),
            same_queues(*old(self), *final(self)),
            final(self).spec_shutdown_requested() == old(self).spec_shutdown_requested(),
    {
        let found = self.find_room(loc);
        match found {
            Some(_) => false,
            None => {
                let ghost pre = self.rooms@;
                self.rooms.push(Room { id: loc, members: Vec::new() });
                proof {
                    assert(self.rooms@[pre.len() as int].id == loc);
                    assert forall|x: RoomId| x != loc implies rhas(self.rooms@, x) == rhas(
                        pre,
                        x,
                    ) by {
                        if rhas(pre, x) {
                            let w = ridx(pre, x);
                            assert(self.rooms@[w].id == x);
                        }
                        if rhas(self.rooms@, x) {
                            let w = ridx(self.rooms@, x);
                            assert(0 <= w < pre.len());
                            assert(pre[w].id == x);
                        }
                    }
                    assert(rids_distinct(self.rooms@));
                    lemma_ridx(self.rooms@, loc);
                    assert(self.room_members(loc) =~= Seq::<PersonId>::empty());
                    assert forall|x: RoomId| x != loc && rhas(pre, x) implies self.room_members(x)
                        == old(self).room_members(x) by {
                        lemma_ridx(pre, x);
                        lemma_ridx(self.rooms@, x);
                        assert(self.rooms@[ridx(pre, x)].id == x);
                    }
                    assert forall|i: int| 0 <= i < self.rooms@.len() implies self.room_ok(
                        #[trigger] self.rooms@[i],
                    ) by {
                        if i < pre.len() {
                            assert(self.rooms@[i] == pre[i]);
                            assert(old(self).room_ok(pre[i]));
                        }
                    }
                    assert forall|i: int| 0 <= i < self.people@.len() implies rhas(
                        self.rooms@,
                        (#[trigger] self.people@[i]).loc,
                    ) by {
                        assert(rhas(pre, old(self).people@[i].loc));
                        if old(self).people@[i].loc != loc {
                        }
                    }
                    assert(self.wf());
                }
                true
            },
        }
    }

    /// The ids of everyone present in room `loc`.
    pub fn room(&self, loc: RoomId) -> (r: &Vec<PersonId>)
        requires
            self.wf(),
            self.has_room(loc),
        ensures
            r@ == self.room_members(loc),
    {
        let found = self.find_room(loc);
        match found {
            Some(ri) => {
                proof {
                    lemma_ridx(self.rooms@, loc);
                }
                &self.rooms[ri].members
            },
            None => {
                proof {
                    assert(false);
                }
                vstd::pervasive::unreached()
            },
        }
    }

    /// End `p`'s presence: depart from the current room, then close the
    /// connection's queue so no further fan-out reaches it. A
    /// stream-oriented transport gets a terminal `Logout` message queued,
    /// so the session loop can close the transport cleanly; for a
    /// stateless transport that step is a no-op.
    pub fn logout(&mut self, p: &Person)
        requires
            old(self).wf(),
            forall|r: RoomId| old(self).in_room(p.id, r) ==> r == p.loc,
        ensures
            final(self).wf(),
            forall|r: RoomId| !final(self).in_room(p.id, r),
            forall|r: RoomId| final(self).has_room(r) == old(self).has_room(r),
            old(self).has_room(p.loc) ==> forall|x: PersonId|
                x != p.id ==> final(self).room_members(p.loc).contains(x) == old(
                    self,
                ).room_members(p.loc).contains(x),
            forall|r: RoomId|
                #![auto]
                r != p.loc && old(self).has_room(r) ==> final(self).room_members(r) == old(
                    self,
                ).room_members(r),
            final(self).has_queue(p.id) == old(self).has_queue(p.id),
            old(self).has_queue(p.id) ==> {
                &&& !final(self).queue_open(p.id)
                &&& final(self).conn_of(p.id) == old(self).conn_of(p.id)
                &&& (old(self).conn_of(p.id) is TCP ==> final(self).queue_of(p.id) == old(
                    self,
                ).queue_of(p.id).push(Message::Logout))
                &&& (!(old(self).conn_of(p.id) is TCP) ==> final(self).queue_of(p.id) == old(
                    self,
                ).queue_of(p.id))
            },
            old(self).has_room(p.loc) ==> delivered_except(
                *old(self),
                *final(self),
                final(self).room_members(p.loc).to_set(),
                Message::Depart { id: p.id, name: p.name, loc: p.loc },
                p.id,
            ),
            !old(self).has_room(p.loc) ==> queues_same_except(*old(self), *final(self), p.id),
            same_identities(*old(self), *final(self)),
            final(self).spec_shutdown_requested() == old(self).spec_shutdown_requested(),
    {
        self.depart(p);
        let ghost mid = *self;
        let found = self.find_conn(p.id);
        match found {
            None => {},
            Some(k) => {
                proof {
                    lemma_cidx(self.conns@, p.id);
                }
                self.conns[k].open = false;
                let is_tcp = match &self.conns[k].conn {
                    Connection::TCP { .. } => true,
                    _ => false,
                };
                if is_tcp {
                    self.conns[k].queue.push(Message::Logout);
                }
                proof {
                    lemma_conns_same_ids(mid.conns@, self.conns@);
                    lemma_cidx(mid.conns@, p.id);
                    lemma_cidx(self.conns@, p.id);
                    assert(cidx(self.conns@, p.id) == k as int);
                    assert forall|x: PersonId| x != p.id && chas(mid.conns@, x) implies self
                        .queue_of(x) == mid.queue_of(x) && self.queue_open(x) == mid.queue_open(x)
                        && self.conn_of(x) == mid.conn_of(x) by {
                        lemma_cidx(mid.conns@, x);
                        lemma_cidx(self.conns@, x);
                        assert(self.conns@[cidx(self.conns@, x)] == mid.conns@[cidx(
                            mid.conns@,
                            x,
                        )]);
                    }
                }
            },
        }
        proof {
            assert(self.rooms@ == mid.rooms@);
            assert forall|r: RoomId| !self.in_room(p.id, r) by {
                assert(!mid.in_room(p.id, r));
            }
            if old(self).has_queue(p.id) {
                if old(self).has_room(p.loc) {
                    assert(!mid.in_room(p.id, p.loc));
                    assert(!mid.room_members(p.loc).contains(p.id));
                    assert(mid.queue_of(p.id) == old(self).queue_of(p.id));
                    assert(mid.conn_of(p.id) == old(self).conn_of(p.id));
                    assert(mid.queue_open(p.id) == old(self).queue_open(p.id));
                } else {
                    assert(mid == *old(self));
                }
            }
        }
    }

    /// Move `p` into room `loc`: leave the old room if it differs, record
    /// the new room both on the session and on the stored record, join the
    /// new room, and announce the arrival to the whole new room — the
    /// arriving person included; the renderer suppresses the
    /// self-notification. Arriving in the room one is already in
    /// re-announces anyway. A missing room abandons the operation.
    pub fn arrive(&mut self, p: &mut Person, loc: RoomId)
        requires
            old(self).wf(),
            old(p).id < old(self).spec_next_id(),
            forall|r: RoomId| old(self).in_room(old(p).id, r) ==> r == old(p).loc,
        ensures
            final(self).wf(),
            final(p).id == old(p).id,
            final(p).name == old(p).name,
            final(p).conn == old(p).conn,
            !old(self).has_room(loc) ==> *final(self) == *old(self) && *final(p) == *old(p),
            old(self).has_room(loc) && old(p).loc != loc && !old(self).has_room(old(p).loc)
                ==> *final(self) == *old(self) && *final(p) == *old(p),
            old(self).has_room(loc) && (old(p).loc == loc || old(self).has_room(old(p).loc)) ==> {
                &&& final(p).loc == loc
                &&& forall|r: RoomId| final(self).in_room(old(p).id, r) <==> r == loc
                &&& forall|r: RoomId| final(self).has_room(r) == old(self).has_room(r)
                &&& forall|r: RoomId, x: PersonId|
                    #![auto]
                    old(self).has_room(r) && x != old(p).id ==> final(self).room_members(
                        r,
                    ).contains(x) == old(self).room_members(r).contains(x)
                &&& final(self).people_seq().len() == old(self).people_seq().len()
                &&& final(self).spec_next_id() == old(self).spec_next_id()
                &&& forall|i: int|
                    #![auto]
                    0 <= i < old(self).people_seq().len() && i != old(p).id ==> final(
                        self).people_seq()[i] == old(self).people_seq()[i]
                &&& final(self).people_seq()[old(p).id as int].id == old(p).id
                &&& final(self).people_seq()[old(p).id as int].name == old(
                    self).people_seq()[old(p).id as int].name
                &&& final(self).people_seq()[old(p).id as int].salt == old(
                    self).people_seq()[old(p).id as int].salt
                &&& final(self).people_seq()[old(p).id as int].password == old(
                    self).people_seq()[old(p).id as int].password
                &&& final(self).people_seq()[old(p).id as int].loc == loc
                &&& delivered(
                    *old(self),
                    *final(self),
                    final(self).room_members(loc).to_set(),
                    Message::Arrive { id: old(p).id, name: old(p).name, loc },
                )
            },
            final(self).spec_shutdown_requested() == old(self).spec_shutdown_requested(),
    {
        let ti: usize = match self.find_room(loc) {
            None => {
                return ;
            },
            Some(t) => t,
        };
        proof {
            lemma_ridx(self.rooms@, loc);
        }
        if p.loc != loc {
            let oi: usize = match self.find_room(p.loc) {
                None => {
                    return ;
                },
                Some(o) => o,
            };
            proof {
                lemma_ridx(self.rooms@, p.loc);
                assert(self.room_ok(self.rooms@[oi as int]));
            }
            let ghost pre0 = *self;
            self.remove_member(oi, p.id);
            proof {
                lemma_rooms_update(pre0, *self, oi as int);
                lemma_room_ok_from_old(pre0, *self);
                assert forall|r: RoomId| !self.in_room(p.id, r) by {
                    if self.has_room(r) {
                        assert(pre0.has_room(r));
                        if r == old(p).loc {
                            assert(self.room_members(r) == self.rooms@[oi as int].members@);
                        } else {
                            assert(!old(self).in_room(old(p).id, r));
                            assert(!pre0.room_members(r).contains(p.id));
                            assert(self.room_members(r) == pre0.room_members(r));
                        }
                    }
                }
                assert(self.has_room(INITIAL_LOC));
            }
            p.loc = loc;
        }
        // Whichever path was taken, the arriving person can now be present
        // only in the target room itself, so recording the new room on the
        // stored record keeps record and membership in step.
        let ghost pre1 = *self;
        proof {
            assert forall|r: RoomId| pre1.in_room(p.id, r) implies r == loc by {
                if old(p).loc == loc {
                    assert(pre1 == *old(self));
                    assert(old(self).in_room(old(p).id, r) ==> r == old(p).loc);
                } else {
                    assert(!pre1.in_room(p.id, r));
                }
            }
            assert(pre1.rooms@[ti as int].id == loc);
            assert(pre1.has_room(INITIAL_LOC)) by {
                if old(p).loc == loc {
                    assert(pre1 == *old(self));
                }
            }
        }
        let n_people = self.people.len();
        let idx = p.id as usize;
        proof {
            assert((p.id as int) < (n_people as int));
            assert((idx as int) == (p.id as int));
        }
        self.people[idx].loc = loc;
        proof {
            assert(self.rooms@ == pre1.rooms@);
            assert forall|i: int| 0 <= i < self.rooms@.len() implies self.room_ok(
                #[trigger] self.rooms@[i],
            ) by {
                assert(pre1.room_ok(pre1.rooms@[i]));
                assert forall|k: int| 0 <= k < self.rooms@[i].members@.len() implies (
                #[trigger] self.rooms@[i].members@[k]) < self.next_id
                    && self.people@[self.rooms@[i].members@[k] as int].loc
                    == self.rooms@[i].id by {
                    let x = pre1.rooms@[i].members@[k];
                    assert(pre1.rooms@[i].members@.contains(x));
                    assert(x < pre1.next_id);
                    assert(pre1.people@[x as int].loc == pre1.rooms@[i].id);
                    if x == p.id {
                        assert(rhas(pre1.rooms@, pre1.rooms@[i].id));
                        lemma_ridx(pre1.rooms@, pre1.rooms@[i].id);
                        assert(ridx(pre1.rooms@, pre1.rooms@[i].id) == i);
                        assert(pre1.room_members(pre1.rooms@[i].id) == pre1.rooms@[i].members@);
                        assert(pre1.in_room(p.id, pre1.rooms@[i].id));
                        assert(pre1.rooms@[i].id == loc);
                        assert(self.people@[x as int].loc == loc);
                    } else {
                        assert(self.people@[x as int] == pre1.people@[x as int]);
                    }
                    assert(x < self.next_id);
                    assert(self.people@[x as int].loc == self.rooms@[i].id);
                }
            }
        }
        let ghost pre2 = *self;
        self.insert_member(ti, p.id);
        proof {
            lemma_rooms_update(pre2, *self, ti as int);
            assert forall|i: int| 0 <= i < self.rooms@.len() implies self.room_ok(
                #[trigger] self.rooms@[i],
            ) by {
                if i == ti as int {
                    let newm = self.rooms@[i].members@;
                    let oldm = pre2.rooms@[i].members@;
                    assert(pre2.room_ok(pre2.rooms@[i]));
                    assert forall|k: int| 0 <= k < newm.len() implies (#[trigger] newm[k])
                        < self.next_id && self.people@[newm[k] as int].loc
                        == self.rooms@[i].id by {
                        let x = newm[k];
                        assert(newm.contains(x));
                        if x != p.id {
                            assert(oldm.contains(x));
                            let j = choose|j: int| 0 <= j < oldm.len() && oldm[j] == x;
                            assert(oldm[j] < pre2.next_id);
                        }
                    }
                } else {
                    assert(self.rooms@[i] == pre2.rooms@[i]);
                    assert(pre2.room_ok(pre2.rooms@[i]));
                }
            }
            assert(self.has_room(INITIAL_LOC) == pre2.has_room(INITIAL_LOC));
            assert forall|i: int| 0 <= i < self.people@.len() implies rhas(
                self.rooms@,
                (#[trigger] self.people@[i]).loc,
            ) by {
                if i == p.id as int {
                    assert(self.has_room(loc) == pre2.has_room(loc));
                } else {
                    assert(rhas(old(self).rooms@, old(self).people@[i].loc));
                    assert(self.has_room(self.people@[i].loc) == old(self).has_room(
                        self.people@[i].loc,
                    ));
                }
            }
            assert(self.people@.len() == old(self).people@.len());
            assert forall|i: int| 0 <= i < self.people@.len() implies (
            #[trigger] self.people@[i]).id == old(self).people@[i].id && self.people@[i].name
                == old(self).people@[i].name by {
                if i != p.id as int {
                    assert(self.people@[i] == old(self).people@[i]);
                }
            }
            assert(self.next_id == old(self).next_id);
            assert(cids_distinct(self.conns@));
            assert(rhas(self.rooms@, INITIAL_LOC));
            assert(self.wf());
        }
        let ghost mid = *self;
        let msg = Message::Arrive { id: p.id, name: p.name.clone(), loc };
        self.roomcast(loc, msg);
        proof {
            assert(mid.room_members(loc).contains(p.id));
            assert forall|r: RoomId| self.in_room(old(p).id, r) <==> r == loc by {
                if self.has_room(r) {
                    assert(mid.has_room(r));
                    assert(self.room_members(r) == mid.room_members(r));
                    if r != loc {
                        assert(pre2.has_room(r));
                        assert(mid.room_members(r) == pre2.room_members(r));
                        assert(!pre2.room_members(r).contains(p.id));
                    }
                } else {
                    assert(r != loc);
                }
            }
        }
    }
}

/// Registration uniqueness: in a well-formed store every two distinct
/// records carry distinct ids and distinct display names, so the name
/// index maps each registered name to exactly one id.
pub proof fn lemma_registration_unique(s: State, i: int, j: int)
    requires
        s.wf(),
        0 <= i < j < s.people_seq().len(),
    ensures
        s.people_seq()[i].id != s.people_seq()[j].id,
        s.people_seq()[i].name@ != s.people_seq()[j].name@,
{
}

/// Basic facts every well-formed store guarantees: ids are dense — the
/// next id equals the number of records and each record's id is its
/// position — and every record's last-known room exists.
pub proof fn lemma_store_shape(s: State)
    requires
        s.wf(),
    ensures
        s.spec_next_id() as int == s.people_seq().len(),
        forall|i: int|
            0 <= i < s.people_seq().len() ==> (#[trigger] s.people_seq()[i]).id == i as PersonId,
        forall|i: int|
            0 <= i < s.people_seq().len() ==> s.has_room((#[trigger] s.people_seq()[i]).loc),
{
}

/// Which names are taken depends only on the records held.
pub proof fn lemma_same_people_same_names(a: State, b: State)
    requires
        a.people_seq() == b.people_seq(),
    ensures
        forall|n: Seq<char>| #![auto] a.has_name(n) == b.has_name(n),
{
}

/// Room membership consistency: in a well-formed store a person is
/// present in at most one room, and that room is the one recorded as the
/// person's last-known location, so the presence sets and the records'
/// room fields always agree.
pub proof fn lemma_membership_consistent(s: State, id: PersonId, r1: RoomId, r2: RoomId)
    requires
        s.wf(),
        s.in_room(id, r1),
        s.in_room(id, r2),
    ensures
        r1 == r2,
        id < s.spec_next_id(),
        s.people_seq()[id as int].loc == r1,
{
    lemma_ridx(s.rooms@, r1);
    lemma_ridx(s.rooms@, r2);
    let a = ridx(s.rooms@, r1);
    let b = ridx(s.rooms@, r2);
    assert(s.room_ok(s.rooms@[a]));
    assert(s.room_ok(s.rooms@[b]));
    let ka = choose|k: int| 0 <= k < s.rooms@[a].members@.len() && s.rooms@[a].members@[k] == id;
    let kb = choose|k: int| 0 <= k < s.rooms@[b].members@.len() && s.rooms@[b].members@[k] == id;
    assert(s.rooms@[a].members@[ka] < s.spec_next_id());
    assert(s.people_seq()[id as int].loc == s.rooms@[a].id);
    assert(s.rooms@[b].members@[kb] < s.spec_next_id());
    assert(s.people_seq()[id as int].loc == s.rooms@[b].id);
}

/// After a change to one room that keeps its id, room lookups in the two
/// states agree everywhere else.
proof fn lemma_rooms_update(pre: State, post: State, k: int)
    requires
        rids_distinct(pre.rooms@),
        0 <= k < pre.rooms@.len(),
        post.rooms@ == pre.rooms@.update(k, post.rooms@[k]),
        post.rooms@[k].id == pre.rooms@[k].id,
    ensures
        rids_distinct(post.rooms@),
        forall|loc: RoomId| post.has_room(loc) == pre.has_room(loc),
        post.room_members(pre.rooms@[k].id) == post.rooms@[k].members@,
        forall|loc: RoomId|
            #![auto]
            loc != pre.rooms@[k].id && pre.has_room(loc) ==> post.room_members(loc)
                == pre.room_members(loc),
{
    assert forall|i: int| 0 <= i < post.rooms@.len() implies (#[trigger] post.rooms@[i]).id
        == pre.rooms@[i].id by {}
    assert(rids_distinct(post.rooms@));
    assert forall|loc: RoomId| post.has_room(loc) == pre.has_room(loc) by {
        if rhas(pre.rooms@, loc) {
            let w = ridx(pre.rooms@, loc);
            lemma_ridx(pre.rooms@, loc);
            assert(post.rooms@[w].id == loc);
        }
        if rhas(post.rooms@, loc) {
            let w = ridx(post.rooms@, loc);
            lemma_ridx(post.rooms@, loc);
            assert(pre.rooms@[w].id == loc);
        }
    }
    assert(post.has_room(pre.rooms@[k].id)) by {
        assert(post.rooms@[k].id == pre.rooms@[k].id);
    }
    lemma_ridx(post.rooms@, pre.rooms@[k].id);
    assert(post.room_members(pre.rooms@[k].id) == post.rooms@[k].members@);
    assert forall|loc: RoomId|
        loc != pre.rooms@[k].id && pre.has_room(loc) implies #[trigger] post.room_members(loc)
        == pre.room_members(loc) by {
        lemma_ridx(pre.rooms@, loc);
        let a = ridx(pre.rooms@, loc);
        assert(a != k);
        assert(post.rooms@[a].id == loc);
        lemma_ridx(post.rooms@, loc);
        assert(ridx(post.rooms@, loc) == a);
        assert(post.rooms@[a] == pre.rooms@[a]);
    }
}

/// Room well-formedness survives any change that only sheds members,
/// keeps every room's id, and leaves the identity table alone.
proof fn lemma_room_ok_from_old(pre: State, post: State)
    requires
        forall|i: int| 0 <= i < pre.rooms@.len() ==> pre.room_ok(#[trigger] pre.rooms@[i]),
        post.people@ == pre.people@,
        post.next_id == pre.next_id,
        post.rooms@.len() == pre.rooms@.len(),
        forall|i: int|
            #![auto]
            0 <= i < pre.rooms@.len() ==> post.rooms@[i].id == pre.rooms@[i].id && seq_distinct(
                post.rooms@[i].members@,
            ),
        forall|i: int, x: PersonId|
            0 <= i < pre.rooms@.len() && #[trigger] post.rooms@[i].members@.contains(x)
                ==> pre.rooms@[i].members@.contains(x),
    ensures
        forall|i: int| 0 <= i < post.rooms@.len() ==> post.room_ok(#[trigger] post.rooms@[i]),
{
    assert forall|i: int| 0 <= i < post.rooms@.len() implies post.room_ok(
        #[trigger] post.rooms@[i],
    ) by {
        let newm = post.rooms@[i].members@;
        let oldm = pre.rooms@[i].members@;
        assert(pre.room_ok(pre.rooms@[i]));
        assert forall|k: int| 0 <= k < newm.len() implies (#[trigger] newm[k]) < post.next_id
            && post.people@[newm[k] as int].loc == post.rooms@[i].id by {
            let x = newm[k];
            assert(newm.contains(x));
            assert(oldm.contains(x));
            let j = choose|j: int| 0 <= j < oldm.len() && oldm[j] == x;
            assert(oldm[j] < pre.next_id);
        }
    }
}

/// Removing index `k` from a duplicate-free sequence removes exactly that
/// element.
proof fn lemma_ids_remove(pre: Seq<PersonId>, post: Seq<PersonId>, k: int)
    requires
        seq_distinct(pre),
        0 <= k < pre.len(),
        post == pre.remove(k),
    ensures
        seq_distinct(post),
        !post.contains(pre[k]),
        forall|x: PersonId| x != pre[k] ==> post.contains(x) == pre.contains(x),
        forall|x: PersonId| post.contains(x) ==> pre.contains(x),
{
    pre.remove_ensures(k);
    assert forall|i: int| 0 <= i < post.len() implies #[trigger] post[i] == (if i < k {
        pre[i]
    } else {
        pre[i + 1]
    }) by {}
    assert(seq_distinct(post));
    assert forall|i: int| 0 <= i < post.len() implies #[trigger] post[i] != pre[k] by {
        if i < k {
            assert(pre[i] != pre[k]);
        } else {
            assert(pre[i + 1] != pre[k]);
        }
    }
    assert forall|x: PersonId| x != pre[k] implies post.contains(x) == pre.contains(x) by {
        if pre.contains(x) {
            let w = choose|i: int| 0 <= i < pre.len() && pre[i] == x;
            if w < k {
                assert(post[w] == x);
            } else {
                assert(w > k);
                assert(post[w - 1] == x);
            }
        }
        if post.contains(x) {
            let w = choose|i: int| 0 <= i < post.len() && post[i] == x;
            if w < k {
                assert(pre[w] == x);
            } else {
                assert(pre[w + 1] == x);
            }
        }
    }
    assert forall|x: PersonId| post.contains(x) implies pre.contains(x) by {
        let w = choose|i: int| 0 <= i < post.len() && post[i] == x;
        if w < k {
            assert(pre[w] == x);
        } else {
            assert(pre[w + 1] == x);
        }
    }
}

/// Remove `id` from a duplicate-free member list, if present.
fn remove_id(v: &mut Vec<PersonId>, id: PersonId)
    requires
        seq_distinct(old(v)@),
    ensures
        seq_distinct(final(v)@),
        !final(v)@.contains(id),
        forall|x: PersonId| x != id ==> final(v)@.contains(x) == old(v)@.contains(x),
        forall|x: PersonId| final(v)@.contains(x) ==> old(v)@.contains(x),
        !old(v)@.contains(id) ==> final(v)@ == old(v)@,
{
    let n = v.len();
    let mut i: usize = 0;
    while i < n
        invariant
            i <= n,
            n == v@.len(),
            v@ == old(v)@,
            seq_distinct(v@),
            forall|k: int| 0 <= k < i ==> (#[trigger] v@[k]) != id,
        decreases n - i,
    {
        if v[i] == id {
            proof {
                assert(v@[i as int] == id);
                assert(v@.contains(id));
            }
            let ghost pre = v@;
            v.remove(i);
            proof {
                lemma_ids_remove(pre, v@, i as int);
            }
            return ;
        }
        i = i + 1;
    }
}

/// Add `id` to a duplicate-free member list, if it is not already there.
fn insert_id(v: &mut Vec<PersonId>, id: PersonId)
    requires
        seq_distinct(old(v)@),
    ensures
        seq_distinct(final(v)@),
        final(v)@.contains(id),
        forall|x: PersonId| x != id ==> final(v)@.contains(x) == old(v)@.contains(x),
        forall|x: PersonId| final(v)@.contains(x) ==> old(v)@.contains(x) || x == id,
{
    let n = v.len();
    let mut i: usize = 0;
    while i < n
        invariant
            i <= n,
            n == v@.len(),
            v@ == old(v)@,
            seq_distinct(v@),
            forall|k: int| 0 <= k < i ==> (#[trigger] v@[k]) != id,
        decreases n - i,
    {
        if v[i] == id {
            proof {
                assert(v@[i as int] == id);
            }
            return ;
        }
        i = i + 1;
    }
    let ghost pre = v@;
    v.push(id);
    proof {
        assert(v@[pre.len() as int] == id);
        assert forall|x: PersonId| x != id implies v@.contains(x) == pre.contains(x) by {
            vstd::seq_lib::lemma_seq_contains_after_push(pre, id, x);
        }
        assert forall|i: int, j: int| 0 <= i < j < v@.len() implies v@[i] != v@[j] by {
            if j < pre.len() {
            } else {
                assert(v@[j] == id);
                assert(pre[i] != id);
            }
        }
    }
}

/// Append `m` to the open queue registered for `id`, if there is one.
fn deliver(conns: &mut Vec<ConnEntry>, id: PersonId, m: &Message)
    requires
        cids_distinct(old(conns)@),
    ensures
        final(conns)@.len() == old(conns)@.len(),
        forall|i: int|
            #![auto]
            0 <= i < old(conns)@.len() ==> final(conns)@[i].id == old(conns)@[i].id
                && final(conns)@[i].conn == old(conns)@[i].conn && final(conns)@[i].open
                == old(conns)@[i].open,
        forall|i: int|
            #![auto]
            0 <= i < old(conns)@.len() ==> if old(conns)@[i].id == id && old(conns)@[i].open {
                final(conns)@[i].queue@ == old(conns)@[i].queue@.push(*m)
            } else {
                final(conns)@[i] == old(conns)@[i]
            },
{
    let n = conns.len();
    let mut i: usize = 0;
    while i < n
        invariant
            i <= n,
            n == conns@.len(),
            conns@ == old(conns)@,
            cids_distinct(conns@),
            forall|k: int| 0 <= k < i ==> (#[trigger] conns@[k]).id != id,
        decreases n - i,
    {
        if conns[i].id == id {
            if conns[i].open {
                let msg = m.clone();
                conns[i].queue.push(msg);
            }
            return ;
        }
        i = i + 1;
    }
}

/// Lifts an entry-by-entry description of one fan-out to the id-level
/// `delivered` predicate.
proof fn lemma_elementwise_delivered(pre: State, post: State, targets: Set<PersonId>, m: Message)
    requires
        cids_distinct(pre.conns@),
        post.conns@.len() == pre.conns@.len(),
        forall|i: int|
            #![auto]
            0 <= i < pre.conns@.len() ==> post.conns@[i].id == pre.conns@[i].id
                && post.conns@[i].conn == pre.conns@[i].conn && post.conns@[i].open
                == pre.conns@[i].open,
        forall|i: int|
            #![auto]
            0 <= i < pre.conns@.len() ==> if pre.conns@[i].open && targets.contains(
                pre.conns@[i].id,
            ) {
                post.conns@[i].queue@ == pre.conns@[i].queue@.push(m)
            } else {
                post.conns@[i].queue@ == pre.conns@[i].queue@
            },
    ensures
        delivered(pre, post, targets, m),
{
    lemma_conns_same_ids(pre.conns@, post.conns@);
    assert forall|id: PersonId| #![auto] post.has_queue(id) == pre.has_queue(id) && (pre.has_queue(
        id,
    ) ==> post.queue_open(id) == pre.queue_open(id) && post.conn_of(id) == pre.conn_of(id) && (
    if pre.queue_open(id) && targets.contains(id) {
        post.queue_of(id) == pre.queue_of(id).push(m)
    } else {
        post.queue_of(id) == pre.queue_of(id)
    })) by {
        if chas(pre.conns@, id) {
            lemma_cidx(pre.conns@, id);
        }
    }
}

/// After an update that keeps every entry's id (and hence distinctness),
/// lookups agree between the two connection tables entry by entry.
proof fn lemma_conns_same_ids(pre: Seq<ConnEntry>, post: Seq<ConnEntry>)
    requires
        cids_distinct(pre),
        post.len() == pre.len(),
        forall|i: int| 0 <= i < pre.len() ==> (#[trigger] post[i]).id == pre[i].id,
    ensures
        cids_distinct(post),
        forall|x: PersonId| chas(post, x) == chas(pre, x),
        forall|x: PersonId| #[trigger] chas(pre, x) ==> cidx(post, x) == cidx(pre, x),
{
    assert forall|x: PersonId| chas(post, x) == chas(pre, x) by {
        if chas(pre, x) {
            let w = cidx(pre, x);
            assert(post[w].id == x);
        }
        if chas(post, x) {
            let w = choose|i: int| 0 <= i < post.len() && post[i].id == x;
            assert(pre[w].id == x);
        }
    }
    assert forall|x: PersonId| #[trigger] chas(pre, x) implies cidx(post, x) == cidx(pre, x) by {
        lemma_cidx(pre, x);
        let a = cidx(pre, x);
        assert(post[a].id == x);
        let b = cidx(post, x);
        assert(0 <= b < post.len() && post[b].id == x);
        assert(pre[b].id == x);
    }
}

/// Removing entry `k` removes exactly its identity from the table:
/// every other identity keeps its entry unchanged.
proof fn lemma_conns_remove(pre: Seq<ConnEntry>, post: Seq<ConnEntry>, k: int)
    requires
        cids_distinct(pre),
        0 <= k < pre.len(),
        post == pre.remove(k),
    ensures
        cids_distinct(post),
        !chas(post, pre[k].id),
        forall|x: PersonId| x != pre[k].id ==> chas(post, x) == chas(pre, x),
        forall|x: PersonId|
            x != pre[k].id && #[trigger] chas(pre, x) ==> chas(post, x) && post[cidx(post, x)]
                == pre[cidx(pre, x)],
{
    pre.remove_ensures(k);
    assert(post.len() == pre.len() - 1);
    assert forall|i: int| 0 <= i < post.len() implies (#[trigger] post[i]).id == (if i < k {
        pre[i].id
    } else {
        pre[i + 1].id
    }) by {}
    assert(cids_distinct(post));
    assert forall|i: int| 0 <= i < post.len() implies (#[trigger] post[i]).id != pre[k].id by {
        if i < k {
            assert(pre[i].id != pre[k].id);
        } else {
            assert(pre[i + 1].id != pre[k].id);
        }
    }
    assert forall|x: PersonId| x != pre[k].id implies chas(post, x) == chas(pre, x) by {
        if chas(pre, x) {
            let w = cidx(pre, x);
            lemma_cidx(pre, x);
            if w < k {
                assert(post[w].id == x);
            } else {
                assert(w > k);
                assert(post[w - 1].id == x);
            }
        }
        if chas(post, x) {
            let w = choose|i: int| 0 <= i < post.len() && post[i].id == x;
            if w < k {
                assert(pre[w].id == x);
            } else {
                assert(pre[w + 1].id == x);
            }
        }
    }
    assert forall|x: PersonId| x != pre[k].id && #[trigger] chas(pre, x) implies chas(post, x)
        && post[cidx(post, x)] == pre[cidx(pre, x)] by {
        lemma_cidx(pre, x);
        let a = cidx(pre, x);
        if a < k {
            assert(post[a] == pre[a]);
            assert(post[a].id == x);
        } else {
            assert(a > k);
            assert(post[a - 1] == pre[a]);
            assert(post[a - 1].id == x);
        }
        lemma_cidx(post, x);
        let b = cidx(post, x);
        if b < k {
            assert(pre[b].id == x);
            assert(b == a);
        } else {
            assert(pre[b + 1].id == x);
            assert(b + 1 == a);
        }
    }
}

} // verus!
