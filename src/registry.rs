use std::collections::HashMap;
use vstd::hash_map::StringHashMap;
use vstd::prelude::*;
use vstd::std_specs::hash::spec_keys_iter;
use vstd::utf8::{decode_utf8, valid_utf8};
use crate::header::{MediaHeader, spec_parse};
use vstd::std_specs::hash::spec_hash_map_iter;
use vstd::std_specs::iter::IteratorSpec;

verus! {

broadcast use vstd::std_specs::hash::group_hash_axioms;

/// A user's media session within a room: the token that admits the user, and
/// the live transport handle while the user is connected.
pub struct UserSession<C> {
    pub user_id: u32,
    pub token: String,
    pub connection: Option<C>,
}

/// A media room: its users by id.
pub struct Room<C> {
    pub room_id: u32,
    pub users: HashMap<u32, UserSession<C>>,
}

/// Why the registry refused an admission.
#[derive(Debug, Clone, Copy, PartialEq, Eq, Structural)]
pub enum AdmitError {
    /// The room does not exist.
    NoSuchRoom,
    /// The token already admits another user.
    TokenInUse,
}

/// Why a connection's first datagram does not authenticate it.
#[derive(Debug, Clone, Copy, PartialEq, Eq, Structural)]
pub enum AuthError {
    /// The datagram is not UTF-8.
    InvalidToken,
    /// No session holds the token.
    UnknownToken,
}

/// QUIC application close code of a connection that fails authentication.
pub const AUTH_CLOSE_CODE: u32 = 1;

impl AuthError {
    /// The reason sent with the close of a connection that fails
    /// authentication.
    pub fn close_reason(&self) -> (r: &'static str)
        ensures
            r@ == match self {
                AuthError::InvalidToken => "invalid token"@,
                AuthError::UnknownToken => "unknown token"@,
            },
    {
        match self {
            AuthError::InvalidToken => "invalid token",
            AuthError::UnknownToken => "unknown token",
        }
    }
}

/// Why a datagram of an authenticated connection is not forwarded.
#[derive(Debug, Clone, Copy, PartialEq, Eq, Structural)]
pub enum ForwardError {
    /// The datagram is shorter than a media header.
    HeaderTooShort,
    /// The header names another room or user than the authenticated one.
    IdentityMismatch,
}

/// The user ids of a list of peers, in order.
pub open spec fn peer_ids<C>(v: Seq<(u32, C)>) -> Seq<u32> {
    v.map_values(|p: (u32, C)| p.0)
}

proof fn lemma_peer_ids<C>(v: Seq<(u32, C)>, t: Set<u32>)
    requires
        forall|j: int| 0 <= j < v.len() ==> t.contains(#[trigger] v[j].0),
        forall|u: u32| #[trigger] t.contains(u) ==> exists|j: int| 0 <= j < v.len() && v[j].0 == u,
        forall|j: int, k: int| 0 <= j < k < v.len() ==> v[j].0 != v[k].0,
    ensures
        peer_ids(v).to_set() == t,
        peer_ids(v).no_duplicates(),
{
    let ids = peer_ids(v);
    assert forall|u: u32| ids.to_set().contains(u) <==> t.contains(u) by {
        if t.contains(u) {
            let j = choose|j: int| 0 <= j < v.len() && v[j].0 == u;
            assert(ids[j] == u);
        }
        if ids.to_set().contains(u) {
            let j = choose|j: int| 0 <= j < ids.len() && ids[j] == u;
            assert(t.contains(v[j].0));
        }
    }
    assert(ids.to_set() =~= t);
    assert forall|j: int, k: int| 0 <= j < ids.len() && 0 <= k < ids.len() && j != k implies ids[j]
        != ids[k] by {
        if j < k {
            assert(v[j].0 != v[k].0);
        } else {
            assert(v[k].0 != v[j].0);
        }
    }
}

/// Relies on `std::str::from_utf8`: it accepts exactly the byte strings that
/// are well-formed UTF-8, and the string it hands back has those bytes.
#[verifier::external_body]
fn utf8_str(bytes: &[u8]) -> (r: Option<&str>)
    ensures
        r is Some <==> valid_utf8(bytes@),
        r matches Some(s) ==> s@ == decode_utf8(bytes@),
{
    std::str::from_utf8(bytes).ok()
}

/// What the registry knows of one session.
pub struct SessionModel<C> {
    pub token: Seq<char>,
    pub connection: Option<C>,
}

/// The registry as mathematics: each room's sessions by user id, and the
/// token index.
pub struct RegistryModel<C> {
    pub rooms: Map<u32, Map<u32, SessionModel<C>>>,
    pub tokens: Map<Seq<char>, (u32, u32)>,
}

impl<C> RegistryModel<C> {
    /// The registry with no rooms.
    pub open spec fn empty() -> Self {
        RegistryModel { rooms: Map::empty(), tokens: Map::empty() }
    }

    /// Whether `(room, user)` has a session.
    pub open spec fn has_session(self, room: u32, user: u32) -> bool {
        self.rooms.contains_key(room) && self.rooms[room].contains_key(user)
    }

    /// Every indexed token resolves to the session that holds it, and every
    /// session's token is indexed to that session.
    pub open spec fn tokens_consistent(self) -> bool {
        &&& forall|t: Seq<char>| #[trigger]
            self.tokens.contains_key(t) ==> {
                let (r, u) = self.tokens[t];
                self.has_session(r, u) && self.rooms[r][u].token == t
            }
        &&& forall|r: u32, u: u32| #[trigger]
            self.has_session(r, u) ==> {
                let t = self.rooms[r][u].token;
                self.tokens.contains_key(t) && self.tokens[t] == (r, u)
            }
    }

    /// `add_room`: a room that exists is left as it is.
    pub open spec fn add_room(self, room: u32) -> Self {
        if self.rooms.contains_key(room) {
            self
        } else {
            RegistryModel { rooms: self.rooms.insert(room, Map::empty()), tokens: self.tokens }
        }
    }

    /// The tokens of the sessions of the given users of a room.
    pub open spec fn tokens_of(self, room: u32, users: Set<u32>) -> Set<Seq<char>> {
        Set::new(
            |t: Seq<char>|
                exists|u: u32|
                    users.contains(u) && #[trigger] self.has_session(room, u)
                        && self.rooms[room][u].token == t,
        )
    }

    /// The tokens of the sessions of a room.
    pub open spec fn room_tokens(self, room: u32) -> Set<Seq<char>> {
        self.tokens_of(room, self.rooms[room].dom())
    }

    /// `remove_room`: the room goes, and with it the tokens of its sessions.
    pub open spec fn remove_room(self, room: u32) -> Self {
        if self.rooms.contains_key(room) {
            RegistryModel {
                rooms: self.rooms.remove(room),
                tokens: self.tokens.remove_keys(self.room_tokens(room)),
            }
        } else {
            self
        }
    }

    /// Whether `admit_user` refuses, and why.
    pub open spec fn admit_error(self, room: u32, user: u32, token: Seq<char>) -> Option<
        AdmitError,
    > {
        if !self.rooms.contains_key(room) {
            Some(AdmitError::NoSuchRoom)
        } else if self.tokens.contains_key(token) && self.tokens[token] != (room, user) {
            Some(AdmitError::TokenInUse)
        } else {
            None
        }
    }

    /// `admit_user`: a fresh session without transport replaces any earlier
    /// one of the same user, whose token leaves the index.
    pub open spec fn admit_user(self, room: u32, user: u32, token: Seq<char>) -> Self {
        if self.admit_error(room, user, token) is Some {
            self
        } else {
            let old_tokens = if self.rooms[room].contains_key(user) {
                self.tokens.remove(self.rooms[room][user].token)
            } else {
                self.tokens
            };
            RegistryModel {
                rooms: self.rooms.insert(
                    room,
                    self.rooms[room].insert(user, SessionModel { token, connection: None }),
                ),
                tokens: old_tokens.insert(token, (room, user)),
            }
        }
    }

    /// `remove_user`: the session goes, and its token with it.
    pub open spec fn remove_user(self, room: u32, user: u32) -> Self {
        if self.has_session(room, user) {
            RegistryModel {
                rooms: self.rooms.insert(room, self.rooms[room].remove(user)),
                tokens: self.tokens.remove(self.rooms[room][user].token),
            }
        } else {
            self
        }
    }

    /// Sets (or, with `None`, clears) the transport of an existing session.
    pub open spec fn set_connection(self, room: u32, user: u32, c: Option<C>) -> Self {
        if self.has_session(room, user) {
            let s = self.rooms[room][user];
            RegistryModel {
                rooms: self.rooms.insert(
                    room,
                    self.rooms[room].insert(user, SessionModel { token: s.token, connection: c }),
                ),
                tokens: self.tokens,
            }
        } else {
            self
        }
    }

    /// The users of `room` other than `sender` that have a live transport.
    pub open spec fn targets(self, room: u32, sender: u32) -> Set<u32> {
        Set::new(
            |u: u32|
                u != sender && self.has_session(room, u) && self.rooms[room][u].connection is Some,
        )
    }
}

proof fn lemma_add_room_consistent<C>(m: RegistryModel<C>, room: u32)
    requires
        m.tokens_consistent(),
    ensures
        m.add_room(room).tokens_consistent(),
{
    let n = m.add_room(room);
    assert forall|r: u32, u: u32| #[trigger] n.has_session(r, u) implies m.has_session(r, u)
        && n.rooms[r][u] == m.rooms[r][u] by {}
    assert forall|r: u32, u: u32| #[trigger] m.has_session(r, u) implies n.has_session(r, u)
        && n.rooms[r][u] == m.rooms[r][u] by {}
}

proof fn lemma_admit_user_consistent<C>(m: RegistryModel<C>, room: u32, user: u32, token: Seq<char>)
    requires
        m.tokens_consistent(),
    ensures
        m.admit_user(room, user, token).tokens_consistent(),
{
    let n = m.admit_user(room, user, token);
    if m.admit_error(room, user, token) is None {
        assert forall|r: u32, u: u32| #[trigger] n.has_session(r, u) implies {
            let t = n.rooms[r][u].token;
            n.tokens.contains_key(t) && n.tokens[t] == (r, u)
        } by {
            if r != room || u != user {
                assert(m.has_session(r, u));
                assert(n.rooms[r][u] == m.rooms[r][u]);
                let t = m.rooms[r][u].token;
                assert(m.tokens[t] == (r, u));
                assert(t != token);
                if m.rooms[room].contains_key(user) {
                    assert(m.has_session(room, user));
                    let p = m.rooms[room][user].token;
                    assert(m.tokens[p] == (room, user));
                    assert(t != p);
                }
            }
        }
        assert forall|t: Seq<char>| #[trigger] n.tokens.contains_key(t) implies {
            let (r, u) = n.tokens[t];
            n.has_session(r, u) && n.rooms[r][u].token == t
        } by {
            if t != token {
                assert(m.tokens.contains_key(t));
                let (r, u) = m.tokens[t];
                assert(m.has_session(r, u));
                if r == room && u == user {
                    assert(m.rooms[room][user].token == t);
                    assert(false);
                }
            }
        }
    }
}

proof fn lemma_remove_user_consistent<C>(m: RegistryModel<C>, room: u32, user: u32)
    requires
        m.tokens_consistent(),
    ensures
        m.remove_user(room, user).tokens_consistent(),
{
    let n = m.remove_user(room, user);
    if m.has_session(room, user) {
        let gone = m.rooms[room][user].token;
        assert forall|r: u32, u: u32| #[trigger] n.has_session(r, u) implies {
            let t = n.rooms[r][u].token;
            n.tokens.contains_key(t) && n.tokens[t] == (r, u)
        } by {
            assert(m.has_session(r, u));
            assert(n.rooms[r][u] == m.rooms[r][u]);
            let t = m.rooms[r][u].token;
            assert(m.tokens[t] == (r, u));
            assert(m.tokens[gone] == (room, user));
        }
        assert forall|t: Seq<char>| #[trigger] n.tokens.contains_key(t) implies {
            let (r, u) = n.tokens[t];
            n.has_session(r, u) && n.rooms[r][u].token == t
        } by {
            assert(m.tokens.contains_key(t));
            let (r, u) = m.tokens[t];
            assert(m.has_session(r, u));
        }
    }
}

proof fn lemma_set_connection_consistent<C>(m: RegistryModel<C>, room: u32, user: u32, c: Option<C>)
    requires
        m.tokens_consistent(),
    ensures
        m.set_connection(room, user, c).tokens_consistent(),
{
    let n = m.set_connection(room, user, c);
    assert forall|r: u32, u: u32| #[trigger] n.has_session(r, u) implies m.has_session(r, u)
        && n.rooms[r][u].token == m.rooms[r][u].token by {}
    assert forall|r: u32, u: u32| #[trigger] m.has_session(r, u) implies n.has_session(r, u)
        && n.rooms[r][u].token == m.rooms[r][u].token by {}
}

proof fn lemma_tokens_of_insert<C>(m: RegistryModel<C>, room: u32, users: Set<u32>, u: u32)
    requires
        m.has_session(room, u),
    ensures
        m.tokens_of(room, users.insert(u)) == m.tokens_of(room, users).insert(
            m.rooms[room][u].token,
        ),
{
    assert(m.tokens_of(room, users.insert(u)) =~= m.tokens_of(room, users).insert(
        m.rooms[room][u].token,
    ));
}

proof fn lemma_remove_room_consistent<C>(m: RegistryModel<C>, room: u32)
    requires
        m.tokens_consistent(),
    ensures
        m.remove_room(room).tokens_consistent(),
{
    let n = m.remove_room(room);
    if m.rooms.contains_key(room) {
        assert forall|r: u32, u: u32| #[trigger] n.has_session(r, u) implies {
            let t = n.rooms[r][u].token;
            n.tokens.contains_key(t) && n.tokens[t] == (r, u)
        } by {
            assert(m.has_session(r, u));
            let t = m.rooms[r][u].token;
            assert(m.tokens[t] == (r, u));
            if m.room_tokens(room).contains(t) {
                let w = choose|w: u32|
                    m.rooms[room].dom().contains(w) && #[trigger] m.has_session(room, w)
                        && m.rooms[room][w].token == t;
                assert(m.tokens[t] == (room, w));
            }
        }
        assert forall|t: Seq<char>| #[trigger] n.tokens.contains_key(t) implies {
            let (r, u) = n.tokens[t];
            n.has_session(r, u) && n.rooms[r][u].token == t
        } by {
            assert(m.tokens.contains_key(t));
            let (r, u) = m.tokens[t];
            assert(m.has_session(r, u));
            if r == room {
                assert(m.room_tokens(room).contains(t));
            }
        }
    }
}

/// The room and user registry: rooms, their sessions, and the token index.
pub struct State<C> {
    rooms: HashMap<u32, Room<C>>,
    token_index: StringHashMap<(u32, u32)>,
}

/// The model of one stored session.
pub open spec fn session_model<C>(s: UserSession<C>) -> SessionModel<C> {
    SessionModel { token: s.token@, connection: s.connection }
}

/// The model of one stored room.
pub open spec fn room_model<C>(r: Room<C>) -> Map<u32, SessionModel<C>> {
    r.users@.map_values(|s: UserSession<C>| session_model(s))
}

proof fn lemma_rooms_insert<C>(m: Map<u32, Room<C>>, r: u32, room: Room<C>)
    ensures
        m.insert(r, room).map_values(|x: Room<C>| room_model(x)) == m.map_values(
            |x: Room<C>| room_model(x),
        ).insert(r, room_model(room)),
{
    assert(m.insert(r, room).map_values(|x: Room<C>| room_model(x)) =~= m.map_values(
        |x: Room<C>| room_model(x),
    ).insert(r, room_model(room)));
}

proof fn lemma_rooms_remove<C>(m: Map<u32, Room<C>>, r: u32)
    ensures
        m.remove(r).map_values(|x: Room<C>| room_model(x)) == m.map_values(
            |x: Room<C>| room_model(x),
        ).remove(r),
{
    assert(m.remove(r).map_values(|x: Room<C>| room_model(x)) =~= m.map_values(
        |x: Room<C>| room_model(x),
    ).remove(r));
}

proof fn lemma_users_insert<C>(m: Map<u32, UserSession<C>>, u: u32, s: UserSession<C>)
    ensures
        m.insert(u, s).map_values(|x: UserSession<C>| session_model(x)) == m.map_values(
            |x: UserSession<C>| session_model(x),
        ).insert(u, session_model(s)),
{
    assert(m.insert(u, s).map_values(|x: UserSession<C>| session_model(x)) =~= m.map_values(
        |x: UserSession<C>| session_model(x),
    ).insert(u, session_model(s)));
}

proof fn lemma_users_remove<C>(m: Map<u32, UserSession<C>>, u: u32)
    ensures
        m.remove(u).map_values(|x: UserSession<C>| session_model(x)) == m.map_values(
            |x: UserSession<C>| session_model(x),
        ).remove(u),
{
    assert(m.remove(u).map_values(|x: UserSession<C>| session_model(x)) =~= m.map_values(
        |x: UserSession<C>| session_model(x),
    ).remove(u));
}

impl<C> View for State<C> {
    type V = RegistryModel<C>;

    closed spec fn view(&self) -> RegistryModel<C> {
        RegistryModel {
            rooms: self.rooms@.map_values(|r: Room<C>| room_model(r)),
            tokens: self.token_index@,
        }
    }
}

impl<C> State<C> {
    /// Internal consistency: each room and session is stored under its own id,
    /// and the token index agrees with the sessions.
    pub closed spec fn wf(&self) -> bool {
        &&& forall|r: u32| #[trigger]
            self.rooms@.contains_key(r) ==> self.rooms@[r].room_id == r
        &&& forall|r: u32, u: u32|
            self.rooms@.contains_key(r) && #[trigger] self.rooms@[r].users@.contains_key(u)
                ==> self.rooms@[r].users@[u].user_id == u
        &&& self@.tokens_consistent()
    }

    /// An empty registry.
    pub fn new() -> (s: Self)
        ensures
            s.wf(),
            s@ == RegistryModel::<C>::empty(),
    {
        let s = State { rooms: HashMap::new(), token_index: StringHashMap::new() };
        assert(s@.rooms =~= Map::empty());
        s
    }

    /// Creates a room; a room that exists is left untouched.
    pub fn add_room(&mut self, room_id: u32)
        requires
            old(self).wf(),
        ensures
            final(self).wf(),
            final(self)@ == old(self)@.add_room(room_id),
    {
        if !self.rooms.contains_key(&room_id) {
            let room = Room { room_id, users: HashMap::new() };
            assert(room_model(room) =~= Map::empty());
            self.rooms.insert(room_id, room);
            proof {
                lemma_rooms_insert(old(self).rooms@, room_id, room);
            }
        }
        assert(self@ == old(self)@.add_room(room_id));
        proof {
            lemma_add_room_consistent(old(self)@, room_id);
        }
    }

    /// Admits a user to an existing room under a token. A session of the same
    /// user is replaced, and its token purged from the index; the new session
    /// has no transport yet. Fails, changing nothing, when the room does not
    /// exist or when the token already admits another user.
    pub fn admit_user(&mut self, room_id: u32, user_id: u32, token: &str) -> (r: Result<
        (),
        AdmitError,
    >)
        requires
            old(self).wf(),
        ensures
            final(self).wf(),
            final(self)@ == old(self)@.admit_user(room_id, user_id, token@),
            r matches Err(e) ==> old(self)@.admit_error(room_id, user_id, token@) == Some(e),
            r is Ok ==> old(self)@.admit_error(room_id, user_id, token@) is None,
    {
        let ghost m = self@;
        let taken = match self.token_index.get(token) {
            Some(ids) => ids.0 != room_id || ids.1 != user_id,
            None => false,
        };
        let removed = self.rooms.remove(&room_id);
        match removed {
            None => {
                assert(self.rooms@ =~= old(self).rooms@);
                Err(AdmitError::NoSuchRoom)
            },
            Some(mut room) => {
                if taken {
                    self.rooms.insert(room_id, room);
                    assert(self.rooms@ =~= old(self).rooms@);
                    return Err(AdmitError::TokenInUse);
                }
                let ghost users0 = room.users@;
                let session = UserSession { user_id, token: token.to_owned(), connection: None };
                let previous = room.users.insert(user_id, session);
                if let Some(p) = previous {
                    self.token_index.remove(p.token.as_str());
                }
                self.token_index.insert(token.to_owned(), (room_id, user_id));
                proof {
                    lemma_users_insert(users0, user_id, session);
                    lemma_rooms_remove(old(self).rooms@, room_id);
                    lemma_rooms_insert(old(self).rooms@.remove(room_id), room_id, room);
                    assert(old(self).rooms@.remove(room_id).insert(room_id, room) =~= old(
                        self,
                    ).rooms@.insert(room_id, room));
                    lemma_rooms_insert(old(self).rooms@, room_id, room);
                }
                self.rooms.insert(room_id, room);
                assert(self@.rooms =~= m.admit_user(room_id, user_id, token@).rooms);
                assert(self@.tokens =~= m.admit_user(room_id, user_id, token@).tokens);
                proof {
                    lemma_admit_user_consistent(m, room_id, user_id, token@);
                }
                Ok(())
            },
        }
    }

    /// Removes a user's session, if there is one, and purges its token.
    pub fn remove_user(&mut self, room_id: u32, user_id: u32)
        requires
            old(self).wf(),
        ensures
            final(self).wf(),
            final(self)@ == old(self)@.remove_user(room_id, user_id),
    {
        let ghost m = self@;
        let removed = self.rooms.remove(&room_id);
        if let Some(mut room) = removed {
            let ghost users0 = room.users@;
            assert(old(self).rooms@[room_id] == room);
            assert(m.rooms[room_id] == room_model(room));
            let gone = room.users.remove(&user_id);
            assert(room.users@ == users0.remove(user_id));
            if let Some(session) = gone {
                self.token_index.remove(session.token.as_str());
            }
            proof {
                lemma_users_remove(users0, user_id);
                lemma_rooms_insert(old(self).rooms@, room_id, room);
            }
            assert(room_model(room) == m.rooms[room_id].remove(user_id));
            self.rooms.insert(room_id, room);
            assert(self.rooms@ =~= old(self).rooms@.insert(room_id, room));
            assert(self@.rooms == m.rooms.insert(room_id, m.rooms[room_id].remove(user_id)));
            proof {
                if !m.rooms[room_id].contains_key(user_id) {
                    assert(m.rooms[room_id].remove(user_id) =~= m.rooms[room_id]);
                }
            }
            assert(self@.rooms =~= m.remove_user(room_id, user_id).rooms);
            assert(self@.tokens =~= m.remove_user(room_id, user_id).tokens);
        } else {
            assert(self.rooms@ =~= old(self).rooms@);
        }
        proof {
            lemma_remove_user_consistent(m, room_id, user_id);
        }
    }

    /// Sets (or, with `None`, clears) the live transport of a session; does
    /// nothing when the session is gone.
    fn put_connection(&mut self, room_id: u32, user_id: u32, connection: Option<C>)
        requires
            old(self).wf(),
        ensures
            final(self).wf(),
            final(self)@ == old(self)@.set_connection(room_id, user_id, connection),
    {
        let ghost m = self@;
        let removed = self.rooms.remove(&room_id);
        if let Some(mut room) = removed {
            let ghost users0 = room.users@;
            assert(old(self).rooms@[room_id] == room);
            assert(m.rooms[room_id] == room_model(room));
            let taken = room.users.remove(&user_id);
            if let Some(session) = taken {
                let updated = UserSession { user_id, token: session.token, connection };
                assert(users0[user_id] == session);
                room.users.insert(user_id, updated);
                assert(room.users@ =~= users0.insert(user_id, updated));
                proof {
                    lemma_users_insert(users0, user_id, updated);
                }
                assert(room_model(room) == m.rooms[room_id].insert(
                    user_id,
                    SessionModel { token: m.rooms[room_id][user_id].token, connection },
                ));
            } else {
                assert(room.users@ =~= users0);
            }
            proof {
                lemma_rooms_insert(old(self).rooms@, room_id, room);
            }
            self.rooms.insert(room_id, room);
            assert(self.rooms@ =~= old(self).rooms@.insert(room_id, room));
            proof {
                if !m.rooms[room_id].contains_key(user_id) {
                    assert(m.rooms.insert(room_id, m.rooms[room_id]) =~= m.rooms);
                }
            }
            assert(self@.rooms =~= m.set_connection(room_id, user_id, connection).rooms);
        } else {
            assert(self.rooms@ =~= old(self).rooms@);
        }
        proof {
            lemma_set_connection_consistent(m, room_id, user_id, connection);
        }
    }

    /// Installs the live transport of an authenticated session; does nothing
    /// when the session has been removed meanwhile.
    pub fn set_connection(&mut self, room_id: u32, user_id: u32, connection: C)
        requires
            old(self).wf(),
        ensures
            final(self).wf(),
            final(self)@ == old(self)@.set_connection(room_id, user_id, Some(connection)),
    {
        self.put_connection(room_id, user_id, Some(connection));
    }

    /// Clears the live transport of a session; does nothing when the session
    /// has been removed meanwhile.
    pub fn clear_connection(&mut self, room_id: u32, user_id: u32)
        requires
            old(self).wf(),
        ensures
            final(self).wf(),
            final(self)@ == old(self)@.set_connection(room_id, user_id, None),
    {
        self.put_connection(room_id, user_id, None);
    }

    /// Removes a room, and with it the tokens of all its sessions and their
    /// live transports. Does nothing when there is no such room.
    pub fn remove_room(&mut self, room_id: u32)
        requires
            old(self).wf(),
        ensures
            final(self).wf(),
            final(self)@ == old(self)@.remove_room(room_id),
    {
        let ghost m = self@;
        let removed = self.rooms.remove(&room_id);
        match removed {
            None => {
                assert(self.rooms@ =~= old(self).rooms@);
            },
            Some(room) => {
                assert(old(self).rooms@[room_id] == room);
                let ghost mut done: Set<u32> = Set::empty();
                let ghost items = spec_hash_map_iter(&room.users).remaining();
                assert(m.tokens_of(room_id, done) =~= Set::empty());
                assert(self.token_index@ =~= m.tokens.remove_keys(Set::empty()));
                for entry in it: room.users.iter()
                    invariant
                        self.rooms@ == old(self).rooms@.remove(room_id),
                        m == old(self)@,
                        room == old(self).rooms@[room_id],
                        old(self).rooms@.contains_key(room_id),
                        it.seq() == items,
                        forall|u: u32| done.contains(u) ==> m.has_session(room_id, u),
                        forall|i: int|
                            0 <= i < it.index() ==> done.contains(*(#[trigger] it.seq()[i]).0),
                        self.token_index@ == m.tokens.remove_keys(m.tokens_of(room_id, done)),
                {
                    let (uid, session) = entry;
                    proof {
                        assert(room.users@.contains_key(*uid) && room.users@[*uid] == *session);
                        lemma_tokens_of_insert(m, room_id, done, *uid);
                        done = done.insert(*uid);
                    }
                    self.token_index.remove(session.token.as_str());
                    assert(self.token_index@ =~= m.tokens.remove_keys(m.tokens_of(room_id, done)));
                }
                proof {
                    assert forall|u: u32| #[trigger] m.rooms[room_id].contains_key(u) implies done.contains(u) by {
                        assert(items.contains((&u, &room.users@[u])));
                        let i = choose|i: int| 0 <= i < items.len() && items[i] == (&u, &room.users@[u]);
                        assert(done.contains(*items[i].0));
                    }
                    assert(done =~= m.rooms[room_id].dom());
                    lemma_rooms_remove(old(self).rooms@, room_id);
                }
                assert(self@.rooms =~= m.remove_room(room_id).rooms);
                assert(self@.tokens =~= m.remove_room(room_id).tokens);
            },
        }
        proof {
            lemma_remove_room_consistent(m, room_id);
        }
    }

    /// The users of a room, or `None` when there is no such room.
    pub fn get_room_users(&self, room_id: u32) -> (r: Option<Vec<u32>>)
        requires
            self.wf(),
        ensures
            r is None <==> !self@.rooms.contains_key(room_id),
            r matches Some(v) ==> v@.to_set() == self@.rooms[room_id].dom() && v@.no_duplicates(),
    {
        match self.rooms.get(&room_id) {
            None => None,
            Some(room) => {
                let mut v: Vec<u32> = Vec::new();
                let ghost items = spec_keys_iter(&room.users).remaining();
                for uid in it: room.users.keys()
                    invariant
                        it.seq() == items,
                        items.unref().to_set() == room.users@.dom(),
                        items.no_duplicates(),
                        v@ == items.unref().take(it.index()),
                {
                    assert(items.unref().take(it.index() + 1) =~= items.unref().take(
                        it.index(),
                    ).push(*uid));
                    v.push(*uid);
                }
                assert(v@ =~= items.unref());
                assert(self@.rooms[room_id] == room_model(*room));
                assert(self@.rooms[room_id].dom() =~= room.users@.dom());
                proof {
                    assert forall|i: int, j: int|
                        0 <= i < v@.len() && 0 <= j < v@.len() && i != j implies v@[i] != v@[j] by {
                        assert(items[i] != items[j]);
                    }
                }
                Some(v)
            },
        }
    }

    /// Looks up the `(room, user)` that a token admits.
    pub fn resolve_token(&self, token: &str) -> (r: Option<(u32, u32)>)
        requires
            self.wf(),
        ensures
            r == self@.tokens.get(token@),
    {
        match self.token_index.get(token) {
            Some(ids) => Some(*ids),
            None => None,
        }
    }

    /// Authenticates a connection by its first datagram, the bare UTF-8
    /// token: the `(room, user)` that the token admits.
    pub fn authenticate(&self, token_data: &[u8]) -> (r: Result<(u32, u32), AuthError>)
        requires
            self.wf(),
        ensures
            r == Err::<(u32, u32), AuthError>(AuthError::InvalidToken) <==> !valid_utf8(token_data@),
            valid_utf8(token_data@) ==> r == match self@.tokens.get(decode_utf8(token_data@)) {
                Some(ids) => Ok(ids),
                None => Err(AuthError::UnknownToken),
            },
    {
        match utf8_str(token_data) {
            None => Err(AuthError::InvalidToken),
            Some(token) => match self.resolve_token(token) {
                Some(ids) => Ok(ids),
                None => Err(AuthError::UnknownToken),
            },
        }
    }
}

impl<C: Clone> State<C> {
    /// The live transports of the users of a room other than `sender`, each
    /// with its user id, once each.
    pub fn peers(&self, room_id: u32, sender: u32) -> (r: Vec<(u32, C)>)
        requires
            self.wf(),
        ensures
            forall|j: int|
                0 <= j < r.len() ==> self@.targets(room_id, sender).contains(#[trigger] r@[j].0)
                    && cloned(self@.rooms[room_id][r@[j].0].connection.unwrap(), r@[j].1),
            forall|u: u32| #[trigger]
                self@.targets(room_id, sender).contains(u) ==> exists|j: int|
                    0 <= j < r.len() && r@[j].0 == u,
            forall|j: int, k: int| 0 <= j < k < r.len() ==> r@[j].0 != r@[k].0,
            peer_ids(r@).to_set() == self@.targets(room_id, sender),
            peer_ids(r@).no_duplicates(),
    {
        let mut out: Vec<(u32, C)> = Vec::new();
        match self.rooms.get(&room_id) {
            None => {},
            Some(room) => {
                let ghost m = self@;
                let ghost items = spec_hash_map_iter(&room.users).remaining();
                let ghost mut src: Seq<int> = Seq::empty();
                assert(m.rooms[room_id] == room_model(*room));
                for entry in it: room.users.iter()
                    invariant
                        it.seq() == items,
                        m == self@,
                        m.rooms.contains_key(room_id),
                        m.rooms[room_id] == room_model(*room),
                        items.no_duplicates(),
                        forall|i: int|
                            0 <= i < items.len() ==> room.users@.contains_key(*(#[trigger] items[i]).0)
                                && room.users@[*items[i].0] == *items[i].1,
                        forall|j: int|
                            0 <= j < out.len() ==> m.targets(room_id, sender).contains(
                                #[trigger] out@[j].0,
                            ) && cloned(m.rooms[room_id][out@[j].0].connection.unwrap(), out@[j].1),
                        src.len() == out.len(),
                        forall|j: int|
                            0 <= j < out.len() ==> 0 <= #[trigger] src[j] < it.index() && *items[src[j]].0
                                == out@[j].0,
                        forall|i: int|
                            0 <= i < it.index() && m.targets(room_id, sender).contains(
                                *(#[trigger] items[i]).0,
                            ) ==> exists|j: int| 0 <= j < out.len() && out@[j].0 == *items[i].0,
                        forall|j: int, k: int| 0 <= j < k < out.len() ==> out@[j].0 != out@[k].0,
                {
                    let (uid, session) = entry;
                    let ghost idx = it.index();
                    let ghost out0 = out@;
                    assert(*uid == *items[idx].0);
                    if *uid != sender {
                        match &session.connection {
                            Some(c) => {
                                let handle = c.clone();
                                proof {
                                    assert forall|j: int| 0 <= j < out.len() implies out@[j].0 != *uid by {
                                        let i = src[j];
                                        if *items[i].0 == *uid {
                                            assert(items[i] == items[idx]);
                                        }
                                    }
                                    src = src.push(idx);
                                }
                                out.push((*uid, handle));
                            },
                            None => {},
                        }
                    }
                    proof {
                        assert forall|i: int|
                            0 <= i <= idx && m.targets(room_id, sender).contains(
                                *(#[trigger] items[i]).0,
                            ) implies exists|j: int| 0 <= j < out.len() && out@[j].0 == *items[i].0 by {
                            if i == idx {
                                assert(out@[out.len() - 1].0 == *items[i].0);
                            } else {
                                let j = choose|j: int| 0 <= j < out0.len() && out0[j].0 == *items[i].0;
                                assert(out@[j] == out0[j]);
                            }
                        }
                    }
                }
                proof {
                    assert forall|u: u32| #[trigger]
                        m.targets(room_id, sender).contains(u) implies exists|j: int|
                            0 <= j < out.len() && out@[j].0 == u by {
                        assert(room.users@.contains_key(u));
                        assert(items.contains((&u, &room.users@[u])));
                        let i = choose|i: int|
                            0 <= i < items.len() && items[i] == (&u, &room.users@[u]);
                        assert(m.targets(room_id, sender).contains(*items[i].0));
                    }
                }
            },
        }
        proof {
            lemma_peer_ids(out@, self@.targets(room_id, sender));
        }
        out
    }

    /// The forwarding decision for a datagram that the authenticated
    /// `(room_id, sender)` sent: the peers to send it to, or why it is
    /// dropped. A datagram is never sent back to its sender.
    pub fn forward_targets(&self, data: &[u8], room_id: u32, sender: u32) -> (r: Result<
        Vec<(u32, C)>,
        ForwardError,
    >)
        requires
            self.wf(),
        ensures
            r == Err::<Vec<(u32, C)>, ForwardError>(ForwardError::HeaderTooShort) <==> spec_parse(
                data@,
            ) is None,
            r == Err::<Vec<(u32, C)>, ForwardError>(ForwardError::IdentityMismatch) <==> (
            spec_parse(data@) matches Some(h) && (h.room_id != room_id || h.user_id != sender)),
            r is Ok ==> (spec_parse(data@) matches Some(h) && h.room_id == room_id && h.user_id
                == sender),
            r matches Ok(v) ==> {
                &&& forall|j: int|
                    0 <= j < v.len() ==> self@.targets(room_id, sender).contains(#[trigger] v@[j].0)
                        && cloned(self@.rooms[room_id][v@[j].0].connection.unwrap(), v@[j].1)
                &&& forall|u: u32| #[trigger]
                    self@.targets(room_id, sender).contains(u) ==> exists|j: int|
                        0 <= j < v.len() && v@[j].0 == u
                &&& forall|j: int, k: int| 0 <= j < k < v.len() ==> v@[j].0 != v@[k].0
                &&& peer_ids(v@).to_set() == self@.targets(room_id, sender)
                &&& peer_ids(v@).no_duplicates()
            },
    {
        match MediaHeader::parse(data) {
            None => Err(ForwardError::HeaderTooShort),
            Some(h) => {
                if h.room_id != room_id || h.user_id != sender {
                    Err(ForwardError::IdentityMismatch)
                } else {
                    Ok(self.peers(room_id, sender))
                }
            },
        }
    }
}

/// One update of the registry, as the host or a connection makes it.
pub enum RegistryOp<C> {
    AddRoom(u32),
    RemoveRoom(u32),
    AdmitUser(u32, u32, Seq<char>),
    RemoveUser(u32, u32),
    SetConnection(u32, u32, Option<C>),
}

impl<C> RegistryModel<C> {
    /// The registry after one update.
    pub open spec fn apply(self, op: RegistryOp<C>) -> Self {
        match op {
            RegistryOp::AddRoom(r) => self.add_room(r),
            RegistryOp::RemoveRoom(r) => self.remove_room(r),
            RegistryOp::AdmitUser(r, u, t) => self.admit_user(r, u, t),
            RegistryOp::RemoveUser(r, u) => self.remove_user(r, u),
            RegistryOp::SetConnection(r, u, c) => self.set_connection(r, u, c),
        }
    }

    /// The registry after a sequence of updates, in order.
    pub open spec fn apply_all(self, ops: Seq<RegistryOp<C>>) -> Self
        decreases ops.len(),
    {
        if ops.len() == 0 {
            self
        } else {
            self.apply(ops[0]).apply_all(ops.subrange(1, ops.len() as int))
        }
    }
}

/// Whether an update admits `user` to `room`.
pub open spec fn admits<C>(op: RegistryOp<C>, room: u32, user: u32) -> bool {
    op matches RegistryOp::AdmitUser(r, u, _) && r == room && u == user
}

/// Token index consistency: whatever sequence of updates is applied to a
/// consistent registry (the empty one, say), every indexed token resolves to
/// an existing session of the room it names, and every session's token is
/// indexed to that session.
pub proof fn lemma_token_index_consistent<C>(m: RegistryModel<C>, ops: Seq<RegistryOp<C>>)
    requires
        m.tokens_consistent(),
    ensures
        m.apply_all(ops).tokens_consistent(),
    decreases ops.len(),
{
    if ops.len() > 0 {
        let n = m.apply(ops[0]);
        match ops[0] {
            RegistryOp::AddRoom(r) => lemma_add_room_consistent(m, r),
            RegistryOp::RemoveRoom(r) => lemma_remove_room_consistent(m, r),
            RegistryOp::AdmitUser(r, u, t) => lemma_admit_user_consistent(m, r, u, t),
            RegistryOp::RemoveUser(r, u) => lemma_remove_user_consistent(m, r, u),
            RegistryOp::SetConnection(r, u, c) => lemma_set_connection_consistent(m, r, u, c),
        }
        lemma_token_index_consistent(n, ops.subrange(1, ops.len() as int));
    }
}

proof fn lemma_absent_session_stays_absent<C>(
    m: RegistryModel<C>,
    room: u32,
    user: u32,
    ops: Seq<RegistryOp<C>>,
)
    requires
        !m.has_session(room, user),
        forall|i: int| 0 <= i < ops.len() ==> !admits(#[trigger] ops[i], room, user),
    ensures
        !m.apply_all(ops).has_session(room, user),
    decreases ops.len(),
{
    if ops.len() > 0 {
        let n = m.apply(ops[0]);
        assert(!admits(ops[0], room, user));
        assert(!n.has_session(room, user));
        let rest = ops.subrange(1, ops.len() as int);
        assert forall|i: int| 0 <= i < rest.len() implies !admits(#[trigger] rest[i], room, user) by {
            assert(rest[i] == ops[i + 1]);
        }
        lemma_absent_session_stays_absent(n, room, user, rest);
    }
}

/// No orphan transports, for a removed user: once `remove_user(room, user)`
/// has run, no later forwarding in that room targets the user, whatever
/// updates follow, as long as none admits the user to the room again.
pub proof fn lemma_removed_user_not_targeted<C>(
    m: RegistryModel<C>,
    room: u32,
    user: u32,
    later: Seq<RegistryOp<C>>,
    sender: u32,
)
    requires
        forall|i: int| 0 <= i < later.len() ==> !admits(#[trigger] later[i], room, user),
    ensures
        !m.remove_user(room, user).apply_all(later).targets(room, sender).contains(user),
{
    lemma_absent_session_stays_absent(m.remove_user(room, user), room, user, later);
}

/// No orphan transports, for a removed room: once `remove_room(room)` has run,
/// no later forwarding in that room targets any of its former users, whatever
/// updates follow, as long as none admits that user to the room again.
pub proof fn lemma_removed_room_not_targeted<C>(
    m: RegistryModel<C>,
    room: u32,
    user: u32,
    later: Seq<RegistryOp<C>>,
    sender: u32,
)
    requires
        forall|i: int| 0 <= i < later.len() ==> !admits(#[trigger] later[i], room, user),
    ensures
        !m.remove_room(room).apply_all(later).targets(room, sender).contains(user),
{
    lemma_absent_session_stays_absent(m.remove_room(room), room, user, later);
}

/// Whether an update installs the transport handle `c`.
pub open spec fn installs<C>(op: RegistryOp<C>, c: C) -> bool {
    op matches RegistryOp::SetConnection(_, _, Some(x)) && x == c
}

/// Whether no session of the registry holds the transport handle `c`.
pub open spec fn handle_unheld<C>(m: RegistryModel<C>, c: C) -> bool {
    forall|r: u32, u: u32| #[trigger]
        m.has_session(r, u) ==> m.rooms[r][u].connection != Some(c)
}

proof fn lemma_unheld_stays_unheld<C>(m: RegistryModel<C>, c: C, ops: Seq<RegistryOp<C>>)
    requires
        handle_unheld(m, c),
        forall|i: int| 0 <= i < ops.len() ==> !installs(#[trigger] ops[i], c),
    ensures
        handle_unheld(m.apply_all(ops), c),
    decreases ops.len(),
{
    if ops.len() > 0 {
        let n = m.apply(ops[0]);
        assert(!installs(ops[0], c));
        assert forall|r: u32, u: u32| #[trigger] n.has_session(r, u) implies n.rooms[r][u].connection
            != Some(c) by {
            if m.has_session(r, u) {
                assert(m.rooms[r][u].connection != Some(c));
            }
        }
        let rest = ops.subrange(1, ops.len() as int);
        assert forall|i: int| 0 <= i < rest.len() implies !installs(#[trigger] rest[i], c) by {
            assert(rest[i] == ops[i + 1]);
        }
        lemma_unheld_stays_unheld(n, c, rest);
    }
}

/// No orphan transports, for the handle of a removed user: if only the
/// session of `user` in `room` held the transport handle `c`, then once
/// `remove_user(room, user)` has run, no session holds `c`, and so no
/// forwarding targets it, whatever updates follow (re-admissions included),
/// as long as none installs `c` again.
pub proof fn lemma_removed_user_handle_unheld<C>(
    m: RegistryModel<C>,
    room: u32,
    user: u32,
    c: C,
    later: Seq<RegistryOp<C>>,
)
    requires
        forall|r: u32, u: u32|
            m.has_session(r, u) && #[trigger] m.rooms[r][u].connection == Some(c) ==> r == room
                && u == user,
        forall|i: int| 0 <= i < later.len() ==> !installs(#[trigger] later[i], c),
    ensures
        handle_unheld(m.remove_user(room, user).apply_all(later), c),
{
    let n = m.remove_user(room, user);
    assert forall|r: u32, u: u32| #[trigger] n.has_session(r, u) implies n.rooms[r][u].connection
        != Some(c) by {
        assert(m.has_session(r, u) && n.rooms[r][u] == m.rooms[r][u]);
    }
    lemma_unheld_stays_unheld(n, c, later);
}

/// No orphan transports, for the handles of a removed room: if only sessions
/// of `room` held the transport handle `c`, then once `remove_room(room)` has
/// run, no session holds `c`, whatever updates follow, as long as none
/// installs `c` again.
pub proof fn lemma_removed_room_handle_unheld<C>(
    m: RegistryModel<C>,
    room: u32,
    c: C,
    later: Seq<RegistryOp<C>>,
)
    requires
        forall|r: u32, u: u32|
            m.has_session(r, u) && #[trigger] m.rooms[r][u].connection == Some(c) ==> r == room,
        forall|i: int| 0 <= i < later.len() ==> !installs(#[trigger] later[i], c),
    ensures
        handle_unheld(m.remove_room(room).apply_all(later), c),
{
    let n = m.remove_room(room);
    assert forall|r: u32, u: u32| #[trigger] n.has_session(r, u) implies n.rooms[r][u].connection
        != Some(c) by {
        assert(m.has_session(r, u) && n.rooms[r][u] == m.rooms[r][u]);
    }
    lemma_unheld_stays_unheld(n, c, later);
}

/// A handle that no session holds is not among the transports of any
/// forwarding target.
pub proof fn lemma_unheld_handle_not_targeted<C>(m: RegistryModel<C>, c: C, room: u32, sender: u32, u: u32)
    requires
        handle_unheld(m, c),
        m.targets(room, sender).contains(u),
    ensures
        m.rooms[room][u].connection != Some(c),
{
}

} // verus!
