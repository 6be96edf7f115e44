//! Connections and the registry of rooms ("parties"), each with a roster of
//! player identifiers and one guarded, lazily created board.

use crate::digsites::DigSite;
use dashmap::{DashMap, DashSet};
use std::sync::{Arc, Mutex};
use vstd::prelude::*;
use vstd::string::*;

verus! {

#[verifier::external_type_specification]
#[verifier::external_body]
#[verifier::reject_recursive_types(K)]
#[verifier::reject_recursive_types(V)]
#[verifier::reject_recursive_types(S)]
pub struct ExDashMap<K, V, S>(DashMap<K, V, S>);

#[verifier::external_type_specification]
#[verifier::external_body]
#[verifier::reject_recursive_types(K)]
#[verifier::reject_recursive_types(S)]
pub struct ExDashSet<K, S>(DashSet<K, S>);

#[verifier::external_type_specification]
#[verifier::external_body]
#[verifier::reject_recursive_types(T)]
pub struct ExMutex<T: ?Sized>(Mutex<T>);

/// Relies on `Mutex::new`: an unlocked mutex around `t`.
pub assume_specification<T>[ Mutex::<T>::new ](t: T) -> Mutex<T>;

/// The parties that a registry map holds, by room identifier.
pub uninterp spec fn parties_in(m: DashMap<String, Party>) -> Map<Seq<char>, Party>;

/// The identifiers that a roster holds.
pub uninterp spec fn names_in(s: DashSet<String>) -> Set<Seq<char>>;

/// Relies on `DashMap::new`: an empty map.
#[verifier::external_body]
fn parties_new() -> (r: DashMap<String, Party>)
    ensures
        parties_in(r).is_empty(),
{
    DashMap::new()
}

/// Relies on `DashMap::get`: the party under `key`, if any, handed out as a
/// copy made by `Party::share`.
#[verifier::external_body]
fn parties_get(m: &DashMap<String, Party>, key: &String) -> (r: Option<Party>)
    ensures
        r is Some <==> parties_in(*m).contains_key(key@),
        r is Some ==> r->Some_0@ == parties_in(*m)[key@]@,
        r is Some ==> r->Some_0.board() == parties_in(*m)[key@].board(),
{
    m.get(key).map(|p| p.share())
}

/// Relies on `DashMap::insert`: `value` under `key`, replacing any party
/// that was there.
#[verifier::external_body]
fn parties_insert(m: &mut DashMap<String, Party>, key: String, value: Party)
    ensures
        parties_in(*final(m)) == parties_in(*old(m)).insert(key@, value),
{
    m.insert(key, value);
}

/// Relies on `DashMap::remove`: takes out the party under `key`, if any.
#[verifier::external_body]
fn parties_remove(m: &mut DashMap<String, Party>, key: &String) -> (r: Option<Party>)
    ensures
        parties_in(*final(m)) == parties_in(*old(m)).remove(key@),
        r is Some <==> parties_in(*old(m)).contains_key(key@),
        r is Some ==> r->Some_0 == parties_in(*old(m))[key@],
{
    m.remove(key).map(|entry| entry.1)
}

/// Relies on `DashSet::new`: an empty set.
#[verifier::external_body]
fn names_new() -> (r: DashSet<String>)
    ensures
        names_in(r) == Set::<Seq<char>>::empty(),
{
    DashSet::new()
}

/// Relies on `DashSet::insert`: adds `name`.
#[verifier::external_body]
fn names_insert(s: &mut DashSet<String>, name: String)
    ensures
        names_in(*final(s)) == names_in(*old(s)).insert(name@),
{
    s.insert(name);
}

/// Relies on `DashSet::remove`: takes `name` out, if it is there.
#[verifier::external_body]
fn names_remove(s: &mut DashSet<String>, name: &String)
    ensures
        names_in(*final(s)) == names_in(*old(s)).remove(name@),
{
    s.remove(name);
}

/// Relies on `DashSet::is_empty`: whether the set holds nothing.
#[verifier::external_body]
fn names_is_empty(s: &DashSet<String>) -> (r: bool)
    ensures
        r == (names_in(*s) == Set::<Seq<char>>::empty()),
{
    s.is_empty()
}

/// Relies on `DashSet::contains`: whether `name` is in the set.
#[verifier::external_body]
fn names_contains(s: &DashSet<String>, name: &String) -> (r: bool)
    ensures
        r == names_in(*s).contains(name@),
{
    s.contains(name)
}

/// Relies on `DashSet::iter`: each identifier of the set once, in no
/// promised order.
#[verifier::external_body]
fn names_list(s: &DashSet<String>) -> (r: Vec<String>)
    ensures
        forall|n: Seq<char>| names_in(*s).contains(n) <==> exists|k: int| 0 <= k < r@.len() && (#[trigger] r@[k])@ == n,
        forall|a: int, b: int| 0 <= a < b < r@.len() ==> (#[trigger] r@[a])@ != (#[trigger] r@[b])@,
{
    s.iter().map(|name| name.key().clone()).collect()
}

/// Relies on `DashSet::clone`: a new set with the same identifiers.
#[verifier::external_body]
fn names_clone(s: &DashSet<String>) -> (r: DashSet<String>)
    ensures
        names_in(r) == names_in(*s),
{
    s.clone()
}

/// Relies on `Arc::clone`: a second handle on the same guarded board.
#[verifier::external_body]
fn share_board(g: &Arc<Mutex<Option<DigSite>>>) -> (r: Arc<Mutex<Option<DigSite>>>)
    ensures
        r == *g,
{
    Arc::clone(g)
}

/// A user as the authentication service describes it.
#[derive(Debug, Clone)]
pub struct DiscordUser {
    pub id: String,
    pub username: String,
    pub global_name: Option<String>,
    pub avatar: Option<String>,
}

impl DiscordUser {
    /// The name to show: the global name where there is one, else the
    /// username.
    pub fn name(&self) -> (r: String)
        ensures
            r@ == match self.global_name {
                Some(g) => g@,
                None => self.username@,
            },
    {
        match &self.global_name {
            Some(g) => g.clone(),
            None => self.username.clone(),
        }
    }
}

/// What a client sends when it connects: the room it joins and its access
/// token.
#[derive(Debug)]
pub struct ConnectionQueryString {
    iid: String,
    aut: String,
}

impl ConnectionQueryString {
    /// The query of a client joining room `iid` with access token `aut`.
    pub fn new(iid: String, aut: String) -> (r: ConnectionQueryString)
        ensures
            r.room_spec() == iid@,
            r.token_spec() == aut@,
    {
        ConnectionQueryString { iid, aut }
    }

    /// The room that the client joins.
    pub closed spec fn room_spec(&self) -> Seq<char> {
        self.iid@
    }

    /// The client's access token.
    pub closed spec fn token_spec(&self) -> Seq<char> {
        self.aut@
    }

    /// The value of an HTTP `Authorization` header that carries the token:
    /// `Bearer ` followed by it.
    pub fn bearer_token(&self) -> (r: String)
        ensures
            r@ == seq!['B', 'e', 'a', 'r', 'e', 'r', ' '] + self.token_spec(),
    {
        proof {
            reveal_strlit("Bearer ");
        }
        String::from_str("Bearer ").concat(self.aut.as_str())
    }
}

/// An authenticated connection: the room it belongs to and its user.
#[derive(Debug, Clone)]
pub struct Connection {
    iid: String,
    pub user: DiscordUser,
}

impl Connection {
    /// The connection of `user`, in the room that `qs` names.
    pub fn new(qs: ConnectionQueryString, user: DiscordUser) -> (r: Connection)
        ensures
            r.room_spec() == qs.room_spec(),
            r.user_spec() == user,
    {
        Connection { iid: qs.iid, user }
    }

    /// The room that the connection belongs to.
    pub closed spec fn room_spec(&self) -> Seq<char> {
        self.iid@
    }

    /// The connection's user.
    pub closed spec fn user_spec(&self) -> DiscordUser {
        self.user
    }

    /// The identifier of the connection's room.
    pub fn room(&self) -> (r: String)
        ensures
            r@ == self.room_spec(),
    {
        self.iid.clone()
    }
}

/// A room: its identifier, the identifiers of its players, and its board
/// behind a mutex, absent until the first game is generated.
#[derive(Debug)]
pub struct Party {
    id: String,
    players: DashSet<String>,
    game: Arc<Mutex<Option<DigSite>>>,
}

/// A room as values: its identifier and its roster.
pub struct PartyView {
    pub id: Seq<char>,
    pub players: Set<Seq<char>>,
}

impl View for Party {
    type V = PartyView;

    closed spec fn view(&self) -> PartyView {
        PartyView { id: self.id@, players: names_in(self.players) }
    }
}

impl Party {
    /// An empty room called `id`, with no board yet.
    pub fn new(id: String) -> (r: Party)
        ensures
            r@.id == id@,
            r@.players == Set::<Seq<char>>::empty(),
    {
        Party { id, players: names_new(), game: Arc::new(Mutex::new(None)) }
    }

    /// A second handle on the same room: a copy of the roster and the same
    /// guarded board.
    pub fn share(&self) -> (r: Party)
        ensures
            r@ == self@,
            r.board() == self.board(),
    {
        Party { id: self.id.clone(), players: names_clone(&self.players), game: share_board(&self.game) }
    }

    /// The room's identifier.
    pub fn id(&self) -> (r: String)
        ensures
            r@ == self@.id,
    {
        self.id.clone()
    }

    /// The identifiers of the room's players, each once, in no promised
    /// order.
    pub fn players(&self) -> (r: Vec<String>)
        ensures
            forall|n: Seq<char>| self@.players.contains(n) <==> exists|k: int| 0 <= k < r@.len() && (#[trigger] r@[k])@ == n,
            forall|a: int, b: int| 0 <= a < b < r@.len() ==> (#[trigger] r@[a])@ != (#[trigger] r@[b])@,
    {
        names_list(&self.players)
    }

    /// Whether a player called `uid` is in the room.
    pub fn has_player(&self, uid: &String) -> (r: bool)
        ensures
            r == self@.players.contains(uid@),
    {
        names_contains(&self.players, uid)
    }

    /// The room's guarded board, shared by every handle on the room.
    pub closed spec fn board(&self) -> Arc<Mutex<Option<DigSite>>> {
        self.game
    }

    /// The room's guarded board.
    pub fn game(&self) -> (r: Arc<Mutex<Option<DigSite>>>)
        ensures
            r == self.board(),
    {
        share_board(&self.game)
    }
}

/// The registry of rooms.
#[derive(Debug)]
pub struct Parties {
    rooms: DashMap<String, Party>,
}

impl View for Parties {
    type V = Map<Seq<char>, Set<Seq<char>>>;

    /// Each room's roster, by room identifier.
    closed spec fn view(&self) -> Map<Seq<char>, Set<Seq<char>>> {
        parties_in(self.rooms).map_values(|p: Party| p@.players)
    }
}

impl Parties {
    /// Each room's guarded board, by room identifier.
    pub closed spec fn boards(&self) -> Map<Seq<char>, Arc<Mutex<Option<DigSite>>>> {
        parties_in(self.rooms).map_values(|p: Party| p.board())
    }

    /// Every party is filed under its own identifier.
    pub closed spec fn wf(&self) -> bool {
        forall|k: Seq<char>| #[trigger] parties_in(self.rooms).contains_key(k) ==> parties_in(self.rooms)[k]@.id == k
    }

    /// An empty registry.
    pub fn new() -> (r: Parties)
        ensures
            r.wf(),
            r@ == Map::<Seq<char>, Set<Seq<char>>>::empty(),
            r.boards().dom() == Set::<Seq<char>>::empty(),
    {
        let r = Parties { rooms: parties_new() };
        proof {
            assert(r@ =~= Map::<Seq<char>, Set<Seq<char>>>::empty());
            assert(r.boards().dom() =~= Set::<Seq<char>>::empty());
        }
        r
    }

    /// The room called `id`, if there is one.
    pub fn get(&self, id: String) -> (r: Option<Party>)
        requires
            self.wf(),
        ensures
            r is Some <==> self@.contains_key(id@),
            r is Some ==> r->Some_0@.id == id@ && r->Some_0@.players == self@[id@],
            r is Some ==> r->Some_0.board() == self.boards()[id@],
    {
        parties_get(&self.rooms, &id)
    }

    /// Files `p` under its identifier, replacing any room of that name.
    pub fn add_party(&mut self, p: Party)
        requires
            old(self).wf(),
        ensures
            final(self).wf(),
            final(self)@ == old(self)@.insert(p@.id, p@.players),
            final(self).boards() == old(self).boards().insert(p@.id, p.board()),
    {
        let key = p.id.clone();
        let ghost pv = p@;
        let ghost pb = p.board();
        parties_insert(&mut self.rooms, key, p);
        proof {
            assert(self@ =~= old(self)@.insert(pv.id, pv.players));
            assert(self.boards() =~= old(self).boards().insert(pv.id, pb));
        }
    }

    /// Creates the room `id` if there is none, then adds `uid` to its
    /// roster.
    pub fn ensure_party(&mut self, id: String, uid: String)
        requires
            old(self).wf(),
        ensures
            final(self).wf(),
            final(self)@ == old(self)@.insert(
                id@,
                if old(self)@.contains_key(id@) {
                    old(self)@[id@]
                } else {
                    Set::<Seq<char>>::empty()
                }.insert(uid@),
            ),
            old(self).boards().contains_key(id@) ==> final(self).boards() == old(self).boards(),
            !old(self).boards().contains_key(id@) ==> final(self).boards() == old(self).boards().insert(
                id@,
                final(self).boards()[id@],
            ),
    {
        let mut party = match parties_remove(&mut self.rooms, &id) {
            Some(p) => p,
            None => Party::new(id.clone()),
        };
        names_insert(&mut party.players, uid);
        let ghost pv = party@;
        let ghost pb = party.board();
        parties_insert(&mut self.rooms, id, party);
        proof {
            assert(self@ =~= old(self)@.insert(id@, pv.players));
            assert(self.boards() =~= old(self).boards().insert(id@, pb));
            if old(self).boards().contains_key(id@) {
                assert(self.boards() =~= old(self).boards());
            }
        }
    }

    /// Removes `uid` from the room `id`. Where the roster is then empty the
    /// room is removed and the result is `true`; otherwise the result is
    /// `false`. An unknown room is left alone.
    pub fn on_player_left(&mut self, id: String, uid: String) -> (r: bool)
        requires
            old(self).wf(),
        ensures
            final(self).wf(),
            !old(self)@.contains_key(id@) ==> !r && final(self)@ == old(self)@,
            old(self)@.contains_key(id@) ==> r == (old(self)@[id@].remove(uid@) == Set::<Seq<char>>::empty()),
            old(self)@.contains_key(id@) && r ==> final(self)@ == old(self)@.remove(id@),
            old(self)@.contains_key(id@) && !r ==> final(self)@ == old(self)@.insert(id@, old(self)@[id@].remove(uid@)),
            !r ==> final(self).boards() == old(self).boards(),
            r ==> final(self).boards() == old(self).boards().remove(id@),
    {
        let mut party = match parties_remove(&mut self.rooms, &id) {
            Some(p) => p,
            None => {
                proof {
                    assert(self@ =~= old(self)@);
                    assert(self.boards() =~= old(self).boards());
                }
                return false;
            },
        };
        names_remove(&mut party.players, &uid);
        if names_is_empty(&party.players) {
            proof {
                assert(self@ =~= old(self)@.remove(id@));
                assert(self.boards() =~= old(self).boards().remove(id@));
            }
            true
        } else {
            let ghost pv = party@;
            let ghost pb = party.board();
            parties_insert(&mut self.rooms, id, party);
            proof {
                assert(self@ =~= old(self)@.insert(id@, pv.players));
                assert(self.boards() =~= old(self).boards());
            }
            false
        }
    }
}

impl Default for Parties {
    /// An empty registry.
    fn default() -> (r: Parties)
        ensures
            r.wf(),
            r@ == Map::<Seq<char>, Set<Seq<char>>>::empty(),
    {
        Parties::new()
    }
}

} // verus!
