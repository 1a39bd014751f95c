//! The client registry: who is connected, under which name and token, what
//! waits in each inbox, and who has been silent for too long. A client need
//! not be a player: one that connects while a game is on only watches.

use crate::client_set::ascending_ids;
use crate::client_set::lemma_bounded_set;
use crate::client_set::ClientSet;
use crate::client_set::MAX_PLAYERS;
use crate::error::MafiaGameError;
use crate::types::ClientId;
use crate::types::ClientInfo;
use crate::types::ClientInfoView;
use crate::types::Event;
use crate::types::EventView;
use crate::types::SessionToken;
use std::collections::HashMap;
use std::sync::Arc;
use vstd::prelude::*;

verus! {

/// State of a client.
pub struct Client {
    inbox: Vec<Arc<Event>>,
    info: ClientInfo,
    session_token: SessionToken,
    /// Seconds since the Unix epoch.
    last_active: u64,
    disconnected: bool,
}

/// What a client record stands for.
pub struct ClientView {
    pub info: ClientInfoView,
    pub session_token: SessionToken,
    pub last_active: u64,
    pub disconnected: bool,
    /// The events that wait for the client, oldest first.
    pub inbox: Seq<EventView>,
}

/// The views of the events behind shared references, in order.
pub open spec fn shared_event_views(events: Seq<Arc<Event>>) -> Seq<EventView> {
    events.map_values(|event: Arc<Event>| event@)
}

impl View for Client {
    type V = ClientView;

    closed spec fn view(&self) -> ClientView {
        ClientView {
            info: self.info@,
            session_token: self.session_token,
            last_active: self.last_active,
            disconnected: self.disconnected,
            inbox: shared_event_views(self.inbox@),
        }
    }
}

impl Client {
    pub fn get_info(&self) -> (info: &ClientInfo)
        ensures
            info@ == self@.info,
    {
        &self.info
    }

    pub fn is_disconnected(&self) -> (disconnected: bool)
        ensures
            disconnected == self@.disconnected,
    {
        self.disconnected
    }
}

impl ClientView {
    /// How long the client has been silent at `now`, in seconds; nothing if
    /// the clock went back.
    pub open spec fn inactivity(self, now: u64) -> int {
        if now >= self.last_active {
            now - self.last_active
        } else {
            0
        }
    }

    /// Whether a purge at `now` removes the client: it is disconnected, or
    /// has been silent for `max_inactive` seconds or more.
    pub open spec fn is_evicted(self, max_inactive: u64, now: u64) -> bool {
        self.disconnected || self.inactivity(now) >= max_inactive
    }

    /// The client with `event` added to its inbox.
    pub open spec fn with_event(self, event: EventView) -> ClientView {
        ClientView { inbox: self.inbox.push(event), ..self }
    }
}

/// What a registry is: the model that the contracts of `ClientState` speak
/// of.
pub struct RegistryView {
    /// The client records, by the number of their id.
    pub clients: Map<usize, ClientView>,
    /// The token index: which client a token authenticates.
    pub tokens: Map<u128, usize>,
}

impl RegistryView {
    /// Whether a client named `name` is on record.
    pub open spec fn knows_name(self, name: Seq<char>) -> bool {
        exists|id: usize| self.has_name(id, name)
    }

    /// Whether client `id` is on record under `name`.
    pub open spec fn has_name(self, id: usize, name: Seq<char>) -> bool {
        self.clients.contains_key(id) && self.clients[id].info.name == name
    }

    /// The client named `name`.
    pub open spec fn holder_of(self, name: Seq<char>) -> usize {
        choose|id: usize| self.has_name(id, name)
    }

    /// Whether `id` is the lowest id of the pool that no client has.
    pub open spec fn is_lowest_free(self, id: usize) -> bool {
        &&& id < MAX_PLAYERS
        &&& !self.clients.contains_key(id)
        &&& forall|below: usize| below < id ==> self.clients.contains_key(below)
    }

    /// Whether every id of the pool is taken.
    pub open spec fn is_full(self) -> bool {
        forall|id: usize| id < MAX_PLAYERS ==> self.clients.contains_key(id)
    }

    /// The lowest free id of the pool.
    pub open spec fn lowest_free(self) -> usize {
        choose|id: usize| self.is_lowest_free(id)
    }

    /// Whether a connection under `name` is refused because a connected
    /// client holds the name.
    pub open spec fn name_is_taken(self, name: Seq<char>) -> bool {
        self.knows_name(name) && !self.clients[self.holder_of(name)].disconnected
    }

    /// The id that a connection under `name` gets: that of the disconnected
    /// client of this name, else the lowest free one.
    pub open spec fn slot_for(self, name: Seq<char>) -> usize {
        if self.knows_name(name) {
            self.holder_of(name)
        } else {
            self.lowest_free()
        }
    }

    /// The registry after a connection under `name` with `token` at `now`. A
    /// client that comes back keeps its id; its old token leaves the index
    /// and its inbox starts empty. From now on the index leads from `token`
    /// to this client, whomever it led to before.
    pub open spec fn with_connection(
        self,
        name: Seq<char>,
        token: SessionToken,
        now: u64,
    ) -> RegistryView {
        let id = self.slot_for(name);
        let record = ClientView {
            info: ClientInfoView { name, id: ClientId(id) },
            session_token: token,
            last_active: now,
            disconnected: false,
            inbox: Seq::empty(),
        };
        let index = if self.knows_name(name) {
            self.tokens.remove(self.clients[id].session_token.0)
        } else {
            self.tokens
        };
        RegistryView {
            clients: self.clients.insert(id, record),
            tokens: index.insert(token.0, id),
        }
    }

    /// The registry after client `id` has disconnected: its inbox is dropped.
    pub open spec fn with_disconnect(self, id: usize) -> RegistryView {
        RegistryView {
            clients: self.clients.insert(
                id,
                ClientView { disconnected: true, inbox: Seq::empty(), ..self.clients[id] },
            ),
            ..self
        }
    }

    /// The registry after client `id` has shown itself at `now`.
    pub open spec fn with_activity(self, id: usize, now: u64) -> RegistryView {
        RegistryView {
            clients: self.clients.insert(
                id,
                ClientView { last_active: now, ..self.clients[id] },
            ),
            ..self
        }
    }

    /// Why `token` does not authenticate a client, if so: nobody holds it, or
    /// its holder is disconnected.
    pub open spec fn auth_fault(self, token: SessionToken) -> Option<MafiaGameError> {
        if !self.tokens.contains_key(token.0) {
            Some(MafiaGameError::InvalidSessionToken(token))
        } else if self.clients[self.tokens[token.0]].disconnected {
            Some(MafiaGameError::ClientDisconnected(ClientId(self.tokens[token.0])))
        } else {
            None
        }
    }

    /// Whether a purge at `now` removes client `id`.
    pub open spec fn evicts(self, id: usize, max_inactive: u64, now: u64) -> bool {
        self.clients.contains_key(id) && self.clients[id].is_evicted(max_inactive, now)
    }

    /// The clients that a purge at `now` removes although they were
    /// connected: those lost to silence.
    pub open spec fn lost(self, max_inactive: u64, now: u64) -> Set<usize> {
        Set::new(
            |id: usize| self.evicts(id, max_inactive, now) && !self.clients[id].disconnected,
        )
    }

    /// The registry after a purge at `now`: the evicted clients are gone, and
    /// so are their tokens.
    pub open spec fn purged(self, max_inactive: u64, now: u64) -> RegistryView {
        RegistryView {
            clients: Map::new(
                |id: usize| self.clients.contains_key(id) && !self.evicts(id, max_inactive, now),
                |id: usize| self.clients[id],
            ),
            tokens: Map::new(
                |token: u128|
                    self.tokens.contains_key(token) && !exists|id: usize|
                        self.evicts(id, max_inactive, now) && #[trigger] self.clients[id].session_token.0
                            == token,
                |token: u128| self.tokens[token],
            ),
        }
    }

    /// Whether `event` sent to `to` reaches client `id`: it must be a
    /// recipient, on record and connected.
    pub open spec fn reaches(self, to: Set<usize>, id: usize) -> bool {
        to.contains(id) && self.clients.contains_key(id) && !self.clients[id].disconnected
    }

    /// The registry after `event` was sent to `to`: it is appended to the
    /// inbox of each client it reaches.
    pub open spec fn with_event(self, to: Set<usize>, event: EventView) -> RegistryView {
        RegistryView {
            clients: Map::new(
                |id: usize| self.clients.contains_key(id),
                |id: usize|
                    if self.reaches(to, id) {
                        self.clients[id].with_event(event)
                    } else {
                        self.clients[id]
                    },
            ),
            ..self
        }
    }

    /// The events that wait for client `id`; none for an unknown client.
    pub open spec fn inbox_of(self, id: usize) -> Seq<EventView> {
        if self.clients.contains_key(id) {
            self.clients[id].inbox
        } else {
            Seq::empty()
        }
    }

    /// The registry after the inbox of client `id` was drained.
    pub open spec fn drained(self, id: usize) -> RegistryView {
        if self.clients.contains_key(id) {
            RegistryView {
                clients: self.clients.insert(
                    id,
                    ClientView { inbox: Seq::empty(), ..self.clients[id] },
                ),
                ..self
            }
        } else {
            self
        }
    }

    /// The connected clients.
    pub open spec fn connected(self) -> Set<usize> {
        Set::new(|id: usize| self.clients.contains_key(id) && !self.clients[id].disconnected)
    }

    /// The invariant of a registry: every client has an id of the pool and
    /// knows it; no two clients have one name; and every token of the index
    /// leads to a client on record whose token it is.
    pub open spec fn wf(self) -> bool {
        &&& forall|id: usize| #[trigger]
            self.clients.contains_key(id) ==> id < MAX_PLAYERS && self.clients[id].info.id
                == ClientId(id)
        &&& forall|a: usize, b: usize|
            self.clients.contains_key(a) && self.clients.contains_key(b)
                && #[trigger] self.clients[a].info.name == #[trigger] self.clients[b].info.name
                ==> a == b
        &&& forall|token: u128| #[trigger]
            self.tokens.contains_key(token) ==> self.clients.contains_key(self.tokens[token])
                && self.clients[self.tokens[token]].session_token.0 == token
    }
}

/// A connection that is not refused keeps the registry's invariant.
pub proof fn lemma_connection_keeps_wf(
    registry: RegistryView,
    name: Seq<char>,
    token: SessionToken,
    now: u64,
)
    requires
        registry.wf(),
        !registry.name_is_taken(name),
        registry.knows_name(name) || !registry.is_full(),
    ensures
        registry.with_connection(name, token, now).wf(),
        registry.slot_for(name) < MAX_PLAYERS,
        registry.knows_name(name) ==> registry.has_name(registry.slot_for(name), name),
        !registry.knows_name(name) ==> registry.is_lowest_free(registry.slot_for(name)),
{
    let after = registry.with_connection(name, token, now);
    let id = registry.slot_for(name);
    if !registry.knows_name(name) {
        registry.lemma_lowest_free();
    }
    assert forall|a: usize, b: usize|
        after.clients.contains_key(a) && after.clients.contains_key(b)
            && #[trigger] after.clients[a].info.name == #[trigger] after.clients[b].info.name
            implies a == b by {
        if a == id && b != id {
            assert(registry.has_name(b, name));
            assert(registry.has_name(id, name));
        }
        if b == id && a != id {
            assert(registry.has_name(a, name));
            assert(registry.has_name(id, name));
        }
    }
    assert forall|t: u128| #[trigger] after.tokens.contains_key(t) implies after.clients.contains_key(
        after.tokens[t],
    ) && after.clients[after.tokens[t]].session_token.0 == t by {
        if t != token.0 {
            assert(registry.tokens.contains_key(t));
        }
    }
}

impl RegistryView {
    /// A registry that is not full has a lowest free id.
    pub proof fn lemma_lowest_free(self)
        requires
            !self.is_full(),
        ensures
            self.is_lowest_free(self.lowest_free()),
    {
        let free = choose|id: usize| id < MAX_PLAYERS && !self.clients.contains_key(id);
        self.lemma_lowest_free_below(free);
    }

    proof fn lemma_lowest_free_below(self, free: usize)
        requires
            free < MAX_PLAYERS,
            !self.clients.contains_key(free),
        ensures
            exists|id: usize| self.is_lowest_free(id),
        decreases free,
    {
        if forall|below: usize| below < free ==> self.clients.contains_key(below) {
            assert(self.is_lowest_free(free));
        } else {
            let lower = choose|below: usize| below < free && !self.clients.contains_key(below);
            self.lemma_lowest_free_below(lower);
        }
    }
}

/// At most one connected client holds any given name.
pub proof fn lemma_connected_names_differ(registry: RegistryView, a: usize, b: usize)
    requires
        registry.wf(),
        registry.connected().contains(a),
        registry.connected().contains(b),
        registry.clients[a].info.name == registry.clients[b].info.name,
    ensures
        a == b,
{
}

impl RegistryView {
    /// Whether `token` authenticates client `id`: the index leads from the
    /// token to the client, and the client is connected.
    pub open spec fn authenticates(self, token: SessionToken, id: usize) -> bool {
        &&& self.tokens.contains_key(token.0)
        &&& self.tokens[token.0] == id
        &&& !self.clients[id].disconnected
    }
}

/// A token authenticates exactly one client or none. The client that it
/// authenticates is on record, is connected and holds the token.
pub proof fn lemma_token_authenticates_one(registry: RegistryView, token: SessionToken)
    requires
        registry.wf(),
    ensures
        match registry.auth_fault(token) {
            None => {
                let id = registry.tokens[token.0];
                &&& registry.authenticates(token, id)
                &&& registry.connected().contains(id)
                &&& registry.clients[id].session_token == token
                &&& forall|other: usize| registry.authenticates(token, other) ==> other == id
            },
            Some(_) => forall|id: usize| !registry.authenticates(token, id),
        },
{
}

/// The token that a client had before it came back no longer authenticates
/// anyone.
pub proof fn lemma_reconnect_revokes(
    registry: RegistryView,
    name: Seq<char>,
    token: SessionToken,
    now: u64,
)
    requires
        registry.wf(),
        registry.knows_name(name),
        !registry.name_is_taken(name),
        registry.clients[registry.holder_of(name)].session_token != token,
    ensures
        registry.with_connection(name, token, now).auth_fault(
            registry.clients[registry.holder_of(name)].session_token,
        ) == Some(
            MafiaGameError::InvalidSessionToken(
                registry.clients[registry.holder_of(name)].session_token,
            ),
        ),
{
}

/// A purge leaves only connected clients on record.
pub proof fn lemma_purged_are_connected(registry: RegistryView, max_inactive: u64, now: u64)
    ensures
        registry.purged(max_inactive, now).connected() == registry.purged(
            max_inactive,
            now,
        ).clients.dom(),
{
    let after = registry.purged(max_inactive, now);
    assert(after.connected() =~= after.clients.dom());
}

/// A connection changes the token index for its own token and, where a
/// client comes back, for the token that client had: after it the new token
/// leads to the client that connected, and every other token leads where it
/// led before or, if it is the old token of that client, nowhere.
pub proof fn lemma_connection_keeps_other_tokens(
    registry: RegistryView,
    name: Seq<char>,
    token: SessionToken,
    now: u64,
    other: SessionToken,
)
    requires
        registry.wf(),
        !registry.name_is_taken(name),
        registry.knows_name(name) || !registry.is_full(),
        other != token,
    ensures
        registry.with_connection(name, token, now).authenticates(token, registry.slot_for(name)),
        forall|id: usize|
            registry.with_connection(name, token, now).authenticates(token, id) ==> id
                == registry.slot_for(name),
        forall|id: usize|
            registry.with_connection(name, token, now).authenticates(other, id)
                ==> registry.tokens.contains_key(other.0) && registry.tokens[other.0] == id,
        registry.with_connection(name, token, now).tokens.contains_key(other.0) <==> (
        registry.tokens.contains_key(other.0) && !(registry.knows_name(name)
            && registry.clients[registry.slot_for(name)].session_token == other)),
{
    lemma_connection_keeps_wf(registry, name, token, now);
}

/// No more clients than the id pool has ids are on record at any time.
pub proof fn lemma_pool_bound(registry: RegistryView)
    requires
        registry.wf(),
    ensures
        registry.clients.dom().finite(),
        registry.clients.dom().len() <= MAX_PLAYERS,
{
    lemma_bounded_set(registry.clients.dom(), MAX_PLAYERS as int);
}

/// The views of a table of client records.
pub open spec fn client_views(clients: Map<usize, Client>) -> Map<usize, ClientView> {
    Map::new(|id: usize| clients.contains_key(id), |id: usize| clients[id]@)
}

/// The client registry.
pub struct ClientState {
    /// The client records by id.
    clients: HashMap<usize, Client>,
    /// Which client a session token authenticates.
    session_token_to_id: HashMap<u128, usize>,
    claimed_ids: ClientSet,
}

impl View for ClientState {
    type V = RegistryView;

    closed spec fn view(&self) -> RegistryView {
        RegistryView { clients: client_views(self.clients@), tokens: self.session_token_to_id@ }
    }
}

/// A second reference to a shared event: `Arc::clone` of std, which hands out
/// another pointer to the same value.
#[verifier::external_body]
fn share_event(event: &Arc<Event>) -> (shared: Arc<Event>)
    ensures
        shared == event,
{
    Arc::clone(event)
}

impl RegistryView {
    /// The registry while `event` is being sent: it has reached the clients
    /// below `limit`.
    spec fn with_event_below(self, to: Set<usize>, event: EventView, limit: int) -> RegistryView {
        RegistryView {
            clients: Map::new(
                |id: usize| self.clients.contains_key(id),
                |id: usize|
                    if id < limit && self.reaches(to, id) {
                        self.clients[id].with_event(event)
                    } else {
                        self.clients[id]
                    },
            ),
            ..self
        }
    }

    /// The registry while it is being purged: the clients below `limit` have
    /// been looked at.
    spec fn purged_below(self, max_inactive: u64, now: u64, limit: int) -> RegistryView {
        RegistryView {
            clients: Map::new(
                |id: usize|
                    self.clients.contains_key(id) && !(id < limit && self.evicts(
                        id,
                        max_inactive,
                        now,
                    )),
                |id: usize| self.clients[id],
            ),
            tokens: Map::new(
                |token: u128|
                    self.tokens.contains_key(token) && !exists|id: usize|
                        id < limit && self.evicts(id, max_inactive, now)
                            && #[trigger] self.clients[id].session_token.0 == token,
                |token: u128| self.tokens[token],
            ),
        }
    }
}

impl ClientState {
    /// Whether the set of claimed ids is that of the clients on record.
    pub closed spec fn claims_match(&self) -> bool {
        self.claimed_ids@ == self.clients@.dom()
    }

    /// The invariant of the registry.
    pub open spec fn wf(&self) -> bool {
        self@.wf() && self.claims_match()
    }

    /// How the model relates to the records at hand.
    proof fn lemma_record(&self, id: usize)
        ensures
            self@.clients.contains_key(id) == self.clients@.contains_key(id),
            self.clients@.contains_key(id) ==> self@.clients[id] == self.clients@[id]@,
            self@.tokens == self.session_token_to_id@,
    {
    }

    /// A registry without clients.
    pub fn new() -> (state: ClientState)
        ensures
            state.wf(),
            state@.clients == Map::<usize, ClientView>::empty(),
            state@.tokens == Map::<u128, usize>::empty(),
    {
        let state = ClientState {
            clients: HashMap::new(),
            session_token_to_id: HashMap::new(),
            claimed_ids: ClientSet::new(),
        };
        assert(state@.clients =~= Map::<usize, ClientView>::empty());
        assert(state.claimed_ids@ =~= state.clients@.dom());
        state
    }

    /// The client on record under `name`.
    fn find_name(&self, name: &String) -> (found: Option<usize>)
        requires
            self.wf(),
        ensures
            match found {
                Some(id) => self@.has_name(id, name@) && self@.knows_name(name@)
                    && self@.holder_of(name@) == id,
                None => !self@.knows_name(name@),
            },
    {
        let mut id: usize = 0;
        while id < MAX_PLAYERS
            invariant
                id <= MAX_PLAYERS,
                self.wf(),
                forall|below: usize| below < id ==> !self@.has_name(below, name@),
            decreases MAX_PLAYERS - id,
        {
            match self.clients.get(&id) {
                Some(client) => {
                    if client.info.name == *name {
                        assert(self@.has_name(id, name@));
                        return Some(id);
                    }
                },
                None => {},
            }
            id += 1;
        }
        None
    }

    /// The lowest id of the pool that no client has.
    fn find_free_id(&self) -> (found: Option<usize>)
        requires
            self.wf(),
        ensures
            match found {
                Some(id) => self@.is_lowest_free(id) && !self@.is_full() && self@.lowest_free()
                    == id,
                None => self@.is_full(),
            },
    {
        let mut id: usize = 0;
        while id < MAX_PLAYERS
            invariant
                id <= MAX_PLAYERS,
                self.wf(),
                forall|below: usize| below < id ==> self@.clients.contains_key(below),
            decreases MAX_PLAYERS - id,
        {
            if !self.claimed_ids.contains(ClientId(id)) {
                assert(self@.is_lowest_free(id));
                assert forall|other: usize| self@.is_lowest_free(other) implies other == id by {
                    if other < id {
                        assert(self@.clients.contains_key(other));
                    } else if id < other {
                        assert(self@.clients.contains_key(id));
                    }
                }
                return Some(id);
            }
            id += 1;
        }
        None
    }

    /// Connects a client under `client_name` with the session token `token`
    /// at `now`. A name held by a connected client is refused. A
    /// disconnected client of this name comes back under its id, with
    /// `token` in place of its old token and an empty inbox. Otherwise the
    /// client gets the lowest free id, if there is one.
    pub fn connect_with_token(&mut self, client_name: &str, token: SessionToken, now: u64) -> (result:
        Result<(ClientId, SessionToken), MafiaGameError>)
        requires
            old(self).wf(),
        ensures
            final(self).wf(),
            if old(self)@.name_is_taken(client_name@) {
                &&& final(self)@ == old(self)@
                &&& match result {
                    Err(MafiaGameError::ClientNameRegistered(name)) => name@ == client_name@,
                    _ => false,
                }
            } else if !old(self)@.knows_name(client_name@) && old(self)@.is_full() {
                &&& final(self)@ == old(self)@
                &&& result == Err::<(ClientId, SessionToken), MafiaGameError>(
                    MafiaGameError::TooManyClientsRegistered,
                )
            } else {
                &&& final(self)@ == old(self)@.with_connection(client_name@, token, now)
                &&& result == Ok::<(ClientId, SessionToken), MafiaGameError>(
                    (ClientId(old(self)@.slot_for(client_name@)), token),
                )
            },
    {
        let name = client_name.to_owned();
        match self.find_name(&name) {
            Some(id) => {
                let gone = match self.clients.get(&id) {
                    Some(client) => client.disconnected,
                    None => false,
                };
                if !gone {
                    return Err(MafiaGameError::ClientNameRegistered(name));
                }
                match self.clients.remove(&id) {
                    Some(client) => {
                        let Client { inbox: _, info, session_token, last_active: _, disconnected: _ } =
                            client;
                        self.session_token_to_id.remove(&session_token.0);
                        self.session_token_to_id.insert(token.0, id);
                        let record = Client {
                            inbox: Vec::new(),
                            info,
                            session_token: token,
                            last_active: now,
                            disconnected: false,
                        };
                        assert(shared_event_views(record.inbox@) =~= Seq::<EventView>::empty());
                        self.clients.insert(id, record);
                        proof {
                            lemma_connection_keeps_wf(old(self)@, client_name@, token, now);
                            let after = old(self)@.with_connection(client_name@, token, now);
                            assert(self@.clients =~= after.clients);
                            assert(self@.tokens =~= after.tokens);
                            assert(self.claimed_ids@ =~= self.clients@.dom());
                        }
                        Ok((ClientId(id), token))
                    },
                    None => Err(MafiaGameError::InvalidClientId(ClientId(id))),
                }
            },
            None => {
                match self.find_free_id() {
                    Some(id) => {
                        self.claimed_ids.insert(ClientId(id));
                        let record = Client {
                            inbox: Vec::new(),
                            info: ClientInfo { name, id: ClientId(id) },
                            session_token: token,
                            last_active: now,
                            disconnected: false,
                        };
                        assert(shared_event_views(record.inbox@) =~= Seq::<EventView>::empty());
                        self.clients.insert(id, record);
                        self.session_token_to_id.insert(token.0, id);
                        proof {
                            lemma_connection_keeps_wf(old(self)@, client_name@, token, now);
                            let after = old(self)@.with_connection(client_name@, token, now);
                            assert(self@.clients =~= after.clients);
                            assert(self@.tokens =~= after.tokens);
                            assert(self.claimed_ids@ =~= self.clients@.dom());
                        }
                        Ok((ClientId(id), token))
                    },
                    None => Err(MafiaGameError::TooManyClientsRegistered),
                }
            },
        }
    }

    /// Connects a client under `client_name` at `now`, with a session token
    /// drawn for this connection.
    pub fn connect_client(&mut self, client_name: &str, now: u64) -> (result: Result<
        (ClientId, SessionToken),
        MafiaGameError,
    >)
        requires
            old(self).wf(),
        ensures
            final(self).wf(),
            if old(self)@.name_is_taken(client_name@) {
                &&& final(self)@ == old(self)@
                &&& match result {
                    Err(MafiaGameError::ClientNameRegistered(name)) => name@ == client_name@,
                    _ => false,
                }
            } else if !old(self)@.knows_name(client_name@) && old(self)@.is_full() {
                &&& final(self)@ == old(self)@
                &&& result == Err::<(ClientId, SessionToken), MafiaGameError>(
                    MafiaGameError::TooManyClientsRegistered,
                )
            } else {
                &&& result is Ok
                &&& result.unwrap().0 == ClientId(old(self)@.slot_for(client_name@))
                &&& final(self)@ == old(self)@.with_connection(
                    client_name@,
                    result.unwrap().1,
                    now,
                )
            },
    {
        let token = SessionToken::new();
        self.connect_with_token(client_name, token, now)
    }

    /// Marks a client as disconnected and drops what waits in its inbox.
    /// Disconnecting twice is an error.
    pub fn disconnect_client(&mut self, client_id: ClientId) -> (result: Result<
        (),
        MafiaGameError,
    >)
        requires
            old(self).wf(),
        ensures
            final(self).wf(),
            if !old(self)@.clients.contains_key(client_id.0) {
                &&& final(self)@ == old(self)@
                &&& result == Err::<(), MafiaGameError>(MafiaGameError::InvalidClientId(client_id))
            } else if old(self)@.clients[client_id.0].disconnected {
                &&& final(self)@ == old(self)@
                &&& result == Err::<(), MafiaGameError>(
                    MafiaGameError::ClientDisconnected(client_id),
                )
            } else {
                &&& final(self)@ == old(self)@.with_disconnect(client_id.0)
                &&& result is Ok
            },
    {
        let gone = match self.clients.get(&client_id.0) {
            Some(client) => client.disconnected,
            None => {
                return Err(MafiaGameError::InvalidClientId(client_id));
            },
        };
        if gone {
            return Err(MafiaGameError::ClientDisconnected(client_id));
        }
        match self.clients.remove(&client_id.0) {
            Some(client) => {
                let Client { inbox: _, info, session_token, last_active, disconnected: _ } =
                    client;
                let record = Client {
                    inbox: Vec::new(),
                    info,
                    session_token,
                    last_active,
                    disconnected: true,
                };
                assert(shared_event_views(record.inbox@) =~= Seq::<EventView>::empty());
                self.clients.insert(client_id.0, record);
                proof {
                    assert(self@.clients =~= old(self)@.with_disconnect(client_id.0).clients);
                    assert(self.claimed_ids@ =~= self.clients@.dom());
                }
                Ok(())
            },
            None => Err(MafiaGameError::InvalidClientId(client_id)),
        }
    }

    /// Removes every client that is disconnected or has been silent for
    /// `max_inactive_time` seconds or more at `now`, and frees its id, name
    /// and token. Returns, in ascending order, the removed clients that were
    /// still connected.
    pub fn purge_disconnected_clients(&mut self, max_inactive_time: u64, now: u64) -> (lost: Vec<
        ClientId,
    >)
        requires
            old(self).wf(),
        ensures
            final(self).wf(),
            final(self)@ == old(self)@.purged(max_inactive_time, now),
            lost@ == ascending_ids(
                old(self)@.lost(max_inactive_time, now),
                MAX_PLAYERS as int,
            ),
    {
        let mut lost: Vec<ClientId> = Vec::new();
        let mut id: usize = 0;
        proof {
            let start = old(self)@.purged_below(max_inactive_time, now, 0);
            assert(self@.clients =~= start.clients);
            assert(self@.tokens =~= start.tokens);
        }
        while id < MAX_PLAYERS
            invariant
                id <= MAX_PLAYERS,
                old(self).wf(),
                self.claims_match(),
                self@ == old(self)@.purged_below(max_inactive_time, now, id as int),
                lost@ == ascending_ids(old(self)@.lost(max_inactive_time, now), id as int),
            decreases MAX_PLAYERS - id,
        {
            proof {
                self.lemma_record(id);
            }
            let ghost before = *self;
            let evict = match self.clients.get(&id) {
                Some(client) => {
                    let silent = if now >= client.last_active {
                        now - client.last_active
                    } else {
                        0
                    };
                    client.disconnected || silent >= max_inactive_time
                },
                None => false,
            };
            assert(evict == old(self)@.evicts(id, max_inactive_time, now));
            if evict {
                match self.clients.remove(&id) {
                    Some(client) => {
                        self.session_token_to_id.remove(&client.session_token.0);
                        self.claimed_ids.remove(ClientId(id));
                        if !client.disconnected {
                            lost.push(ClientId(id));
                        }
                        assert(client@ == old(self)@.clients[id]);
                    },
                    None => {},
                }
            }
            proof {
                let next = old(self)@.purged_below(max_inactive_time, now, id + 1);
                let current = self@.clients;
                assert forall|k: usize|
                    (#[trigger] current.contains_key(k)) == next.clients.contains_key(k) && (
                    current.contains_key(k) ==> current[k] == next.clients[k]) by {
                    self.lemma_record(k);
                    before.lemma_record(k);
                }
                assert forall|k: usize| #[trigger]
                    next.clients.contains_key(k) implies current.contains_key(k) by {
                    assert(current.contains_key(k) == next.clients.contains_key(k));
                }
                assert(current =~= next.clients);
                assert(self@.tokens =~= next.tokens) by {
                    assert forall|token: u128|
                        self@.tokens.contains_key(token) == next.tokens.contains_key(token) by {
                        if old(self)@.tokens.contains_key(token) {
                            if exists|j: usize|
                                j < id + 1 && old(self)@.evicts(j, max_inactive_time, now)
                                    && #[trigger] old(self)@.clients[j].session_token.0 == token {
                                let j = choose|j: usize|
                                    j < id + 1 && old(self)@.evicts(j, max_inactive_time, now)
                                        && #[trigger] old(self)@.clients[j].session_token.0
                                        == token;
                                if j < id {
                                    assert(old(self)@.clients[j].session_token.0 == token);
                                }
                            }
                            if exists|j: usize|
                                j < id && old(self)@.evicts(j, max_inactive_time, now)
                                    && #[trigger] old(self)@.clients[j].session_token.0 == token {
                                let j = choose|j: usize|
                                    j < id && old(self)@.evicts(j, max_inactive_time, now)
                                        && #[trigger] old(self)@.clients[j].session_token.0
                                        == token;
                                assert(j < id + 1);
                            }
                            if evict && old(self)@.clients[id as usize].session_token.0 == token {
                                assert(old(self)@.evicts(id, max_inactive_time, now));
                            }
                        }
                    }
                }
                assert(self.claimed_ids@ =~= self.clients@.dom());
            }
            id += 1;
        }
        proof {
            let end = old(self)@.purged(max_inactive_time, now);
            assert(self@.clients =~= end.clients);
            assert(self@.tokens =~= end.tokens) by {
                assert forall|token: u128|
                    self@.tokens.contains_key(token) == end.tokens.contains_key(token) by {
                    if old(self)@.tokens.contains_key(token) {
                        if exists|j: usize|
                            old(self)@.evicts(j, max_inactive_time, now)
                                && #[trigger] old(self)@.clients[j].session_token.0 == token {
                            let j = choose|j: usize|
                                old(self)@.evicts(j, max_inactive_time, now)
                                    && #[trigger] old(self)@.clients[j].session_token.0 == token;
                            assert(j < MAX_PLAYERS);
                        }
                    }
                }
            }
        }
        lost
    }

    /// The client that `session_token` authenticates, whose activity is
    /// noted at `now`. A disconnected client must reconnect first.
    pub fn auth_client(&mut self, session_token: SessionToken, now: u64) -> (result: Result<
        ClientId,
        MafiaGameError,
    >)
        requires
            old(self).wf(),
        ensures
            final(self).wf(),
            match old(self)@.auth_fault(session_token) {
                Some(fault) => {
                    &&& final(self)@ == old(self)@
                    &&& result == Err::<ClientId, MafiaGameError>(fault)
                },
                None => {
                    &&& final(self)@ == old(self)@.with_activity(
                        old(self)@.tokens[session_token.0],
                        now,
                    )
                    &&& result == Ok::<ClientId, MafiaGameError>(
                        ClientId(old(self)@.tokens[session_token.0]),
                    )
                    &&& old(self)@.clients.contains_key(old(self)@.tokens[session_token.0])
                },
            },
    {
        let id = match self.session_token_to_id.get(&session_token.0) {
            Some(id) => *id,
            None => {
                return Err(MafiaGameError::InvalidSessionToken(session_token));
            },
        };
        assert(self.session_token_to_id@.contains_key(session_token.0));
        assert(self@.tokens.contains_key(session_token.0));
        assert(self@.wf());
        assert(self@.tokens[session_token.0] == id);
        assert(self@.clients.contains_key(id));
        let gone = match self.clients.get(&id) {
            Some(client) => client.disconnected,
            None => true,
        };
        if gone {
            return Err(MafiaGameError::ClientDisconnected(ClientId(id)));
        }
        match self.clients.remove(&id) {
            Some(client) => {
                let Client { inbox, info, session_token: token, last_active: _, disconnected } =
                    client;
                let record = Client { inbox, info, session_token: token, last_active: now, disconnected };
                self.clients.insert(id, record);
                proof {
                    assert(self@.clients =~= old(self)@.with_activity(id, now).clients);
                    assert(self.claimed_ids@ =~= self.clients@.dom());
                }
            },
            None => {},
        }
        Ok(ClientId(id))
    }

    /// The record of a client.
    pub fn get_client(&self, client_id: ClientId) -> (result: Result<&Client, MafiaGameError>)
        requires
            self.wf(),
        ensures
            match result {
                Ok(client) => self@.clients.contains_key(client_id.0) && client@
                    == self@.clients[client_id.0],
                Err(fault) => !self@.clients.contains_key(client_id.0) && fault
                    == MafiaGameError::InvalidClientId(client_id),
            },
    {
        match self.clients.get(&client_id.0) {
            Some(client) => Ok(client),
            None => Err(MafiaGameError::InvalidClientId(client_id)),
        }
    }

    /// The names on record with their ids, in ascending order of the ids.
    pub fn list_clients(&self) -> (names: Vec<(String, ClientId)>)
        requires
            self.wf(),
        ensures
            names@.len() == ascending_ids(self@.clients.dom(), MAX_PLAYERS as int).len(),
            forall|k: int|
                0 <= k < names@.len() ==> {
                    &&& (#[trigger] names@[k]).1 == ascending_ids(
                        self@.clients.dom(),
                        MAX_PLAYERS as int,
                    )[k]
                    &&& self@.clients.contains_key(names@[k].1.0)
                    &&& names@[k].0@ == self@.clients[names@[k].1.0].info.name
                },
    {
        let mut names: Vec<(String, ClientId)> = Vec::new();
        let mut id: usize = 0;
        while id < MAX_PLAYERS
            invariant
                id <= MAX_PLAYERS,
                self.wf(),
                names@.len() == ascending_ids(self@.clients.dom(), id as int).len(),
                forall|k: int|
                    0 <= k < names@.len() ==> {
                        &&& (#[trigger] names@[k]).1 == ascending_ids(
                            self@.clients.dom(),
                            id as int,
                        )[k]
                        &&& self@.clients.contains_key(names@[k].1.0)
                        &&& names@[k].0@ == self@.clients[names@[k].1.0].info.name
                    },
            decreases MAX_PLAYERS - id,
        {
            match self.clients.get(&id) {
                Some(client) => {
                    names.push((client.info.name.clone(), ClientId(id)));
                },
                None => {},
            }
            id += 1;
        }
        names
    }

    /// The ids of the clients on record, connected or not.
    pub fn all_client_ids(&self) -> (ids: ClientSet)
        requires
            self.wf(),
        ensures
            ids@ == self@.clients.dom(),
    {
        assert(self@.clients.dom() =~= self.clients@.dom());
        self.claimed_ids
    }

    /// The ids of the connected clients.
    pub fn connected_client_ids(&self) -> (ids: ClientSet)
        requires
            self.wf(),
        ensures
            ids@ == self@.connected(),
    {
        let mut ids = ClientSet::new();
        let mut id: usize = 0;
        while id < MAX_PLAYERS
            invariant
                id <= MAX_PLAYERS,
                self.wf(),
                forall|k: usize| ids@.contains(k) <==> k < id && self@.connected().contains(k),
            decreases MAX_PLAYERS - id,
        {
            proof {
                self.lemma_record(id);
            }
            match self.clients.get(&id) {
                Some(client) => {
                    if !client.disconnected {
                        ids.insert(ClientId(id));
                    }
                },
                None => {},
            }
            id += 1;
        }
        assert(ids@ =~= self@.connected());
        ids
    }

    /// The public information of the clients on record, by id.
    pub fn all_client_info(&self) -> (infos: HashMap<usize, ClientInfo>)
        requires
            self.wf(),
        ensures
            forall|id: usize| infos@.contains_key(id) <==> self@.clients.contains_key(id),
            forall|id: usize| infos@.contains_key(id) ==> infos@[id]@ == self@.clients[id].info,
    {
        let mut infos: HashMap<usize, ClientInfo> = HashMap::new();
        let mut id: usize = 0;
        while id < MAX_PLAYERS
            invariant
                id <= MAX_PLAYERS,
                self.wf(),
                forall|k: usize|
                    infos@.contains_key(k) <==> k < id && self@.clients.contains_key(k),
                forall|k: usize| infos@.contains_key(k) ==> infos@[k]@ == self@.clients[k].info,
            decreases MAX_PLAYERS - id,
        {
            match self.clients.get(&id) {
                Some(client) => {
                    infos.insert(id, client.info.duplicate());
                },
                None => {},
            }
            id += 1;
        }
        infos
    }

    /// Puts `event` into the inbox of each recipient in `to` that is on
    /// record and connected; for the others it is dropped. The inboxes share
    /// one copy of the event.
    pub fn send_event(&mut self, to: ClientSet, event: Event)
        requires
            old(self).wf(),
        ensures
            final(self).wf(),
            final(self)@ == old(self)@.with_event(to@, event@),
    {
        let shared = Arc::new(event);
        let mut id: usize = 0;
        proof {
            assert(self@.clients =~= old(self)@.with_event_below(to@, event@, 0).clients);
        }
        while id < MAX_PLAYERS
            invariant
                id <= MAX_PLAYERS,
                old(self).wf(),
                self.claims_match(),
                shared@ == event@,
                self@ == old(self)@.with_event_below(to@, event@, id as int),
            decreases MAX_PLAYERS - id,
        {
            proof {
                self.lemma_record(id);
            }
            let ghost before = *self;
            let reached = to.contains(ClientId(id)) && match self.clients.get(&id) {
                Some(client) => !client.disconnected,
                None => false,
            };
            assert(reached == old(self)@.reaches(to@, id));
            if reached {
                match self.clients.remove(&id) {
                    Some(client) => {
                        let mut client = client;
                        let ghost before = client@;
                        let copy = share_event(&shared);
                        proof {
                            assert(shared_event_views(client.inbox@.push(copy))
                                =~= shared_event_views(client.inbox@).push(event@));
                        }
                        client.inbox.push(copy);
                        assert(client@ == before.with_event(event@));
                        self.clients.insert(id, client);
                    },
                    None => {},
                }
            }
            proof {
                let next = old(self)@.with_event_below(to@, event@, id + 1);
                assert forall|k: usize|
                    self@.clients.contains_key(k) == next.clients.contains_key(k) && (
                    self@.clients.contains_key(k) ==> self@.clients[k] == next.clients[k]) by {
                    self.lemma_record(k);
                    before.lemma_record(k);
                }
                assert(self@.clients =~= next.clients);
                assert(self.claimed_ids@ =~= self.clients@.dom());
            }
            id += 1;
        }
        proof {
            assert(self@.clients =~= old(self)@.with_event(to@, event@).clients);
        }
    }

    /// Takes the events that wait for a client out of its inbox, oldest
    /// first. For an unknown client there are none.
    pub fn take_events(&mut self, for_client: ClientId) -> (events: Vec<Arc<Event>>)
        requires
            old(self).wf(),
        ensures
            final(self).wf(),
            shared_event_views(events@) == old(self)@.inbox_of(for_client.0),
            final(self)@ == old(self)@.drained(for_client.0),
    {
        match self.clients.remove(&for_client.0) {
            Some(client) => {
                let Client { inbox, info, session_token, last_active, disconnected } = client;
                let record = Client {
                    inbox: Vec::new(),
                    info,
                    session_token,
                    last_active,
                    disconnected,
                };
                assert(shared_event_views(record.inbox@) =~= Seq::<EventView>::empty());
                self.clients.insert(for_client.0, record);
                proof {
                    assert(self@.clients =~= old(self)@.drained(for_client.0).clients);
                    assert(self.claimed_ids@ =~= self.clients@.dom());
                }
                inbox
            },
            None => {
                let events: Vec<Arc<Event>> = Vec::new();
                proof {
                    assert(shared_event_views(events@) =~= Seq::<EventView>::empty());
                    assert(self@.clients =~= old(self)@.clients);
                    assert(self.clients@ =~= old(self).clients@);
                }
                events
            },
        }
    }
}

} // verus!
