//! Routing of clients and messages by position in the world.
use vstd::prelude::*;

use crate::clock::{elapsed, elapsed_nanos};
use crate::config::RoutingConfig;
use crate::discovery::{
    is_healthy, lemma_healthy_for_half_a_minute, server_is_healthy, serves, DiscoveryManager, ServerLookup,
};
use crate::errors::{AtlasError, Result};
use crate::search::{first_index, lemma_first_index};
use crate::table::Table;
use crate::text::{
    decimal_i64, has_prefix, join, join3, lemma_last_colon_splits, lemma_signed_decimal_is_faithful,
    signed_decimal, starts_with, str_eq,
};
use crate::types::{
    ClientId, GameServer, Message, MessageDestination, Position, ServerId, ServerStatus,
};

verus! {

/// How long a cached route counts, in nanoseconds. Positions change frequently.
pub const ROUTE_LIFETIME: u64 = 30_000_000_000;

/// What is known of a client while it is connected.
#[derive(Debug)]
pub struct ClientSession {
    pub client_id: ClientId,
    pub current_server: Option<ServerId>,
    pub position: Option<Position>,
    pub sticky_server: Option<ServerId>,
    pub last_route_time: i64,
    pub connection_start: i64,
}

/// A route that was found before.
#[derive(Debug)]
pub struct CacheEntry {
    pub server_id: ServerId,
    pub cached_at: i64,
    pub ttl: u64,
}

impl CacheEntry {
    /// Whether the route still counts at `now`.
    pub open spec fn is_fresh(self, now: i64) -> bool {
        elapsed(self.cached_at as int, now as int) < self.ttl
    }

    fn fresh(&self, now: i64) -> (result: bool)
        ensures
            result == self.is_fresh(now),
    {
        elapsed_nanos(self.cached_at, now) < self.ttl
    }
}

/// Counters of what routing did. They wrap around.
#[derive(Clone, Copy, Debug, PartialEq, Eq, Structural)]
pub struct RoutingMetrics {
    pub routes_calculated: u64,
    pub cache_hits: u64,
    pub cache_misses: u64,
    pub position_lookups: u64,
    pub routing_errors: u64,
}

/// The counters as they are handed out, with the sizes of the tables.
#[derive(Clone, Copy, Debug, PartialEq, Eq, Structural)]
pub struct RoutingMetricsSnapshot {
    pub routes_calculated: u64,
    pub cache_hits: u64,
    pub cache_misses: u64,
    pub position_lookups: u64,
    pub routing_errors: u64,
    pub active_client_sessions: u64,
    pub cached_routes: u64,
}

/// Sends clients to the servers that own their positions.
pub struct RoutingManager {
    pub config: RoutingConfig,
    pub client_sessions: Table<ClientSession>,
    pub routing_cache: Table<CacheEntry>,
    pub metrics: RoutingMetrics,
}

/// Under what a route is cached: the client and the whole part of its position.
pub open spec fn cache_key(client_id: ClientId, position: Position) -> Seq<char> {
    client_id.0@ + ":"@ + signed_decimal(position.x.spec_truncated()) + ":"@ + signed_decimal(
        position.y.spec_truncated(),
    ) + ":"@ + signed_decimal(position.z.spec_truncated())
}

/// Whether it is the same client at the same place, up to the fractions of its
/// coordinates.
pub open spec fn same_place(a: ClientId, from: Position, b: ClientId, to: Position) -> bool {
    &&& a.0@ == b.0@
    &&& from.x.spec_truncated() == to.x.spec_truncated()
    &&& from.y.spec_truncated() == to.y.spec_truncated()
    &&& from.z.spec_truncated() == to.z.spec_truncated()
}

/// A route is cached for one client and one place: clients that are not the same, or
/// positions whose whole parts differ in any coordinate, have different keys.
pub proof fn lemma_cache_key_tells_places_apart(
    a: ClientId,
    from: Position,
    b: ClientId,
    to: Position,
)
    ensures
        cache_key(a, from) == cache_key(b, to) ==> {
            &&& a.0@ == b.0@
            &&& from.x.spec_truncated() == to.x.spec_truncated()
            &&& from.y.spec_truncated() == to.y.spec_truncated()
            &&& from.z.spec_truncated() == to.z.spec_truncated()
        },
{
    reveal_strlit(":");
    assert(":"@ =~= seq![':']);
    let (fx, fy, fz) = (
        from.x.spec_truncated(),
        from.y.spec_truncated(),
        from.z.spec_truncated(),
    );
    let (tx, ty, tz) = (to.x.spec_truncated(), to.y.spec_truncated(), to.z.spec_truncated());
    lemma_signed_decimal_is_faithful(fx, tx);
    lemma_signed_decimal_is_faithful(fy, ty);
    lemma_signed_decimal_is_faithful(fz, tz);
    lemma_signed_decimal_is_faithful(tx, fx);
    lemma_signed_decimal_is_faithful(ty, fy);
    lemma_signed_decimal_is_faithful(tz, fz);
    if cache_key(a, from) == cache_key(b, to) {
        let a1 = a.0@ + seq![':'] + signed_decimal(fx);
        let b1 = b.0@ + seq![':'] + signed_decimal(tx);
        let a2 = a1 + seq![':'] + signed_decimal(fy);
        let b2 = b1 + seq![':'] + signed_decimal(ty);
        assert(cache_key(a, from) =~= a2 + seq![':'] + signed_decimal(fz));
        assert(cache_key(b, to) =~= b2 + seq![':'] + signed_decimal(tz));
        lemma_last_colon_splits(a2, signed_decimal(fz), b2, signed_decimal(tz));
        lemma_last_colon_splits(a1, signed_decimal(fy), b1, signed_decimal(ty));
        lemma_last_colon_splits(a.0@, signed_decimal(fx), b.0@, signed_decimal(tx));
    }
}

fn make_cache_key(client_id: &ClientId, position: &Position) -> (result: String)
    ensures
        result@ == cache_key(*client_id, *position),
        result@ == client_id.0@ + ":"@ + signed_decimal(position.x.spec_truncated()) + ":"@
            + signed_decimal(position.y.spec_truncated()) + ":"@ + signed_decimal(
            position.z.spec_truncated(),
        ),
{
    let mut key: String = client_id.0.clone();
    key.append(":");
    let x: String = decimal_i64(position.x.truncated() as i64);
    key.append(x.as_str());
    key.append(":");
    let y: String = decimal_i64(position.y.truncated() as i64);
    key.append(y.as_str());
    key.append(":");
    let z: String = decimal_i64(position.z.truncated() as i64);
    key.append(z.as_str());
    key
}

/// What a look at the sticky server of a session says.
pub enum StickyVerdict {
    /// There is none, or sessions have no affinity.
    Absent,
    /// The backend could not be asked.
    Unknown(AtlasError),
    /// It is healthy and owns the position.
    Keep(ServerId),
    /// It is gone, not healthy, or does not own the position.
    Clear,
}

/// Whether a server, as far as it is known, can keep a client at `position`.
pub open spec fn can_keep(server: Option<GameServer>, position: Position, now: i64) -> bool {
    server matches Some(s) && is_healthy(s, now) && s.gameworld_bounds.spec_contains(position)
}

/// What the cache, or else the backend, says of a server.
pub open spec fn known_server(
    cache: Map<Seq<char>, GameServer>,
    id: Seq<char>,
    from_backend: Result<Option<GameServer>>,
) -> Result<Option<GameServer>> {
    if cache.dom().contains(id) {
        Ok(Some(cache[id]))
    } else {
        from_backend
    }
}

/// What a look at the sticky server of a session says.
pub open spec fn sticky_verdict(
    affinity: bool,
    sticky: Option<ServerId>,
    cache: Map<Seq<char>, GameServer>,
    from_backend: Result<Option<GameServer>>,
    position: Position,
    now: i64,
) -> StickyVerdict {
    if !affinity {
        StickyVerdict::Absent
    } else {
        match sticky {
            None => StickyVerdict::Absent,
            Some(id) => match known_server(cache, id.0@, from_backend) {
                Err(error) => StickyVerdict::Unknown(error),
                Ok(server) => if can_keep(server, position, now) {
                    StickyVerdict::Keep(id)
                } else {
                    StickyVerdict::Clear
                },
            },
        }
    }
}

/// The session of a client once its request at `now` has been noted; a client
/// that is not known yet gets a new one.
pub open spec fn noted_session(
    sessions: Map<Seq<char>, ClientSession>,
    client_id: ClientId,
    position: Position,
    now: i64,
) -> ClientSession {
    if sessions.dom().contains(client_id.0@) {
        ClientSession {
            position: Some(position),
            last_route_time: now,
            ..sessions[client_id.0@]
        }
    } else {
        ClientSession {
            client_id,
            current_server: None,
            position: Some(position),
            sticky_server: None,
            last_route_time: now,
            connection_start: now,
        }
    }
}

/// The identifier of the first cached server that is ready and owns `position`.
pub open spec fn owner_of(servers: Seq<GameServer>, position: Position) -> Option<ServerId> {
    match first_index(servers, serves(position)) {
        Some(i) => Some(servers[i].id),
        None => None,
    }
}

/// Whether `error` says that no server owns the place.
pub open spec fn no_owner(error: AtlasError, place: Seq<char>) -> bool {
    error matches AtlasError::Routing(text) && text@ == "No server found for position "@ + place
}

/// Whether a fresh route is cached under `key`.
pub open spec fn has_route(cache: Map<Seq<char>, CacheEntry>, key: Seq<char>, now: i64) -> bool {
    cache.dom().contains(key) && cache[key].is_fresh(now)
}

impl RoutingManager {
    /// Every session is filed under its client's identifier.
    pub open spec fn wf(&self) -> bool {
        &&& self.client_sessions.wf()
        &&& self.routing_cache.wf()
        &&& forall|k: Seq<char>| #[trigger]
            self.client_sessions@.dom().contains(k) ==> self.client_sessions@[k].client_id.0@ == k
    }

    /// A manager without sessions or routes.
    pub fn new(config: RoutingConfig) -> (result: Self)
        ensures
            result.wf(),
            result.config == config,
            result.client_sessions@ == Map::<Seq<char>, ClientSession>::empty(),
            result.routing_cache@ == Map::<Seq<char>, CacheEntry>::empty(),
            result.metrics == (RoutingMetrics {
                routes_calculated: 0,
                cache_hits: 0,
                cache_misses: 0,
                position_lookups: 0,
                routing_errors: 0,
            }),
    {
        RoutingManager {
            config,
            client_sessions: Table::new(),
            routing_cache: Table::new(),
            metrics: RoutingMetrics {
                routes_calculated: 0,
                cache_hits: 0,
                cache_misses: 0,
                position_lookups: 0,
                routing_errors: 0,
            },
        }
    }

    /// The server that the backend is to be asked for before the client is routed:
    /// the sticky server of its session, where the cache does not hold it.
    pub fn server_to_fetch(&self, discovery: &DiscoveryManager, client_id: &ClientId) -> (result:
        Option<ServerId>)
        requires
            self.wf(),
            discovery.wf(),
        ensures
            result == (if self.config.session_affinity && self.client_sessions@.dom().contains(
                client_id.0@,
            ) {
                match self.client_sessions@[client_id.0@].sticky_server {
                    Some(id) => if discovery.server_cache@.dom().contains(id.0@) {
                        None
                    } else {
                        Some(id)
                    },
                    None => None,
                }
            } else {
                None
            }),
    {
        if !self.config.session_affinity {
            return None;
        }
        match self.client_sessions.get(client_id.0.as_str()) {
            Some(session) => match &session.sticky_server {
                Some(id) => if discovery.server_cache.contains_key(id.0.as_str()) {
                    None
                } else {
                    Some(id.clone())
                },
                None => None,
            },
            None => None,
        }
    }

    /// The server that a client at `position` is sent to. A session's sticky
    /// server keeps the client as long as it is healthy and owns the position.
    /// Otherwise a cached route counts while it is fresh, and at last the first
    /// ready server that owns the position, which is cached and, where sessions
    /// have affinity, becomes the sticky server. `from_backend` is what the
    /// backend says of the sticky server; it counts only where the cache does not
    /// hold that server. `place` is the position as text.
    pub fn route_client(
        &mut self,
        discovery: &DiscoveryManager,
        client_id: &ClientId,
        position: &Position,
        place: &str,
        from_backend: Result<Option<GameServer>>,
        now: i64,
    ) -> (result: Result<ServerId>)
        requires
            old(self).wf(),
            discovery.wf(),
        ensures
            final(self).wf(),
            final(self).config == old(self).config,
            forall|other: ClientId, at: Position|
                !same_place(other, at, *client_id, *position) ==> has_route(
                    final(self).routing_cache@,
                    #[trigger] cache_key(other, at),
                    now,
                ) == has_route(old(self).routing_cache@, cache_key(other, at), now) && (has_route(
                    old(self).routing_cache@,
                    cache_key(other, at),
                    now,
                ) ==> final(self).routing_cache@[cache_key(other, at)]
                    == old(self).routing_cache@[cache_key(other, at)]),
            ({
                let noted = noted_session(
                    old(self).client_sessions@,
                    *client_id,
                    *position,
                    now,
                );
                let verdict = sticky_verdict(
                    old(self).config.session_affinity,
                    noted.sticky_server,
                    discovery.server_cache@,
                    from_backend,
                    *position,
                    now,
                );
                let kept = if verdict is Clear {
                    None
                } else {
                    noted.sticky_server
                };
                let key = cache_key(*client_id, *position);
                let routes = old(self).routing_cache@;
                let counted = RoutingMetrics {
                    routes_calculated: old(self).metrics.routes_calculated.wrapping_add(1),
                    ..old(self).metrics
                };
                let missed = RoutingMetrics {
                    cache_misses: old(self).metrics.cache_misses.wrapping_add(1),
                    position_lookups: old(self).metrics.position_lookups.wrapping_add(1),
                    ..counted
                };
                let owner = owner_of(discovery.server_cache.values(), *position);
                let session = final(self).client_sessions@[client_id.0@];
                &&& final(self).client_sessions@ == old(self).client_sessions@.insert(
                    client_id.0@,
                    session,
                )
                &&& match verdict {
                    StickyVerdict::Unknown(error) => {
                        &&& result == Err::<ServerId, AtlasError>(error)
                        &&& session == noted
                        &&& final(self).routing_cache@ == routes
                        &&& final(self).metrics == counted
                    },
                    StickyVerdict::Keep(id) => {
                        &&& result == Ok::<ServerId, AtlasError>(id)
                        &&& session == (ClientSession { current_server: Some(id), ..noted })
                        &&& final(self).routing_cache@ == routes
                        &&& final(self).metrics == counted
                    },
                    _ => if has_route(routes, key, now) {
                        &&& result == Ok::<ServerId, AtlasError>(routes[key].server_id)
                        &&& session == (ClientSession {
                            current_server: Some(routes[key].server_id),
                            sticky_server: kept,
                            ..noted
                        })
                        &&& final(self).routing_cache@ == routes
                        &&& final(self).metrics == (RoutingMetrics {
                            cache_hits: old(self).metrics.cache_hits.wrapping_add(1),
                            ..counted
                        })
                    } else {
                        &&& final(self).metrics == missed
                        &&& match owner {
                            None => {
                                &&& result matches Err(error) && no_owner(error, place@)
                                &&& session == (ClientSession { sticky_server: kept, ..noted })
                                &&& final(self).routing_cache@ == routes.remove(key)
                            },
                            Some(id) => {
                                &&& result == Ok::<ServerId, AtlasError>(id)
                                &&& session == (ClientSession {
                                    current_server: Some(id),
                                    sticky_server: if old(self).config.session_affinity && kept is None {
                                        Some(id)
                                    } else {
                                        kept
                                    },
                                    ..noted
                                })
                                &&& final(self).routing_cache@ == routes.insert(
                                    key,
                                    CacheEntry {
                                        server_id: id,
                                        cached_at: now,
                                        ttl: ROUTE_LIFETIME,
                                    },
                                )
                            },
                        }
                    },
                }
            }),
    {
        proof {
            assert forall|other: ClientId, at: Position|
                !same_place(other, at, *client_id, *position) implies #[trigger] cache_key(other, at)
                != cache_key(*client_id, *position) by {
                lemma_cache_key_tells_places_apart(other, at, *client_id, *position);
            }
        }
        self.metrics.routes_calculated = self.metrics.routes_calculated.wrapping_add(1);
        let ghost noted = noted_session(old(self).client_sessions@, *client_id, *position, now);
        let at: usize = self.note_session(client_id, position, now);
        proof {
            self.client_sessions.lemma_wf();
            assert(self.client_sessions.values()[at as int] == noted);
        }
        let verdict = self.judge_sticky(at, discovery, position, from_backend, now);
        let ghost cleared = verdict is Clear;
        match verdict {
            StickyVerdict::Unknown(error) => {
                assert(self.client_sessions@ =~= old(self).client_sessions@.insert(client_id.0@, noted));
                return Err(error);
            },
            StickyVerdict::Keep(id) => {
                let session = self.client_sessions.value_at_mut(at);
                session.current_server = Some(id.clone());
                assert(self.client_sessions@ =~= old(self).client_sessions@.insert(
                    client_id.0@,
                    ClientSession { current_server: Some(id), ..noted },
                ));
                return Ok(id);
            },
            StickyVerdict::Clear => {
                let session = self.client_sessions.value_at_mut(at);
                session.sticky_server = None;
            },
            StickyVerdict::Absent => {},
        }
        let ghost kept = if cleared {
            None
        } else {
            noted.sticky_server
        };
        let ghost current = ClientSession { sticky_server: kept, ..noted };
        proof {
            self.client_sessions.lemma_wf();
            assert(self.client_sessions.values()[at as int] == current);
            assert(self.client_sessions@ =~= old(self).client_sessions@.insert(client_id.0@, current));
        }
        let key: String = make_cache_key(client_id, position);
        let cached: Option<ServerId> = match self.routing_cache.get(key.as_str()) {
            Some(entry) => if entry.fresh(now) {
                Some(entry.server_id.clone())
            } else {
                None
            },
            None => None,
        };
        if let Some(id) = cached {
            self.metrics.cache_hits = self.metrics.cache_hits.wrapping_add(1);
            let session = self.client_sessions.value_at_mut(at);
            session.current_server = Some(id.clone());
            assert(self.client_sessions@ =~= old(self).client_sessions@.insert(
                client_id.0@,
                ClientSession { current_server: Some(id), ..current },
            ));
            return Ok(id);
        }
        let _ = self.routing_cache.remove(key.as_str());
        self.metrics.cache_misses = self.metrics.cache_misses.wrapping_add(1);
        self.metrics.position_lookups = self.metrics.position_lookups.wrapping_add(1);
        let selected: ServerId = match find_server_for_position(discovery, position, place) {
            Ok(id) => id,
            Err(error) => {
                return Err(error);
            },
        };
        let affinity = self.config.session_affinity;
        let session = self.client_sessions.value_at_mut(at);
        session.current_server = Some(selected.clone());
        if affinity && session.sticky_server.is_none() {
            session.sticky_server = Some(selected.clone());
        }
        let entry = CacheEntry {
            server_id: selected.clone(),
            cached_at: now,
            ttl: ROUTE_LIFETIME,
        };
        let ghost filed = entry;
        let _ = self.routing_cache.insert(key, entry);
        proof {
            self.client_sessions.lemma_wf();
            let session = self.client_sessions.values()[at as int];
            assert(self.client_sessions@ =~= old(self).client_sessions@.insert(client_id.0@, session));
            assert(self.routing_cache@ =~= old(self).routing_cache@.insert(
                cache_key(*client_id, *position),
                filed,
            ));
        }
        Ok(selected)
    }

    fn note_session(&mut self, client_id: &ClientId, position: &Position, now: i64) -> (result:
        usize)
        requires
            old(self).wf(),
        ensures
            final(self).wf(),
            final(self).config == old(self).config,
            final(self).metrics == old(self).metrics,
            final(self).routing_cache == old(self).routing_cache,
            final(self).client_sessions@ == old(self).client_sessions@.insert(
                client_id.0@,
                noted_session(old(self).client_sessions@, *client_id, *position, now),
            ),
            result < final(self).client_sessions.keys().len(),
            final(self).client_sessions.keys()[result as int] == client_id.0@,
            final(self).client_sessions.values()[result as int] == noted_session(
                old(self).client_sessions@,
                *client_id,
                *position,
                now,
            ),
    {
        proof {
            self.client_sessions.lemma_wf();
        }
        match self.client_sessions.find(client_id.0.as_str()) {
            Some(i) => {
                let session = self.client_sessions.value_at_mut(i);
                session.position = Some(*position);
                session.last_route_time = now;
                i
            },
            None => {
                let session = ClientSession {
                    client_id: client_id.clone(),
                    current_server: None,
                    position: Some(*position),
                    sticky_server: None,
                    last_route_time: now,
                    connection_start: now,
                };
                let i: usize = self.client_sessions.len();
                let _ = self.client_sessions.insert(client_id.0.clone(), session);
                i
            },
        }
    }

    fn judge_sticky(
        &self,
        at: usize,
        discovery: &DiscoveryManager,
        position: &Position,
        from_backend: Result<Option<GameServer>>,
        now: i64,
    ) -> (result: StickyVerdict)
        requires
            self.wf(),
            discovery.wf(),
            at < self.client_sessions.values().len(),
        ensures
            result == sticky_verdict(
                self.config.session_affinity,
                self.client_sessions.values()[at as int].sticky_server,
                discovery.server_cache@,
                from_backend,
                *position,
                now,
            ),
    {
        if !self.config.session_affinity {
            return StickyVerdict::Absent;
        }
        let id: ServerId = match &self.client_sessions.value_at(at).sticky_server {
            None => {
                return StickyVerdict::Absent;
            },
            Some(id) => id.clone(),
        };
        let keep = match discovery.get_server(&id) {
            ServerLookup::Cached(server) => server_is_healthy(server, now)
                && server.gameworld_bounds.contains(position),
            ServerLookup::AskBackend => match from_backend {
                Err(error) => {
                    return StickyVerdict::Unknown(error);
                },
                Ok(None) => false,
                Ok(Some(server)) => server_is_healthy(&server, now)
                    && server.gameworld_bounds.contains(position),
            },
        };
        if keep {
            StickyVerdict::Keep(id)
        } else {
            StickyVerdict::Clear
        }
    }
}

/// The first ready server that owns `position`; `place` is the position as text.
pub fn find_server_for_position(
    discovery: &DiscoveryManager,
    position: &Position,
    place: &str,
) -> (result: Result<ServerId>)
    requires
        discovery.wf(),
    ensures
        match (result, owner_of(discovery.server_cache.values(), *position)) {
            (Ok(id), Some(owner)) => id == owner,
            (Err(error), None) => no_owner(error, place@),
            _ => false,
        },
{
    match discovery.find_ready_server(position) {
        Some(server) => Ok(server.id.clone()),
        None => Err(AtlasError::Routing(join("No server found for position ", place))),
    }
}

/// Whether `error` is a routing error that puts `id` between two texts.
pub open spec fn routing_error(
    error: AtlasError,
    before: Seq<char>,
    id: Seq<char>,
    after: Seq<char>,
) -> bool {
    error matches AtlasError::Routing(text) && text@ == before + id + after
}

/// The identifiers of the servers that are ready, in order.
pub open spec fn ready_ids(servers: Seq<GameServer>) -> Seq<ServerId>
    decreases servers.len(),
{
    if servers.len() == 0 {
        Seq::empty()
    } else {
        let front = ready_ids(servers.drop_last());
        if servers.last().status is Ready {
            front.push(servers.last().id)
        } else {
            front
        }
    }
}

/// The session without a server that is gone.
pub open spec fn without_server(session: ClientSession, server: Seq<char>) -> ClientSession {
    ClientSession {
        current_server: without_id(session.current_server, server),
        sticky_server: without_id(session.sticky_server, server),
        ..session
    }
}

/// The identifier, unless it is that of a server that is gone.
pub open spec fn without_id(id: Option<ServerId>, server: Seq<char>) -> Option<ServerId> {
    if id matches Some(s) && s.0@ == server {
        None
    } else {
        id
    }
}

fn names(id: &Option<ServerId>, server: &ServerId) -> (result: bool)
    ensures
        result == (id matches Some(s) && s.0@ == server.0@),
{
    match id {
        Some(s) => str_eq(s.0.as_str(), server.0.as_str()),
        None => false,
    }
}

/// The routes that are not those of the client.
pub open spec fn without_routes_of(cache: Map<Seq<char>, CacheEntry>, client: Seq<char>) -> Map<
    Seq<char>,
    CacheEntry,
> {
    cache.restrict(Set::new(|k: Seq<char>| !has_prefix(k, client + ":"@)))
}

/// The routes that still count at `now`.
pub open spec fn fresh_routes(cache: Map<Seq<char>, CacheEntry>, now: i64) -> Map<
    Seq<char>,
    CacheEntry,
> {
    cache.restrict(Set::new(|k: Seq<char>| cache[k].is_fresh(now)))
}

/// The server that a client with the given session should move to.
pub open spec fn transition_target(
    current: ServerId,
    known: Option<GameServer>,
    servers: Seq<GameServer>,
    position: Position,
) -> Option<ServerId> {
    if known matches Some(server) && server.gameworld_bounds.spec_contains(position) {
        None
    } else {
        match owner_of(servers, position) {
            Some(owner) => if owner.0@ != current.0@ {
                Some(owner)
            } else {
                None
            },
            None => None,
        }
    }
}

impl RoutingManager {
    /// The servers that a message goes to. `from_backend` is what the backend says
    /// of the server that the message is for; it counts only where the cache does
    /// not hold that server.
    pub fn route_message(
        &self,
        discovery: &DiscoveryManager,
        message: &Message,
        from_backend: Result<Option<GameServer>>,
        now: i64,
    ) -> (result: Result<Vec<ServerId>>)
        requires
            self.wf(),
            discovery.wf(),
        ensures
            match message.to {
                MessageDestination::Server(id) => match known_server(
                    discovery.server_cache@,
                    id.0@,
                    from_backend,
                ) {
                    Err(cause) => result matches Err(error) && error == cause,
                    Ok(server) => if server matches Some(s) && is_healthy(s, now) {
                        result matches Ok(servers) && servers@ == seq![id]
                    } else {
                        result matches Err(error) && routing_error(
                            error,
                            "Target server "@,
                            id.0@,
                            " is not healthy"@,
                        )
                    },
                },
                MessageDestination::Client(id) => if !self.client_sessions@.dom().contains(id.0@) {
                    result matches Err(error) && routing_error(
                        error,
                        "Client "@,
                        id.0@,
                        " not found"@,
                    )
                } else {
                    match self.client_sessions@[id.0@].current_server {
                        Some(server) => result matches Ok(servers) && servers@ == seq![server],
                        None => result matches Err(error) && routing_error(
                            error,
                            "Client "@,
                            id.0@,
                            " has no assigned server"@,
                        ),
                    }
                },
                MessageDestination::Broadcast => result matches Ok(servers) && servers@ == ready_ids(
                    discovery.server_cache.values(),
                ),
                MessageDestination::Atlas(_) => result matches Ok(servers) && servers@.len() == 0,
                MessageDestination::Region(_) => result matches Err(AtlasError::Routing(text))
                    && text@ == "Region-based routing not supported in position-based system"@,
            },
    {
        match &message.to {
            MessageDestination::Server(id) => {
                let healthy = match is_server_healthy(discovery, id, from_backend, now) {
                    Ok(healthy) => healthy,
                    Err(cause) => {
                        return Err(cause);
                    },
                };
                if healthy {
                    let mut servers: Vec<ServerId> = Vec::new();
                    servers.push(id.clone());
                    assert(servers@ =~= seq![*id]);
                    Ok(servers)
                } else {
                    Err(
                        AtlasError::Routing(
                            join3("Target server ", id.0.as_str(), " is not healthy"),
                        ),
                    )
                }
            },
            MessageDestination::Client(id) => {
                match self.client_sessions.get(id.0.as_str()) {
                    Some(session) => match &session.current_server {
                        Some(server) => {
                            let mut servers: Vec<ServerId> = Vec::new();
                            servers.push(server.clone());
                            assert(servers@ =~= seq![*server]);
                            Ok(servers)
                        },
                        None => Err(
                            AtlasError::Routing(
                                join3("Client ", id.0.as_str(), " has no assigned server"),
                            ),
                        ),
                    },
                    None => Err(
                        AtlasError::Routing(join3("Client ", id.0.as_str(), " not found")),
                    ),
                }
            },
            MessageDestination::Broadcast => Ok(ready_servers(discovery)),
            MessageDestination::Atlas(_) => Ok(Vec::new()),
            MessageDestination::Region(_) => Err(
                AtlasError::Routing(
                    "Region-based routing not supported in position-based system".to_owned(),
                ),
            ),
        }
    }

    /// The server that a client should move to from its current one, now that it is
    /// at `new_position`: the owner of that position, where the current server
    /// does not cover it any more. `from_backend` is what the backend says of the
    /// current server; it counts only where the cache does not hold that server.
    pub fn should_transition_client(
        &self,
        discovery: &DiscoveryManager,
        client_id: &ClientId,
        new_position: &Position,
        place: &str,
        from_backend: Result<Option<GameServer>>,
    ) -> (result: Result<Option<ServerId>>)
        requires
            self.wf(),
            discovery.wf(),
        ensures
            if !self.client_sessions@.dom().contains(client_id.0@) {
                result matches Err(error) && routing_error(
                    error,
                    "Client "@,
                    client_id.0@,
                    " not found"@,
                )
            } else {
                match self.client_sessions@[client_id.0@].current_server {
                    None => result matches Ok(target) && target is None,
                    Some(current) => match known_server(
                        discovery.server_cache@,
                        current.0@,
                        from_backend,
                    ) {
                        Err(cause) => result matches Err(error) && error == cause,
                        Ok(known) => {
                            let servers = discovery.server_cache.values();
                            let covered = known matches Some(server)
                                && server.gameworld_bounds.spec_contains(*new_position);
                            match result {
                                Err(error) => {
                                    &&& !covered
                                    &&& owner_of(servers, *new_position) is None
                                    &&& no_owner(error, place@)
                                },
                                Ok(target) => {
                                    &&& covered || owner_of(servers, *new_position) is Some
                                    &&& target == transition_target(
                                        current,
                                        known,
                                        servers,
                                        *new_position,
                                    )
                                },
                            }
                        },
                    },
                }
            },
    {
        let session = match self.client_sessions.get(client_id.0.as_str()) {
            Some(session) => session,
            None => {
                return Err(
                    AtlasError::Routing(join3("Client ", client_id.0.as_str(), " not found")),
                );
            },
        };
        let current = match &session.current_server {
            Some(id) => id,
            None => {
                return Ok(None);
            },
        };
        let covered = match discovery.get_server(current) {
            ServerLookup::Cached(server) => server.gameworld_bounds.contains(new_position),
            ServerLookup::AskBackend => match from_backend {
                Err(cause) => {
                    return Err(cause);
                },
                Ok(None) => false,
                Ok(Some(server)) => server.gameworld_bounds.contains(new_position),
            },
        };
        if covered {
            return Ok(None);
        }
        match find_server_for_position(discovery, new_position, place) {
            Ok(owner) => if str_eq(owner.0.as_str(), current.0.as_str()) {
                Ok(None)
            } else {
                Ok(Some(owner))
            },
            Err(error) => Err(error),
        }
    }

    /// Forgets a client: its session and its cached routes.
    pub fn remove_client(&mut self, client_id: &ClientId)
        requires
            old(self).wf(),
        ensures
            final(self).wf(),
            final(self).config == old(self).config,
            final(self).metrics == old(self).metrics,
            final(self).client_sessions@ == old(self).client_sessions@.remove(client_id.0@),
            final(self).routing_cache@ == without_routes_of(
                old(self).routing_cache@,
                client_id.0@,
            ),
    {
        let _ = self.client_sessions.remove(client_id.0.as_str());
        let prefix: String = join(client_id.0.as_str(), ":");
        let ghost keeps = |k: Seq<char>, entry: CacheEntry| !has_prefix(k, prefix@);
        let keep = |key: &String, _entry: &CacheEntry| -> (kept: bool)
            ensures
                kept == !has_prefix(key@, prefix@),
        {
            !starts_with(key.as_str(), prefix.as_str())
        };
        self.routing_cache.retain(keep, Ghost(keeps));
        proof {
            assert(self.routing_cache@ =~= without_routes_of(
                old(self).routing_cache@,
                client_id.0@,
            ));
        }
    }

    /// Forgets a server: no session has it as its current or sticky server any
    /// more.
    pub fn remove_server(&mut self, server_id: &ServerId)
        requires
            old(self).wf(),
        ensures
            final(self).wf(),
            final(self).config == old(self).config,
            final(self).metrics == old(self).metrics,
            final(self).routing_cache == old(self).routing_cache,
            final(self).client_sessions@ == old(self).client_sessions@.map_values(
                |session: ClientSession| without_server(session, server_id.0@),
            ),
    {
        proof {
            self.client_sessions.lemma_wf();
        }
        let count: usize = self.client_sessions.len();
        let mut i: usize = 0;
        while i < count
            invariant
                i <= count,
                self.wf(),
                old(self).wf(),
                count == old(self).client_sessions.values().len(),
                count == self.client_sessions.values().len(),
                count == self.client_sessions.keys().len(),
                self.config == old(self).config,
                self.metrics == old(self).metrics,
                self.routing_cache == old(self).routing_cache,
                self.client_sessions.keys() == old(self).client_sessions.keys(),
                forall|j: int|
                    0 <= j < count ==> #[trigger] self.client_sessions.values()[j] == (if j < i {
                        without_server(old(self).client_sessions.values()[j], server_id.0@)
                    } else {
                        old(self).client_sessions.values()[j]
                    }),
            decreases count - i,
        {
            proof {
                self.client_sessions.lemma_wf();
                assert(self.client_sessions@.dom().contains(self.client_sessions.keys()[i as int]));
            }
            let is_current = names(&self.client_sessions.value_at(i).current_server, server_id);
            let is_sticky = names(&self.client_sessions.value_at(i).sticky_server, server_id);
            let session = self.client_sessions.value_at_mut(i);
            if is_current {
                session.current_server = None;
            }
            if is_sticky {
                session.sticky_server = None;
            }
            i += 1;
        }
        proof {
            self.client_sessions.lemma_wf();
            old(self).client_sessions.lemma_wf();
            assert(self.client_sessions@ =~= old(self).client_sessions@.map_values(
                |session: ClientSession| without_server(session, server_id.0@),
            ));
        }
    }

    /// Drops the cached routes that do not count any more.
    pub fn cleanup_cache(&mut self, now: i64)
        requires
            old(self).wf(),
        ensures
            final(self).wf(),
            final(self).config == old(self).config,
            final(self).metrics == old(self).metrics,
            final(self).client_sessions == old(self).client_sessions,
            final(self).routing_cache@ == fresh_routes(old(self).routing_cache@, now),
    {
        let ghost keeps = |k: Seq<char>, entry: CacheEntry| entry.is_fresh(now);
        let keep = |_key: &String, entry: &CacheEntry| -> (kept: bool)
            ensures
                kept == entry.is_fresh(now),
        {
            entry.fresh(now)
        };
        self.routing_cache.retain(keep, Ghost(keeps));
        proof {
            assert(self.routing_cache@ =~= fresh_routes(old(self).routing_cache@, now));
        }
    }

    /// The counters and the sizes of the tables.
    pub fn get_routing_metrics(&self) -> (result: RoutingMetricsSnapshot)
        requires
            self.wf(),
        ensures
            result == (RoutingMetricsSnapshot {
                routes_calculated: self.metrics.routes_calculated,
                cache_hits: self.metrics.cache_hits,
                cache_misses: self.metrics.cache_misses,
                position_lookups: self.metrics.position_lookups,
                routing_errors: self.metrics.routing_errors,
                active_client_sessions: self.client_sessions@.dom().len() as u64,
                cached_routes: self.routing_cache@.dom().len() as u64,
            }),
    {
        RoutingMetricsSnapshot {
            routes_calculated: self.metrics.routes_calculated,
            cache_hits: self.metrics.cache_hits,
            cache_misses: self.metrics.cache_misses,
            position_lookups: self.metrics.position_lookups,
            routing_errors: self.metrics.routing_errors,
            active_client_sessions: self.client_sessions.len() as u64,
            cached_routes: self.routing_cache.len() as u64,
        }
    }
}

/// Whether a server is healthy, by the cache or else by the backend; one that
/// neither knows is not.
pub fn is_server_healthy(
    discovery: &DiscoveryManager,
    server_id: &ServerId,
    from_backend: Result<Option<GameServer>>,
    now: i64,
) -> (result: Result<bool>)
    requires
        discovery.wf(),
    ensures
        match known_server(discovery.server_cache@, server_id.0@, from_backend) {
            Err(cause) => result matches Err(error) && error == cause,
            Ok(server) => result matches Ok(healthy) && healthy == (server matches Some(s)
                && is_healthy(s, now)),
        },
{
    match discovery.get_server(server_id) {
        ServerLookup::Cached(server) => Ok(server_is_healthy(server, now)),
        ServerLookup::AskBackend => match from_backend {
            Err(cause) => Err(cause),
            Ok(Some(server)) => Ok(server_is_healthy(&server, now)),
            Ok(None) => Ok(false),
        },
    }
}

fn ready_servers(discovery: &DiscoveryManager) -> (result: Vec<ServerId>)
    requires
        discovery.wf(),
    ensures
        result@ == ready_ids(discovery.server_cache.values()),
{
    let mut out: Vec<ServerId> = Vec::new();
    let ghost servers = discovery.server_cache.values();
    assert(servers.take(0) =~= Seq::<GameServer>::empty());
    let mut i: usize = 0;
    while i < discovery.server_cache.len()
        invariant
            discovery.wf(),
            servers == discovery.server_cache.values(),
            i <= servers.len(),
            out@ == ready_ids(servers.take(i as int)),
        decreases servers.len() - i,
    {
        assert(servers.take(i + 1).drop_last() =~= servers.take(i as int));
        let server = discovery.server_cache.value_at(i);
        if matches!(server.status, ServerStatus::Ready) {
            out.push(server.id.clone());
        }
        i += 1;
    }
    assert(servers.take(i as int) =~= servers);
    out
}

/// A client is only ever sent to a ready server that owns its position, and a
/// position has no owner only where no ready server covers it.
pub proof fn lemma_owner_is_ready_and_covers(servers: Seq<GameServer>, position: Position)
    ensures
        match owner_of(servers, position) {
            Some(id) => exists|i: int|
                0 <= i < servers.len() && (#[trigger] servers[i]).id == id
                    && servers[i].status is Ready && servers[i].gameworld_bounds.spec_contains(
                    position,
                ),
            None => forall|i: int|
                0 <= i < servers.len() && (#[trigger] servers[i]).status is Ready
                    ==> !servers[i].gameworld_bounds.spec_contains(position),
        },
{
    lemma_first_index(servers, serves(position));
    match first_index(servers, serves(position)) {
        Some(i) => {
            assert(servers[i].id == owner_of(servers, position)->0);
        },
        None => {
            assert forall|i: int| 0 <= i < servers.len() && (#[trigger] servers[i]).status is Ready implies
                !servers[i].gameworld_bounds.spec_contains(position) by {
                assert(!serves(position)(servers[i]));
            }
        },
    }
}

/// Once a client is forgotten, no position of its has a cached route.
pub proof fn lemma_forgotten_client_has_no_route(
    cache: Map<Seq<char>, CacheEntry>,
    client: ClientId,
    position: Position,
)
    ensures
        !without_routes_of(cache, client.0@).dom().contains(cache_key(client, position)),
{
    let key = cache_key(client, position);
    let prefix = client.0@ + ":"@;
    assert(key.take(prefix.len() as int) =~= prefix);
}

/// A route that was just cached counts for the next half minute, and not after.
pub proof fn lemma_route_is_remembered(
    cache: Map<Seq<char>, CacheEntry>,
    key: Seq<char>,
    server_id: ServerId,
    now: i64,
    later: i64,
)
    requires
        now <= later,
    ensures
        has_route(
            cache.insert(key, CacheEntry { server_id, cached_at: now, ttl: ROUTE_LIFETIME }),
            key,
            later,
        ) <==> later - now < ROUTE_LIFETIME,
{
}

/// A clean-up drops exactly the routes that do not count: those that count are
/// found afterwards as before.
pub proof fn lemma_cleanup_keeps_fresh_routes(
    cache: Map<Seq<char>, CacheEntry>,
    key: Seq<char>,
    now: i64,
)
    ensures
        has_route(fresh_routes(cache, now), key, now) == has_route(cache, key, now),
        has_route(cache, key, now) ==> fresh_routes(cache, now)[key] == cache[key],
        fresh_routes(cache, now).dom().contains(key) ==> has_route(cache, key, now),
{
}

/// A session never names a server that was removed, and keeps any other that it
/// names.
pub proof fn lemma_removed_server_is_not_named(
    session: ClientSession,
    server: Seq<char>,
    other: ServerId,
)
    ensures
        without_server(session, server).current_server matches Some(id) ==> id.0@ != server,
        without_server(session, server).sticky_server matches Some(id) ==> id.0@ != server,
        other.0@ != server && session.current_server == Some(other) ==> without_server(
            session,
            server,
        ).current_server == Some(other),
{
}

/// A route that is found was cached for the same client, at a position with the same whole
/// coordinates: caching one for another client or another place does not bring it about.
pub proof fn lemma_cached_route_was_stored_for_this_place(
    cache: Map<Seq<char>, CacheEntry>,
    stored_for: ClientId,
    stored_at: Position,
    entry: CacheEntry,
    client: ClientId,
    position: Position,
    now: i64,
)
    requires
        !has_route(cache, cache_key(client, position), now),
        has_route(cache.insert(cache_key(stored_for, stored_at), entry), cache_key(
            client,
            position,
        ), now),
    ensures
        stored_for.0@ == client.0@,
        stored_at.x.spec_truncated() == position.x.spec_truncated(),
        stored_at.y.spec_truncated() == position.y.spec_truncated(),
        stored_at.z.spec_truncated() == position.z.spec_truncated(),
        elapsed(entry.cached_at as int, now as int) < entry.ttl,
{
    lemma_cache_key_tells_places_apart(client, position, stored_for, stored_at);
}

/// A cached route counts less the older it is: one that counts later counts now, and one
/// that was cached in the future counts at once.
pub proof fn lemma_routes_only_grow_stale(entry: CacheEntry, now: i64, later: i64)
    requires
        now <= later,
    ensures
        entry.is_fresh(later) ==> entry.is_fresh(now),
        later <= entry.cached_at && entry.ttl > 0 ==> entry.is_fresh(now),
        later - entry.cached_at >= entry.ttl ==> !entry.is_fresh(later),
        ROUTE_LIFETIME == 30 * 1_000_000_000,
{
}

/// A client is kept on the server of its session only where sessions have affinity, and
/// only by that very server, ready, with a recent heartbeat, and with the client's
/// position in its part of the world. The cache comes before the backend.
pub proof fn lemma_sticky_server_keeps_only_its_own(
    affinity: bool,
    sticky: Option<ServerId>,
    cache: Map<Seq<char>, GameServer>,
    from_backend: Result<Option<GameServer>>,
    position: Position,
    now: i64,
)
    ensures
        ({
            let verdict = sticky_verdict(affinity, sticky, cache, from_backend, position, now);
            &&& verdict is Absent <==> !affinity || sticky is None
            &&& verdict matches StickyVerdict::Keep(id) ==> {
                &&& sticky == Some(id)
                &&& cache.dom().contains(id.0@) ==> cache[id.0@].status is Ready
                    && cache[id.0@].gameworld_bounds.spec_contains(position) && -30_000_000_000
                    < now - cache[id.0@].last_heartbeat < 30_000_000_000
                &&& !cache.dom().contains(id.0@) ==> (from_backend matches Ok(Some(server))
                    && server.status is Ready && server.gameworld_bounds.spec_contains(position)
                    && -30_000_000_000 < now - server.last_heartbeat < 30_000_000_000)
            }
            &&& verdict matches StickyVerdict::Unknown(error) ==> {
                &&& sticky matches Some(id) && !cache.dom().contains(id.0@)
                &&& from_backend == Err::<Option<GameServer>, AtlasError>(error)
            }
            &&& affinity && sticky is Some && cache.dom().contains((sticky->0).0@) ==> {
                let server = cache[(sticky->0).0@];
                &&& server.status is Ready && server.gameworld_bounds.spec_contains(position)
                    && -30_000_000_000 < now - server.last_heartbeat < 30_000_000_000
                    ==> verdict is Keep
                &&& verdict is Keep || verdict is Clear
            }
        }),
{
    match sticky {
        Some(id) => {
            lemma_healthy_for_half_a_minute(cache[id.0@], now);
            match from_backend {
                Ok(Some(server)) => {
                    lemma_healthy_for_half_a_minute(server, now);
                },
                _ => {},
            }
        },
        None => {},
    }
}

/// Noting a request changes only where a client is and when it was last routed. A client
/// that is new has no server yet.
pub proof fn lemma_noting_keeps_the_session(
    sessions: Map<Seq<char>, ClientSession>,
    client: ClientId,
    position: Position,
    now: i64,
)
    ensures
        ({
            let noted = noted_session(sessions, client, position, now);
            &&& noted.position == Some(position)
            &&& noted.last_route_time == now
            &&& sessions.dom().contains(client.0@) ==> {
                let before = sessions[client.0@];
                &&& noted.client_id == before.client_id
                &&& noted.current_server == before.current_server
                &&& noted.sticky_server == before.sticky_server
                &&& noted.connection_start == before.connection_start
            }
            &&& !sessions.dom().contains(client.0@) ==> {
                &&& noted.client_id == client
                &&& noted.current_server is None && noted.sticky_server is None
                &&& noted.connection_start == now
            }
        }),
{
}

/// A broadcast goes to every server that is ready, to no other, and to each as often as it
/// is listed, in the order of the list.
pub proof fn lemma_broadcast_reaches_ready_servers(servers: Seq<GameServer>, id: ServerId)
    ensures
        ready_ids(servers).contains(id) <==> exists|i: int|
            0 <= i < servers.len() && (#[trigger] servers[i]).id == id && servers[i].status
                == ServerStatus::Ready,
        ready_ids(servers) == servers.filter(
            |s: GameServer| s.status == ServerStatus::Ready,
        ).map_values(|s: GameServer| s.id),
    decreases servers.len(),
{
    reveal(Seq::filter);
    let wanted = |s: GameServer| s.status == ServerStatus::Ready;
    let ids = |s: GameServer| s.id;
    if servers.len() == 0 {
        assert(ready_ids(servers) =~= servers.filter(wanted).map_values(ids));
    } else {
        let front = servers.drop_last();
        lemma_broadcast_reaches_ready_servers(front, id);
        assert(ready_ids(servers) =~= servers.filter(wanted).map_values(ids));
        let list = ready_ids(front);
        if servers.last().status is Ready {
            crate::table::lemma_push_contains(list, servers.last().id);
        }
        if exists|i: int|
            0 <= i < servers.len() && (#[trigger] servers[i]).id == id && servers[i].status
                == ServerStatus::Ready {
            let i = choose|i: int|
                0 <= i < servers.len() && (#[trigger] servers[i]).id == id && servers[i].status
                    == ServerStatus::Ready;
            if i < front.len() {
                assert(front[i].id == id);
            }
        }
        if list.contains(id) {
            let i = choose|i: int|
                0 <= i < front.len() && (#[trigger] front[i]).id == id && front[i].status
                    == ServerStatus::Ready;
            assert(servers[i].id == id);
        }
        if servers.last().status is Ready && servers.last().id == id {
            assert(servers[servers.len() - 1].id == id);
        }
    }
}

/// Forgetting a client whose identifier holds no colon takes away its own routes, and no
/// route of a client whose identifier does not start with that identifier and a colon.
pub proof fn lemma_other_clients_keep_their_routes(
    cache: Map<Seq<char>, CacheEntry>,
    gone: ClientId,
    other: ClientId,
    position: Position,
)
    requires
        !gone.0@.contains(':'),
        cache.dom().contains(cache_key(other, position)),
    ensures
        without_routes_of(cache, gone.0@).dom().contains(cache_key(other, position))
            <==> !has_prefix(other.0@ + ":"@, gone.0@ + ":"@),
        other.0@ == gone.0@ ==> !without_routes_of(cache, gone.0@).dom().contains(
            cache_key(other, position),
        ),
        !other.0@.contains(':') && other.0@ != gone.0@ ==> without_routes_of(
            cache,
            gone.0@,
        ).dom().contains(cache_key(other, position)),
        without_routes_of(cache, gone.0@).dom().contains(cache_key(other, position))
            ==> without_routes_of(cache, gone.0@)[cache_key(other, position)] == cache[cache_key(
            other,
            position,
        )],
{
    reveal_strlit(":");
    let key = cache_key(other, position);
    let prefix = gone.0@ + ":"@;
    let start = other.0@ + ":"@;
    let rest = signed_decimal(position.x.spec_truncated()) + ":"@ + signed_decimal(
        position.y.spec_truncated(),
    ) + ":"@ + signed_decimal(position.z.spec_truncated());
    assert(key =~= start + rest);
    if start.len() >= prefix.len() {
        assert(start.take(prefix.len() as int) =~= key.take(prefix.len() as int));
        if has_prefix(start, prefix) {
            assert(start[gone.0@.len() as int] == prefix[gone.0@.len() as int]);
            if start.len() == prefix.len() {
                assert(start =~= start.take(prefix.len() as int));
                assert(other.0@ =~= start.take(gone.0@.len() as int));
                assert(gone.0@ =~= prefix.take(gone.0@.len() as int));
            } else {
                assert(start.take(prefix.len() as int)[gone.0@.len() as int] == ':');
                assert(other.0@[gone.0@.len() as int] == ':');
            }
        }
    } else {
        let k = other.0@.len() as int;
        if has_prefix(key, prefix) {
            assert(key[k] == ':');
            assert(key.take(prefix.len() as int)[k] == prefix[k]);
            assert(gone.0@[k] == ':');
        }
    }
    if other.0@ == gone.0@ {
        assert(start =~= prefix);
        assert(start.take(prefix.len() as int) =~= prefix);
    }
}

/// A client moves only to a server other than its own, that is ready and covers its new
/// position, and only where its own server does not cover that any more.
pub proof fn lemma_transition_leaves_a_server_behind(
    current: ServerId,
    known: Option<GameServer>,
    servers: Seq<GameServer>,
    position: Position,
)
    ensures
        match transition_target(current, known, servers, position) {
            Some(target) => {
                &&& target.0@ != current.0@
                &&& known matches Some(server) ==> !server.gameworld_bounds.spec_contains(position)
                &&& exists|i: int|
                    0 <= i < servers.len() && (#[trigger] servers[i]).id == target
                        && servers[i].status is Ready && servers[i].gameworld_bounds.spec_contains(
                        position,
                    )
            },
            None => {
                ||| known matches Some(server) && server.gameworld_bounds.spec_contains(position)
                ||| forall|i: int|
                    0 <= i < servers.len() && (#[trigger] servers[i]).status is Ready
                        ==> !servers[i].gameworld_bounds.spec_contains(position)
                ||| exists|i: int|
                    0 <= i < servers.len() && (#[trigger] servers[i]).id.0@ == current.0@
                        && servers[i].status is Ready && servers[i].gameworld_bounds.spec_contains(
                        position,
                    )
            },
        },
{
    lemma_owner_is_ready_and_covers(servers, position);
}

/// What is known of a server comes from the cache wherever it is there.
pub proof fn lemma_cache_comes_before_backend(
    cache: Map<Seq<char>, GameServer>,
    id: Seq<char>,
    one: Result<Option<GameServer>>,
    other: Result<Option<GameServer>>,
)
    ensures
        cache.dom().contains(id) ==> known_server(cache, id, one) == known_server(cache, id, other)
            && known_server(cache, id, one) == Ok::<Option<GameServer>, AtlasError>(
            Some(cache[id]),
        ),
        !cache.dom().contains(id) ==> known_server(cache, id, one) == one,
{
}

/// Removing a server clears it from a session where the session names it, as the current
/// server and as the sticky one, and changes nothing else of the session.
pub proof fn lemma_removing_a_server_clears_its_name(session: ClientSession, server: ServerId)
    ensures
        ({
            let after = without_server(session, server.0@);
            &&& session.current_server == Some(server) ==> after.current_server is None
            &&& session.sticky_server == Some(server) ==> after.sticky_server is None
            &&& session.current_server is Some && (session.current_server->0).0@ != server.0@
                ==> after.current_server == session.current_server
            &&& session.sticky_server is Some && (session.sticky_server->0).0@ != server.0@
                ==> after.sticky_server == session.sticky_server
            &&& after.client_id == session.client_id
            &&& after.position == session.position
            &&& after.last_route_time == session.last_route_time
            &&& after.connection_start == session.connection_start
        }),
{
}

/// Of the ready servers that cover a position, the first in the list owns it.
pub proof fn lemma_first_ready_server_owns(
    servers: Seq<GameServer>,
    position: Position,
    i: int,
)
    requires
        0 <= i < servers.len(),
        servers[i].status == ServerStatus::Ready,
        servers[i].gameworld_bounds.spec_contains(position),
        forall|j: int|
            0 <= j < i && (#[trigger] servers[j]).status == ServerStatus::Ready
                ==> !servers[j].gameworld_bounds.spec_contains(position),
    ensures
        owner_of(servers, position) == Some(servers[i].id),
{
    let wanted = serves(position);
    assert forall|j: int| 0 <= j < i implies !wanted(#[trigger] servers[j]) by {}
    assert(crate::search::is_first(servers, wanted, i));
    crate::search::lemma_first_found(servers, wanted, i);
}

} // verus!
