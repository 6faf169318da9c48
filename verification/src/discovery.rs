//! Discovery of game servers: the cache, the static list and the Consul records.
use vstd::prelude::*;

use crate::clock::{span_in, whole_units, NANOS_PER_SECOND};
use crate::config::{DiscoveryBackend, DiscoveryConfig, StaticServer, THOUSAND_BITS};
use crate::errors::{AtlasError, Result};
use crate::json::{
    json_elements, json_elements_of, json_member, json_member_of, member_string, member_unsigned,
    opt_text, read_member_string, read_member_unsigned,
};
use crate::scalar::Scalar;
use crate::search::{first_index, is_first, lemma_first_found, lemma_none_found};
use crate::table::{texts, Table};
use crate::text::{decimal, decimal_u64, join, join3, parse_u32, str_eq, unsigned_value};
use crate::types::{GameServer, Position, RegionBounds, ServerId, ServerStatus};

verus! {

/// The game servers as last discovered.
pub struct DiscoveryManager {
    pub config: DiscoveryConfig,
    pub server_cache: Table<GameServer>,
}

/// Where a server's description is to be taken from.
pub enum ServerLookup<'a> {
    /// It is in the cache.
    Cached(&'a GameServer),
    /// The backend has to be asked.
    AskBackend,
}

/// The cache that results from filing `servers` one after the other.
pub open spec fn filed(servers: Seq<GameServer>) -> Map<Seq<char>, GameServer>
    decreases servers.len(),
{
    if servers.len() == 0 {
        Map::empty()
    } else {
        filed(servers.drop_last()).insert(servers.last().id.0@, servers.last())
    }
}

/// Whether a server is ready and its last heartbeat is less than half a minute
/// away from `now`.
pub open spec fn is_healthy(server: GameServer, now: i64) -> bool {
    &&& server.status is Ready
    &&& -30 < whole_units(server.last_heartbeat - now, NANOS_PER_SECOND as int) < 30
}

/// Whether a server is ready and its last heartbeat is less than half a minute
/// away from `now`.
pub fn server_is_healthy(server: &GameServer, now: i64) -> (result: bool)
    ensures
        result == is_healthy(*server, now),
{
    let seconds: i64 = span_in(now, server.last_heartbeat, NANOS_PER_SECOND);
    matches!(server.status, ServerStatus::Ready) && -30 < seconds && seconds < 30
}

impl DiscoveryManager {
    /// Every server is filed under its own identifier.
    pub open spec fn wf(&self) -> bool {
        &&& self.server_cache.wf()
        &&& forall|k: Seq<char>| #[trigger]
            self.server_cache@.dom().contains(k) ==> self.server_cache@[k].id.0@ == k
    }

    /// A manager that has discovered nothing yet.
    pub fn new(config: DiscoveryConfig) -> (result: Self)
        ensures
            result.wf(),
            result.config == config,
            result.server_cache@ == Map::<Seq<char>, GameServer>::empty(),
    {
        DiscoveryManager { config, server_cache: Table::new() }
    }

    /// Files a server that the backend has registered.
    pub fn register_server(&mut self, server: GameServer)
        requires
            old(self).wf(),
        ensures
            final(self).wf(),
            final(self).config == old(self).config,
            final(self).server_cache@ == old(self).server_cache@.insert(server.id.0@, server),
    {
        let key: String = server.id.0.clone();
        let _ = self.server_cache.insert(key, server);
    }

    /// Drops a server from the cache, before the backend is told.
    pub fn deregister_server(&mut self, server_id: &ServerId)
        requires
            old(self).wf(),
        ensures
            final(self).wf(),
            final(self).config == old(self).config,
            final(self).server_cache@ == old(self).server_cache@.remove(server_id.0@),
    {
        let _ = self.server_cache.remove(server_id.0.as_str());
    }

    /// The cached description of a server, or word that the backend is to be
    /// asked.
    pub fn get_server(&self, server_id: &ServerId) -> (result: ServerLookup<'_>)
        requires
            self.wf(),
        ensures
            match result {
                ServerLookup::Cached(server) => self.server_cache@.dom().contains(server_id.0@)
                    && *server == self.server_cache@[server_id.0@],
                ServerLookup::AskBackend => !self.server_cache@.dom().contains(server_id.0@),
            },
    {
        match self.server_cache.get(server_id.0.as_str()) {
            Some(server) => ServerLookup::Cached(server),
            None => ServerLookup::AskBackend,
        }
    }

    /// The first cached server whose part of the world contains `position`,
    /// whatever its condition.
    pub fn get_server_for_position(&self, position: &Position) -> (result: Option<&GameServer>)
        requires
            self.wf(),
        ensures
            ({
                let wanted = |s: GameServer| s.gameworld_bounds.spec_contains(*position);
                match (result, first_index(self.server_cache.values(), wanted)) {
                    (Some(server), Some(i)) => *server == self.server_cache.values()[i],
                    (None, None) => true,
                    _ => false,
                }
            }),
    {
        let ghost wanted = |s: GameServer| s.gameworld_bounds.spec_contains(*position);
        let ghost servers = self.server_cache.values();
        let mut i: usize = 0;
        while i < self.server_cache.len()
            invariant
                self.wf(),
                i <= servers.len(),
                servers == self.server_cache.values(),
                wanted == (|s: GameServer| s.gameworld_bounds.spec_contains(*position)),
                forall|j: int| 0 <= j < i ==> !wanted(#[trigger] servers[j]),
            decreases servers.len() - i,
        {
            let server = self.server_cache.value_at(i);
            if server.gameworld_bounds.contains(position) {
                proof {
                    lemma_first_found(servers, wanted, i as int);
                }
                return Some(server);
            }
            i += 1;
        }
        proof {
            lemma_none_found(servers, wanted);
        }
        None
    }

    /// The first cached server that is ready and whose part of the world contains
    /// `position`.
    pub fn find_ready_server(&self, position: &Position) -> (result: Option<&GameServer>)
        requires
            self.wf(),
        ensures
            match (result, first_index(self.server_cache.values(), serves(*position))) {
                (Some(server), Some(i)) => *server == self.server_cache.values()[i],
                (None, None) => true,
                _ => false,
            },
    {
        let ghost wanted = serves(*position);
        let ghost servers = self.server_cache.values();
        let mut i: usize = 0;
        while i < self.server_cache.len()
            invariant
                self.wf(),
                i <= servers.len(),
                servers == self.server_cache.values(),
                wanted == serves(*position),
                forall|j: int| 0 <= j < i ==> !wanted(#[trigger] servers[j]),
            decreases servers.len() - i,
        {
            let server = self.server_cache.value_at(i);
            if matches!(server.status, ServerStatus::Ready) && server.gameworld_bounds.contains(
                position,
            ) {
                proof {
                    lemma_first_found(servers, wanted, i as int);
                }
                return Some(server);
            }
            i += 1;
        }
        proof {
            lemma_none_found(servers, wanted);
        }
        None
    }

    /// All cached servers.
    pub fn get_all_servers(&self) -> (result: Vec<&GameServer>)
        requires
            self.wf(),
        ensures
            result@.len() == self.server_cache.values().len(),
            forall|i: int|
                0 <= i < result@.len() ==> *(#[trigger] result@[i]) == self.server_cache.values()[i],
    {
        let mut out: Vec<&GameServer> = Vec::new();
        let mut i: usize = 0;
        while i < self.server_cache.len()
            invariant
                self.wf(),
                i <= self.server_cache.values().len(),
                out@.len() == i,
                forall|j: int|
                    0 <= j < i ==> *(#[trigger] out@[j]) == self.server_cache.values()[j],
            decreases self.server_cache.values().len() - i,
        {
            out.push(self.server_cache.value_at(i));
            i += 1;
        }
        out
    }

    /// Notes a server's new status in the cache, before the backend is told.
    pub fn update_server_status(&mut self, server_id: &ServerId, status: ServerStatus)
        requires
            old(self).wf(),
        ensures
            final(self).wf(),
            final(self).config == old(self).config,
            final(self).server_cache@ == (if old(self).server_cache@.dom().contains(server_id.0@) {
                old(self).server_cache@.insert(
                    server_id.0@,
                    GameServer { status, ..old(self).server_cache@[server_id.0@] },
                )
            } else {
                old(self).server_cache@
            }),
    {
        if let Some(i) = self.server_cache.find(server_id.0.as_str()) {
            let server = self.server_cache.value_at_mut(i);
            server.status = status;
        }
    }

    /// Replaces the cache by what was discovered. Of two servers with the same
    /// identifier the later one counts.
    pub fn update_server_cache(&mut self, servers: Vec<GameServer>)
        ensures
            final(self).wf(),
            final(self).config == old(self).config,
            final(self).server_cache@ == filed(servers@),
    {
        self.server_cache.clear();
        assert(servers@.take(0) =~= Seq::<GameServer>::empty());
        for server in iter: servers
            invariant
                iter.seq() == servers@,
                self.wf(),
                self.config == old(self).config,
                self.server_cache@ == filed(servers@.take(iter.index() as int)),
        {
            proof {
                let i = iter.index() as int;
                assert(servers@.take(i + 1).drop_last() =~= servers@.take(i));
                assert(servers@.take(i + 1).last() == server);
            }
            let key: String = server.id.0.clone();
            let _ = self.server_cache.insert(key, server);
        }
        assert(servers@.take(servers@.len() as int) =~= servers@);
    }
}

/// Whether a server is ready and its part of the world contains `position`.
pub open spec fn serves(position: Position) -> spec_fn(GameServer) -> bool {
    |s: GameServer| s.status is Ready && s.gameworld_bounds.spec_contains(position)
}

/// The backend that a configuration calls for.
#[derive(Debug)]
pub enum BackendChoice {
    /// A fixed list of servers.
    Static(StaticDiscovery),
    /// A Consul agent at this endpoint.
    Consul(String),
}

/// The backend that a configuration calls for. There is no client for etcd: an
/// empty list stands in for it.
pub fn create_discovery_backend(backend: DiscoveryBackend, now: i64) -> (result: BackendChoice)
    ensures
        match (backend, result) {
            (DiscoveryBackend::Etcd { .. }, BackendChoice::Static(list)) => list.servers@.len() == 0,
            (DiscoveryBackend::Consul { endpoint }, BackendChoice::Consul(chosen)) => chosen
                == endpoint,
            (DiscoveryBackend::Static { servers }, BackendChoice::Static(list)) => listed(
                servers@,
                list.servers@,
                now,
            ),
            _ => false,
        },
{
    match backend {
        DiscoveryBackend::Etcd { .. } => BackendChoice::Static(StaticDiscovery::new(Vec::new(), now)),
        DiscoveryBackend::Consul { endpoint } => BackendChoice::Consul(endpoint),
        DiscoveryBackend::Static { servers } => BackendChoice::Static(
            StaticDiscovery::new(servers, now),
        ),
    }
}

/// A fixed list of servers.
#[derive(Debug)]
pub struct StaticDiscovery {
    pub servers: Vec<GameServer>,
}

/// Whether `server` is what a configured server starts out as.
pub open spec fn is_fresh(configured: StaticServer, server: GameServer, now: i64) -> bool {
    &&& server.id.0 == configured.id
    &&& server.address == configured.address
    &&& server.gameworld_bounds == configured.gameworld_bounds
    &&& server.regions@.len() == 0
    &&& server.status is Ready
    &&& server.load == Scalar::Number(0)
    &&& server.max_capacity == 1000
    &&& server.current_players == 0
    &&& server.last_heartbeat == now
    &&& server.metadata@.len() == 0
}

/// Whether `servers` are what the configured servers start out as, in order.
pub open spec fn listed(configured: Seq<StaticServer>, servers: Seq<GameServer>, now: i64) -> bool {
    &&& servers.len() == configured.len()
    &&& forall|i: int|
        0 <= i < servers.len() ==> is_fresh(configured[i], #[trigger] servers[i], now)
}

/// Whether a server has the identifier `id`.
pub open spec fn has_id(id: Seq<char>) -> spec_fn(GameServer) -> bool {
    |s: GameServer| s.id.0@ == id
}

/// The list once `server` has been registered: in place of the first with its
/// identifier, or else at the end.
pub open spec fn registered(servers: Seq<GameServer>, server: GameServer) -> Seq<GameServer> {
    match first_index(servers, has_id(server.id.0@)) {
        Some(i) => servers.update(i, server),
        None => servers.push(server),
    }
}

impl StaticDiscovery {
    /// The configured servers, ready since `now`.
    pub fn new(static_servers: Vec<StaticServer>, now: i64) -> (result: Self)
        ensures
            listed(static_servers@, result.servers@, now),
    {
        let mut servers: Vec<GameServer> = Vec::new();
        let mut i: usize = 0;
        while i < static_servers.len()
            invariant
                i <= static_servers@.len(),
                servers@.len() == i,
                forall|j: int|
                    0 <= j < i ==> is_fresh(static_servers@[j], #[trigger] servers@[j], now),
            decreases static_servers@.len() - i,
        {
            let configured = &static_servers[i];
            servers.push(
                GameServer {
                    id: ServerId::from_string(configured.id.clone()),
                    address: configured.address.clone(),
                    regions: Vec::new(),
                    status: ServerStatus::Ready,
                    load: Scalar::Number(0),
                    max_capacity: 1000,
                    current_players: 0,
                    last_heartbeat: now,
                    metadata: Vec::new(),
                    gameworld_bounds: configured.gameworld_bounds,
                },
            );
            i += 1;
        }
        StaticDiscovery { servers }
    }

    fn position_of(&self, id: &str) -> (result: Option<usize>)
        ensures
            match (result, first_index(self.servers@, has_id(id@))) {
                (Some(i), Some(k)) => i == k && i < self.servers@.len() && self.servers@[i as int].id.0@
                    == id@,
                (None, None) => true,
                _ => false,
            },
    {
        let mut i: usize = 0;
        while i < self.servers.len()
            invariant
                i <= self.servers@.len(),
                forall|j: int| 0 <= j < i ==> !has_id(id@)(#[trigger] self.servers@[j]),
            decreases self.servers@.len() - i,
        {
            if str_eq(self.servers[i].id.0.as_str(), id) {
                proof {
                    lemma_first_found(self.servers@, has_id(id@), i as int);
                }
                return Some(i);
            }
            i += 1;
        }
        proof {
            lemma_none_found(self.servers@, has_id(id@));
        }
        None
    }

    /// Puts a server on the list, in place of the first with its identifier.
    pub fn register_server(&mut self, server: GameServer)
        ensures
            final(self).servers@ == registered(old(self).servers@, server),
    {
        match self.position_of(server.id.0.as_str()) {
            Some(i) => {
                self.servers.set(i, server);
            },
            None => {
                self.servers.push(server);
            },
        }
    }

    /// Takes every server with the identifier off the list.
    pub fn deregister_server(&mut self, server_id: &ServerId)
        ensures
            final(self).servers@ == old(self).servers@.filter(
                |s: GameServer| s.id.0@ != server_id.0@,
            ),
    {
        let ghost keeps = |s: GameServer| s.id.0@ != server_id.0@;
        let mut kept: Vec<GameServer> = Vec::new();
        let mut all: Vec<GameServer> = Vec::new();
        std::mem::swap(&mut self.servers, &mut all);
        let ghost servers = all@;
        reveal(Seq::filter);
        assert(servers.take(0) =~= Seq::<GameServer>::empty());
        assert(servers.take(0).filter(keeps) =~= Seq::<GameServer>::empty());
        for server in iter: all
            invariant
                iter.seq() == servers,
                keeps == (|s: GameServer| s.id.0@ != server_id.0@),
                kept@ == servers.take(iter.index() as int).filter(keeps),
        {
            proof {
                reveal(Seq::filter);
                let i = iter.index() as int;
                assert(servers.take(i + 1).drop_last() =~= servers.take(i));
                assert(servers.take(i + 1).last() == server);
            }
            if !str_eq(server.id.0.as_str(), server_id.0.as_str()) {
                kept.push(server);
            }
        }
        assert(servers.take(servers.len() as int) =~= servers);
        self.servers = kept;
    }

    /// Copies of all servers on the list.
    pub fn discover_servers(&self) -> (result: Vec<GameServer>)
        ensures
            result@.len() == self.servers@.len(),
            forall|i: int|
                0 <= i < result@.len() ==> (#[trigger] result@[i]).same_as(self.servers@[i]),
    {
        let mut out: Vec<GameServer> = Vec::new();
        let mut i: usize = 0;
        while i < self.servers.len()
            invariant
                i <= self.servers@.len(),
                out@.len() == i,
                forall|j: int| 0 <= j < i ==> (#[trigger] out@[j]).same_as(self.servers@[j]),
            decreases self.servers@.len() - i,
        {
            out.push(self.servers[i].clone());
            i += 1;
        }
        out
    }

    /// The first server with the identifier.
    pub fn get_server(&self, server_id: &ServerId) -> (result: Option<&GameServer>)
        ensures
            match (result, first_index(self.servers@, has_id(server_id.0@))) {
                (Some(server), Some(i)) => *server == self.servers@[i],
                (None, None) => true,
                _ => false,
            },
    {
        match self.position_of(server_id.0.as_str()) {
            Some(i) => Some(&self.servers[i]),
            None => None,
        }
    }

    /// Notes the new status of the first server with the identifier.
    pub fn update_server_status(&mut self, server_id: &ServerId, status: ServerStatus)
        ensures
            final(self).servers@ == match first_index(old(self).servers@, has_id(server_id.0@)) {
                Some(i) => old(self).servers@.update(
                    i,
                    GameServer { status, ..old(self).servers@[i] },
                ),
                None => old(self).servers@,
            },
    {
        if let Some(i) = self.position_of(server_id.0.as_str()) {
            self.servers[i].status = status;
        }
    }

    /// A fixed list is always in order.
    pub fn health_check(&self) -> (result: bool)
        ensures
            result,
    {
        true
    }
}

/// A server just registered is the one that is found.
pub proof fn lemma_registered_is_found(servers: Seq<GameServer>, server: GameServer)
    ensures
        ({
            let list = registered(servers, server);
            first_index(list, has_id(server.id.0@)) matches Some(i) && list[i] == server
        }),
{
    let wanted = has_id(server.id.0@);
    crate::search::lemma_first_index(servers, wanted);
    let list = registered(servers, server);
    match first_index(servers, wanted) {
        Some(i) => {
            assert(is_first(list, wanted, i));
            lemma_first_found(list, wanted, i);
        },
        None => {
            assert(is_first(list, wanted, servers.len() as int));
            lemma_first_found(list, wanted, servers.len() as int);
        },
    }
}

/// Registering a server leaves what is found under any other identifier alone.
pub proof fn lemma_register_keeps_others(servers: Seq<GameServer>, server: GameServer, id: Seq<char>)
    requires
        id != server.id.0@,
    ensures
        first_index(registered(servers, server), has_id(id)) == first_index(servers, has_id(id)),
        first_index(servers, has_id(id)) matches Some(i) ==> registered(servers, server)[i]
            == servers[i],
{
    let wanted = has_id(id);
    let list = registered(servers, server);
    crate::search::lemma_first_index(servers, has_id(server.id.0@));
    crate::search::lemma_first_index(servers, wanted);
    match first_index(servers, wanted) {
        Some(i) => {
            assert(is_first(list, wanted, i));
            lemma_first_found(list, wanted, i);
        },
        None => {
            lemma_none_found(list, wanted);
        },
    }
}

/// A server taken off the list is not found any more.
pub proof fn lemma_deregistered_is_gone(servers: Seq<GameServer>, id: Seq<char>)
    ensures
        first_index(servers.filter(|s: GameServer| s.id.0@ != id), has_id(id)) is None,
{
    let keeps = |s: GameServer| s.id.0@ != id;
    let list = servers.filter(keeps);
    assert forall|j: int| 0 <= j < list.len() implies !has_id(id)(#[trigger] list[j]) by {
        servers.lemma_filter_pred(keeps, j);
    }
    lemma_none_found(list, has_id(id));
}

/// The Consul agent that keeps the list of servers.
#[derive(Debug)]
pub struct ConsulDiscovery {
    pub endpoint: String,
    pub service_name: String,
    /// Milliseconds between two health checks
    pub health_check_interval: u64,
}

/// What a Consul record says of a server. Values that take floating point or the
/// parser of another type to read are still text.
#[derive(Debug)]
pub struct ConsulService {
    pub id: String,
    pub address: String,
    pub gameworld_bounds: Option<String>,
    pub status: Option<String>,
    pub load: Option<String>,
    pub current_players: u32,
    pub max_capacity: u32,
}

/// What the member `key` of a record's metadata holds, where it is a string.
pub open spec fn meta_string(service: Seq<char>, key: Seq<char>) -> Option<Seq<char>> {
    match json_member_of(service, "Meta"@) {
        Some(meta) => member_string(meta, key),
        None => None,
    }
}

/// The number that a text stands for, or `default` where there is none.
pub open spec fn number_or(text: Option<Seq<char>>, default: u32) -> u32 {
    match text {
        Some(t) => match unsigned_value(t) {
            Some(n) => n,
            None => default,
        },
        None => default,
    }
}

/// Whether `error` is a discovery error with the given text.
pub open spec fn is_discovery_error(error: AtlasError, text: Seq<char>) -> bool {
    error matches AtlasError::Discovery(detail) && detail@ == text
}

/// What is read of a record, given what its members hold.
pub open spec fn consul_reading(
    result: Result<ConsulService>,
    id: Option<Seq<char>>,
    address: Option<Seq<char>>,
    port: Option<u64>,
    bounds: Option<Seq<char>>,
    status: Option<Seq<char>>,
    load: Option<Seq<char>>,
    players: Option<Seq<char>>,
    capacity: Option<Seq<char>>,
) -> bool {
    match result {
        Err(error) => {
            if id is None {
                is_discovery_error(error, "Missing service ID"@)
            } else if address is None {
                is_discovery_error(error, "Missing service address"@)
            } else {
                port is None && is_discovery_error(error, "Missing service port"@)
            }
        },
        Ok(service) => {
            &&& id == Some(service.id@)
            &&& address is Some && port is Some
            &&& service.address@ == address->0 + ":"@ + decimal(port->0 as nat)
            &&& opt_text(service.gameworld_bounds) == bounds
            &&& opt_text(service.status) == status
            &&& opt_text(service.load) == load
            &&& service.current_players == number_or(players, 0)
            &&& service.max_capacity == number_or(capacity, 1000)
        },
    }
}

fn read_number(text: Option<String>, default: u32) -> (result: u32)
    ensures
        result == number_or(opt_text(text), default),
{
    match text {
        Some(t) => match parse_u32(t.as_str()) {
            Some(n) => n,
            None => default,
        },
        None => default,
    }
}

/// What a record says of a server, given what its members hold: identifier,
/// host and port are needed, the rest has defaults.
pub fn read_consul_members(
    id: Option<String>,
    address: Option<String>,
    port: Option<u64>,
    bounds: Option<String>,
    status: Option<String>,
    load: Option<String>,
    players: Option<String>,
    capacity: Option<String>,
) -> (result: Result<ConsulService>)
    ensures
        consul_reading(
            result,
            opt_text(id),
            opt_text(address),
            port,
            opt_text(bounds),
            opt_text(status),
            opt_text(load),
            opt_text(players),
            opt_text(capacity),
        ),
{
    let id: String = match id {
        Some(id) => id,
        None => {
            return Err(AtlasError::Discovery("Missing service ID".to_owned()));
        },
    };
    let host: String = match address {
        Some(host) => host,
        None => {
            return Err(AtlasError::Discovery("Missing service address".to_owned()));
        },
    };
    let port: u64 = match port {
        Some(port) => port,
        None => {
            return Err(AtlasError::Discovery("Missing service port".to_owned()));
        },
    };
    let digits: String = decimal_u64(port);
    Ok(
        ConsulService {
            id,
            address: join3(host.as_str(), ":", digits.as_str()),
            gameworld_bounds: bounds,
            status,
            load,
            current_players: read_number(players, 0),
            max_capacity: read_number(capacity, 1000),
        },
    )
}

/// The box in which a server without bounds of its own plays: 1000 units along
/// each axis from the origin.
pub open spec fn default_bounds() -> RegionBounds {
    RegionBounds {
        min_x: Scalar::Number(0),
        max_x: Scalar::spec_from_bits(THOUSAND_BITS),
        min_y: Scalar::Number(0),
        max_y: Scalar::spec_from_bits(THOUSAND_BITS),
        min_z: Scalar::Number(0),
        max_z: Scalar::spec_from_bits(THOUSAND_BITS),
    }
}

impl ConsulService {
    /// The server that the record describes. `address`, `bounds`, `status` and
    /// `load` are what became of parsing the record's texts; all but the address
    /// have defaults.
    pub fn into_server(
        self,
        address: std::result::Result<String, String>,
        bounds: Option<RegionBounds>,
        status: Option<ServerStatus>,
        load: Option<Scalar>,
        now: i64,
    ) -> (result: Result<GameServer>)
        ensures
            match (address, result) {
                (Err(cause), Err(error)) => is_discovery_error(error, "Invalid address: "@ + cause@),
                (Ok(parsed), Ok(server)) => {
                    &&& server.id.0 == self.id
                    &&& server.address == parsed
                    &&& server.gameworld_bounds == (match bounds {
                        Some(b) => b,
                        None => default_bounds(),
                    })
                    &&& server.status == (match status {
                        Some(s) => s,
                        None => ServerStatus::Ready,
                    })
                    &&& server.load == (match load {
                        Some(l) => l,
                        None => Scalar::Number(0),
                    })
                    &&& server.current_players == self.current_players
                    &&& server.max_capacity == self.max_capacity
                    &&& server.last_heartbeat == now
                    &&& server.metadata@.len() == 0
                    &&& server.regions@.len() == 0
                },
                _ => false,
            },
    {
        let address: String = match address {
            Ok(address) => address,
            Err(cause) => {
                return Err(AtlasError::Discovery(join("Invalid address: ", cause.as_str())));
            },
        };
        let thousand = Scalar::from_bits(THOUSAND_BITS);
        let gameworld_bounds = match bounds {
            Some(b) => b,
            None => RegionBounds {
                min_x: Scalar::Number(0),
                max_x: thousand,
                min_y: Scalar::Number(0),
                max_y: thousand,
                min_z: Scalar::Number(0),
                max_z: thousand,
            },
        };
        let status = match status {
            Some(s) => s,
            None => ServerStatus::Ready,
        };
        let load = match load {
            Some(l) => l,
            None => Scalar::Number(0),
        };
        Ok(
            GameServer {
                id: ServerId::from_string(self.id),
                address,
                regions: Vec::new(),
                status,
                load,
                max_capacity: self.max_capacity,
                current_players: self.current_players,
                last_heartbeat: now,
                metadata: Vec::new(),
                gameworld_bounds,
            },
        )
    }
}

/// The texts of the `Service` members of the elements of a list of records, in
/// order; elements without one are passed over.
pub open spec fn service_members(elements: Seq<Seq<char>>) -> Seq<Seq<char>>
    decreases elements.len(),
{
    if elements.len() == 0 {
        Seq::empty()
    } else {
        let front = service_members(elements.drop_last());
        match json_member_of(elements.last(), "Service"@) {
            Some(service) => front.push(service),
            None => front,
        }
    }
}

/// The servers among what became of reading records, in order.
pub open spec fn readable(readings: Seq<Result<GameServer>>) -> Seq<GameServer>
    decreases readings.len(),
{
    if readings.len() == 0 {
        Seq::empty()
    } else {
        let front = readable(readings.drop_last());
        match readings.last() {
            Ok(server) => front.push(server),
            Err(_) => front,
        }
    }
}

impl ConsulDiscovery {
    /// The agent at the given endpoint, by a configuration.
    pub fn new(endpoint: String, config: DiscoveryConfig) -> (result: Self)
        ensures
            result == (ConsulDiscovery {
                endpoint,
                service_name: config.service_name,
                health_check_interval: config.health_check_interval,
            }),
    {
        ConsulDiscovery {
            endpoint,
            service_name: config.service_name,
            health_check_interval: config.health_check_interval,
        }
    }

    /// What a record says of a server.
    pub fn parse_consul_service(&self, service: &str) -> (result: Result<ConsulService>)
        ensures
            consul_reading(
                result,
                member_string(service@, "ID"@),
                member_string(service@, "Address"@),
                member_unsigned(service@, "Port"@),
                meta_string(service@, "gameworld_bounds"@),
                meta_string(service@, "status"@),
                meta_string(service@, "load"@),
                meta_string(service@, "capacity"@),
                meta_string(service@, "max_capacity"@),
            ),
    {
        let meta = json_member(service, "Meta");
        read_consul_members(
            read_member_string(service, "ID"),
            read_member_string(service, "Address"),
            read_member_unsigned(service, "Port"),
            read_meta(&meta, "gameworld_bounds"),
            read_meta(&meta, "status"),
            read_meta(&meta, "load"),
            read_meta(&meta, "capacity"),
            read_meta(&meta, "max_capacity"),
        )
    }

    /// The records in the answer to a discovery. An answer that is not a list
    /// holds none.
    pub fn service_records(&self, body: &str) -> (result: Vec<String>)
        ensures
            texts(result@) == (match json_elements_of(body@) {
                Some(elements) => service_members(elements),
                None => Seq::empty(),
            }),
    {
        let mut out: Vec<String> = Vec::new();
        assert(texts(out@) =~= Seq::<Seq<char>>::empty());
        match json_elements(body) {
            Some(elements) => {
                let ghost all = texts(elements@);
                assert(all.take(0) =~= Seq::<Seq<char>>::empty());
                let mut i: usize = 0;
                while i < elements.len()
                    invariant
                        i <= elements@.len(),
                        all == texts(elements@),
                        texts(out@) == service_members(all.take(i as int)),
                    decreases elements@.len() - i,
                {
                    proof {
                        assert(all.take(i + 1).drop_last() =~= all.take(i as int));
                        assert(all.take(i + 1).last() == elements@[i as int]@);
                    }
                    let ghost before = out@;
                    match json_member(elements[i].as_str(), "Service") {
                        Some(service) => {
                            out.push(service);
                            assert(texts(out@) =~= texts(before).push(service@));
                        },
                        None => {},
                    }
                    i += 1;
                }
                assert(all.take(i as int) =~= all);
            },
            None => {},
        }
        out
    }

    /// The servers whose records could be read, in order.
    pub fn readable_servers(&self, readings: Vec<Result<GameServer>>) -> (result: Vec<GameServer>)
        ensures
            result@ == readable(readings@),
    {
        let mut out: Vec<GameServer> = Vec::new();
        assert(readings@.take(0) =~= Seq::<Result<GameServer>>::empty());
        for reading in iter: readings
            invariant
                iter.seq() == readings@,
                out@ == readable(readings@.take(iter.index() as int)),
        {
            proof {
                let i = iter.index() as int;
                assert(readings@.take(i + 1).drop_last() =~= readings@.take(i));
                assert(readings@.take(i + 1).last() == reading);
            }
            if let Ok(server) = reading {
                out.push(server);
            }
        }
        assert(readings@.take(readings@.len() as int) =~= readings@);
        out
    }

    /// Where a server is registered.
    pub fn register_url(&self) -> (result: String)
        ensures
            result@ == self.endpoint@ + "/v1/agent/service/register"@,
    {
        join(self.endpoint.as_str(), "/v1/agent/service/register")
    }

    /// Where a server is deregistered.
    pub fn deregister_url(&self, server_id: &ServerId) -> (result: String)
        ensures
            result@ == self.endpoint@ + "/v1/agent/service/deregister/"@ + server_id.0@,
    {
        join3(self.endpoint.as_str(), "/v1/agent/service/deregister/", server_id.0.as_str())
    }

    /// Where the servers that pass their checks are listed.
    pub fn discover_url(&self) -> (result: String)
        ensures
            result@ == self.endpoint@ + "/v1/health/service/"@ + self.service_name@,
    {
        join3(self.endpoint.as_str(), "/v1/health/service/", self.service_name.as_str())
    }

    /// Where the agent tells of itself.
    pub fn health_url(&self) -> (result: String)
        ensures
            result@ == self.endpoint@ + "/v1/agent/self"@,
    {
        join(self.endpoint.as_str(), "/v1/agent/self")
    }

    /// Where Consul checks the health of a server at `address`.
    pub fn check_url(&self, address: &str) -> (result: String)
        ensures
            result@ == "http://"@ + address@ + "/health"@,
    {
        join3("http://", address, "/health")
    }

    /// How often Consul checks the health of a server.
    pub fn check_interval(&self) -> (result: String)
        ensures
            result@ == decimal(self.health_check_interval as nat) + "ms"@,
    {
        let digits: String = decimal_u64(self.health_check_interval);
        join(digits.as_str(), "ms")
    }

    /// Whether a request to the agent went well; `status` is the answer's status
    /// line.
    pub fn accept_answer(&self, success: bool, task: &str, status: &str) -> (result: Result<()>)
        ensures
            match result {
                Ok(_) => success,
                Err(error) => !success && is_discovery_error(
                    error,
                    "Failed to "@ + task@ + ": "@ + status@,
                ),
            },
    {
        if success {
            Ok(())
        } else {
            let mut text: String = join3("Failed to ", task, ": ");
            text.append(status);
            Err(AtlasError::Discovery(text))
        }
    }
}

fn read_meta(meta: &Option<String>, key: &str) -> (result: Option<String>)
    ensures
        opt_text(result) == (match opt_text(*meta) {
            Some(text) => member_string(text, key@),
            None => None,
        }),
{
    match meta {
        Some(text) => read_member_string(text.as_str(), key),
        None => None,
    }
}

/// A server that is ready is healthy for less than half a minute around its last
/// heartbeat, to the nanosecond, and a server in any other state never is.
pub proof fn lemma_healthy_for_half_a_minute(server: GameServer, now: i64)
    ensures
        is_healthy(server, now) <==> server.status == ServerStatus::Ready && -30_000_000_000 < now
            - server.last_heartbeat < 30_000_000_000,
{
}

/// Servers are filed under their identifiers, each as it was listed last.
pub proof fn lemma_servers_are_filed_by_id(servers: Seq<GameServer>, id: Seq<char>)
    ensures
        filed(servers).dom().contains(id) <==> exists|i: int|
            0 <= i < servers.len() && (#[trigger] servers[i]).id.0@ == id,
        filed(servers).dom().contains(id) ==> exists|i: int|
            {
                &&& 0 <= i < servers.len()
                &&& (#[trigger] servers[i]).id.0@ == id
                &&& filed(servers)[id] == servers[i]
                &&& forall|j: int|
                    i < j < servers.len() ==> (#[trigger] servers[j]).id.0@ != id
            },
    decreases servers.len(),
{
    if servers.len() > 0 {
        let front = servers.drop_last();
        let last = servers.len() - 1;
        lemma_servers_are_filed_by_id(front, id);
        if servers[last].id.0@ == id {
            assert(servers.last() == servers[last]);
        } else if filed(front).dom().contains(id) {
            let i = choose|i: int|
                {
                    &&& 0 <= i < front.len()
                    &&& (#[trigger] front[i]).id.0@ == id
                    &&& filed(front)[id] == front[i]
                    &&& forall|j: int|
                        i < j < front.len() ==> (#[trigger] front[j]).id.0@ != id
                };
            assert(servers[i].id.0@ == id);
            assert forall|j: int| i < j < servers.len() implies (
            #[trigger] servers[j]).id.0@ != id by {
                if j < last {
                    assert(front[j].id.0@ != id);
                }
            }
        } else {
            assert forall|i: int| 0 <= i < servers.len() implies (
            #[trigger] servers[i]).id.0@ != id by {
                if i < last {
                    assert(front[i].id.0@ != id);
                }
            }
        }
    }
}

/// A server serves a position where it is ready and the position lies in its part of the
/// world. A server in any other state serves none.
pub proof fn lemma_only_ready_servers_serve(server: GameServer, position: Position)
    ensures
        server.status != ServerStatus::Ready ==> !serves(position)(server),
        server.status == ServerStatus::Ready ==> (serves(position)(server)
            <==> server.gameworld_bounds.spec_contains(position)),
{
}

/// Registering keeps the list's order: a server takes the place of the first that has its
/// identifier, or else comes last, and no other entry changes.
pub proof fn lemma_registering_changes_one_entry(servers: Seq<GameServer>, server: GameServer)
    ensures
        ({
            let list = registered(servers, server);
            let known = exists|i: int|
                0 <= i < servers.len() && (#[trigger] servers[i]).id.0@ == server.id.0@;
            &&& known ==> list.len() == servers.len()
            &&& !known ==> list == servers.push(server)
            &&& list.contains(server)
            &&& forall|i: int|
                0 <= i < servers.len() && (#[trigger] servers[i]).id.0@ != server.id.0@ ==> list[i]
                    == servers[i]
        }),
{
    let wanted = has_id(server.id.0@);
    crate::search::lemma_first_index(servers, wanted);
    let list = registered(servers, server);
    match first_index(servers, wanted) {
        Some(i) => {
            assert(servers[i].id.0@ == server.id.0@);
            assert(list[i] == server);
        },
        None => {
            assert forall|i: int| 0 <= i < servers.len() implies (#[trigger] servers[i]).id.0@
                != server.id.0@ by {
                assert(!wanted(servers[i]));
            }
            assert(list[servers.len() as int] == server);
        },
    }
}

/// Whatever a configuration says of a server, it starts out ready, empty and just heard of.
pub proof fn lemma_listed_servers_are_ready(
    configured: Seq<StaticServer>,
    servers: Seq<GameServer>,
    now: i64,
    i: int,
)
    requires
        listed(configured, servers, now),
        0 <= i < configured.len(),
    ensures
        servers.len() == configured.len(),
        servers[i].id.0 == configured[i].id,
        servers[i].address == configured[i].address,
        servers[i].gameworld_bounds == configured[i].gameworld_bounds,
        servers[i].status == ServerStatus::Ready,
        servers[i].current_players == 0,
        servers[i].max_capacity == 1000,
        servers[i].load == Scalar::Number(0),
        servers[i].regions@.len() == 0,
        servers[i].last_heartbeat == now,
        is_healthy(servers[i], now),
{
    assert(is_fresh(configured[i], servers[i], now));
}

/// A record is read exactly where it has an identifier, a host and a port. The default
/// stands in for a number that is missing or cannot be read, and for no other.
pub proof fn lemma_record_needs_three_members(
    result: Result<ConsulService>,
    id: Option<Seq<char>>,
    address: Option<Seq<char>>,
    port: Option<u64>,
    bounds: Option<Seq<char>>,
    status: Option<Seq<char>>,
    load: Option<Seq<char>>,
    players: Option<Seq<char>>,
    capacity: Option<Seq<char>>,
)
    requires
        consul_reading(
            result,
            id,
            address,
            port,
            bounds,
            status,
            load,
            players,
            capacity,
        ),
    ensures
        result is Ok <==> id is Some && address is Some && port is Some,
        result matches Ok(service) ==> {
            &&& service.id@ == id->0
            &&& service.address@ == address->0 + ":"@ + decimal(port->0 as nat)
            &&& opt_text(service.gameworld_bounds) == bounds
            &&& opt_text(service.status) == status
            &&& opt_text(service.load) == load
            &&& players is None || unsigned_value(players->0) is None ==> service.current_players
                == 0
            &&& players is Some && unsigned_value(players->0) is Some ==> Some(
                service.current_players,
            ) == unsigned_value(players->0)
            &&& capacity is None || unsigned_value(capacity->0) is None ==> service.max_capacity
                == 1000
            &&& capacity is Some && unsigned_value(capacity->0) is Some ==> Some(
                service.max_capacity,
            ) == unsigned_value(capacity->0)
        },
        id is None ==> (result matches Err(AtlasError::Discovery(text)) && text@
            == "Missing service ID"@),
        id is Some && address is None ==> (result matches Err(AtlasError::Discovery(text)) && text@
            == "Missing service address"@),
        id is Some && address is Some && port is None ==> (result matches Err(
            AtlasError::Discovery(text),
        ) && text@ == "Missing service port"@),
{
}

/// The default bounds are a cube that starts at the origin: what lies in it is on no
/// negative side, and no axis differs from another.
pub proof fn lemma_default_bounds_are_a_cube(at: Position)
    ensures
        ({
            let turned = Position { x: at.y, y: at.z, z: at.x };
            &&& default_bounds().spec_contains(at) ==> Scalar::Number(0).spec_le(at.x)
                && Scalar::Number(0).spec_le(at.y) && Scalar::Number(0).spec_le(at.z)
            &&& default_bounds().spec_contains(at) <==> default_bounds().spec_contains(turned)
        }),
        default_bounds().spec_contains(
            Position { x: Scalar::Number(0), y: Scalar::Number(0), z: Scalar::Number(0) },
        ),
{
}

/// Records that cannot be read are left out, one at a time, and the others keep their
/// order.
pub proof fn lemma_unreadable_records_are_left_out(
    first: Seq<Result<GameServer>>,
    second: Seq<Result<GameServer>>,
    server: GameServer,
    error: AtlasError,
)
    ensures
        readable(first + second) == readable(first) + readable(second),
        readable(seq![Ok::<GameServer, AtlasError>(server)]) == seq![server],
        readable(seq![Err::<GameServer, AtlasError>(error)]).len() == 0,
    decreases second.len(),
{
    reveal_with_fuel(readable, 2);
    assert(seq![Ok::<GameServer, AtlasError>(server)].drop_last() =~= Seq::empty());
    assert(seq![Err::<GameServer, AtlasError>(error)].drop_last() =~= Seq::empty());
    assert(readable(seq![Ok::<GameServer, AtlasError>(server)]) =~= seq![server]);
    if second.len() == 0 {
        assert(first + second =~= first);
        assert(readable(first) + readable(second) =~= readable(first));
    } else {
        assert((first + second).drop_last() =~= first + second.drop_last());
        lemma_unreadable_records_are_left_out(first, second.drop_last(), server, error);
        assert(readable(first + second) =~= readable(first) + readable(second));
    }
}

/// Each element of an answer gives the record that stands in it under `Service`, in the
/// order of the elements, and nothing where there is none.
pub proof fn lemma_each_element_gives_its_record(
    first: Seq<Seq<char>>,
    second: Seq<Seq<char>>,
    element: Seq<char>,
)
    ensures
        service_members(first + second) == service_members(first) + service_members(second),
        service_members(seq![element]).len() == 0 <==> json_member_of(element, "Service"@) is None,
        json_member_of(element, "Service"@) matches Some(service) ==> service_members(seq![element])
            == seq![service],
    decreases second.len(),
{
    reveal_with_fuel(service_members, 2);
    assert(seq![element].drop_last() =~= Seq::empty());
    match json_member_of(element, "Service"@) {
        Some(service) => {
            assert(service_members(seq![element]) =~= seq![service]);
        },
        None => {},
    }
    if second.len() == 0 {
        assert(first + second =~= first);
        assert(service_members(first) + service_members(second) =~= service_members(first));
    } else {
        assert((first + second).drop_last() =~= first + second.drop_last());
        lemma_each_element_gives_its_record(first, second.drop_last(), element);
        assert(service_members(first + second) =~= service_members(first) + service_members(
            second,
        ));
    }
}

/// A record's metadata is what stands in it under `Meta`, and its entries are texts.
pub proof fn lemma_metadata_stands_under_its_name(service: Seq<char>, key: Seq<char>)
    ensures
        json_member_of(service, "Meta"@) is None ==> meta_string(service, key) is None,
        json_member_of(service, "Meta"@) matches Some(meta) ==> meta_string(service, key)
            == member_string(meta, key),
{
}

} // verus!
