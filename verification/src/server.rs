//! Backend server management and spatial routing.
use vstd::prelude::*;

use crate::config::{ProxyConfig, ServerConfig, FULL_LOAD_BITS};
use crate::error::{ProxyError, Result};
use crate::json::opt_text;
use crate::scalar::Scalar;
use crate::search::{first_index, lemma_first_found, lemma_none_found, smallest, smallest_index};
use crate::spatial::{MovementData, RegionCoordinate, ServerRegion, WorldCoordinate};
use crate::table::Table;
use crate::text::{join, join3, str_eq};

verus! {

/// Server connection manager with spatial routing
pub struct ServerManager {
    /// Available servers
    pub servers: Table<ServerConfig>,
    /// Spatial regions mapped to servers, one for each place in the grid
    pub regions: Vec<ServerRegion>,
    /// Player movement tracking
    pub player_movements: Table<MovementData>,
    /// Configuration
    pub config: ProxyConfig,
}

/// The table of servers that results from filing them one after the other.
pub open spec fn filed_servers(servers: Seq<ServerConfig>) -> Map<Seq<char>, ServerConfig>
    decreases servers.len(),
{
    if servers.len() == 0 {
        Map::empty()
    } else {
        filed_servers(servers.drop_last()).insert(servers.last().id@, servers.last())
    }
}

/// Whether a region lies at the given place in the grid.
pub open spec fn lies_at(coord: RegionCoordinate) -> spec_fn(ServerRegion) -> bool {
    |r: ServerRegion| r.region_coord == coord
}

/// The regions once one more has been placed: in place of the one at its place in the
/// grid, or else at the end.
pub open spec fn placed(regions: Seq<ServerRegion>, region: ServerRegion) -> Seq<ServerRegion> {
    match first_index(regions, lies_at(region.region_coord)) {
        Some(i) => regions.update(i, region),
        None => regions.push(region),
    }
}

/// The regions that result from placing them one after the other.
pub open spec fn all_placed(regions: Seq<ServerRegion>) -> Seq<ServerRegion>
    decreases regions.len(),
{
    if regions.len() == 0 {
        Seq::empty()
    } else {
        placed(all_placed(regions.drop_last()), regions.last())
    }
}

/// Whether no two regions lie at the same place in the grid.
pub open spec fn distinct_places(regions: Seq<ServerRegion>) -> bool {
    forall|i: int, j: int|
        0 <= i < j < regions.len() ==> (#[trigger] regions[i]).region_coord != (
        #[trigger] regions[j]).region_coord
}

/// Placing regions never puts two at the same place in the grid.
pub proof fn lemma_placed_distinct(regions: Seq<ServerRegion>)
    ensures
        distinct_places(all_placed(regions)),
    decreases regions.len(),
{
    if regions.len() > 0 {
        let before = all_placed(regions.drop_last());
        let region = regions.last();
        lemma_placed_distinct(regions.drop_last());
        crate::search::lemma_first_index(before, lies_at(region.region_coord));
        match first_index(before, lies_at(region.region_coord)) {
            Some(i) => {
                assert(before[i].region_coord == region.region_coord);
            },
            None => {
                assert forall|j: int| 0 <= j < before.len() implies (#[trigger] before[j]).region_coord
                    != region.region_coord by {
                    assert(!lies_at(region.region_coord)(before[j]));
                }
            },
        }
    }
}

fn place_region(regions: &mut Vec<ServerRegion>, region: ServerRegion)
    ensures
        final(regions)@ == placed(old(regions)@, region),
{
    let coord = region.region_coord;
    let ghost wanted = lies_at(coord);
    let mut i: usize = 0;
    while i < regions.len()
        invariant
            i <= regions@.len(),
            *regions == *old(regions),
            wanted == lies_at(coord),
            coord == region.region_coord,
            forall|j: int| 0 <= j < i ==> !wanted(#[trigger] regions@[j]),
        decreases regions@.len() - i,
    {
        if regions[i].region_coord == coord {
            proof {
                lemma_first_found(regions@, wanted, i as int);
            }
            regions.set(i, region);
            return;
        }
        i += 1;
    }
    proof {
        lemma_none_found(regions@, wanted);
    }
    regions.push(region);
}

/// Whether a region can take a client at `position`: it contains the position, is
/// healthy, and its server is known and accepts connections.
pub open spec fn can_host(
    servers: Map<Seq<char>, ServerConfig>,
    position: WorldCoordinate,
) -> spec_fn(ServerRegion) -> bool {
    |r: ServerRegion|
        {
            &&& r.spec_contains(position) && r.healthy
            &&& servers.dom().contains(r.server_id@) && servers[r.server_id@].accepts()
        }
}

/// Whether `distances` are what `distance` measures from the center of each region to
/// `position`.
pub open spec fn measured_centers<F: Fn(WorldCoordinate, WorldCoordinate) -> Scalar>(
    regions: Seq<ServerRegion>,
    position: WorldCoordinate,
    distance: F,
    distances: Seq<Scalar>,
) -> bool {
    &&& distances.len() == regions.len()
    &&& forall|i: int|
        0 <= i < regions.len() ==> distance.ensures(
            (regions[i].center, position),
            #[trigger] distances[i],
        )
}

/// Whether a region contains `position`.
pub open spec fn contains_position(position: WorldCoordinate) -> spec_fn(ServerRegion) -> bool {
    |r: ServerRegion| r.spec_contains(position)
}

/// Whether position `i` holds the region of `position`: the first that contains it, or
/// else the one whose center is closest.
pub open spec fn is_region_of<F: Fn(WorldCoordinate, WorldCoordinate) -> Scalar>(
    regions: Seq<ServerRegion>,
    position: WorldCoordinate,
    distance: F,
    i: int,
) -> bool {
    match first_index(regions, contains_position(position)) {
        Some(k) => i == k,
        None => exists|distances: Seq<Scalar>|
            #[trigger] measured_centers(regions, position, distance, distances) && i == smallest(
                distances,
            ),
    }
}

/// Whether `error` is a connection error with the given text.
pub open spec fn is_connection_error(error: ProxyError, text: Seq<char>) -> bool {
    error matches ProxyError::Connection(detail) && detail@ == text
}

/// Whether `error` says that the thing is not known.
pub open spec fn not_known(error: ProxyError, kind: Seq<char>, id: Seq<char>) -> bool {
    is_connection_error(error, kind + id + " not found"@)
}

/// Why a server cannot be connected to, if so: it is not known, or it is not healthy.
pub open spec fn connect_obstacle(servers: Map<Seq<char>, ServerConfig>, id: Seq<char>) -> Option<
    Seq<char>,
> {
    if !servers.dom().contains(id) {
        Some("Server "@ + id + " not found"@)
    } else if !servers[id].healthy {
        Some("Server "@ + id + " is unhealthy"@)
    } else {
        None
    }
}

/// What a failed connection is reported as.
pub open spec fn connect_failure(id: Seq<char>, cause: Seq<char>) -> Seq<char> {
    "Failed to connect to server "@ + id + ": "@ + cause
}

fn unknown(kind: &str, id: &str) -> (result: ProxyError)
    ensures
        not_known(result, kind@, id@),
{
    ProxyError::Connection(join3(kind, id, " not found"))
}

impl ServerManager {
    /// Every server is filed under its own identifier, no two regions lie at the same
    /// place, and every player's movement is in order.
    pub open spec fn wf(&self) -> bool {
        &&& self.servers.wf()
        &&& self.player_movements.wf()
        &&& distinct_places(self.regions@)
        &&& forall|k: Seq<char>| #[trigger]
            self.servers@.dom().contains(k) ==> self.servers@[k].id@ == k
        &&& forall|k: Seq<char>| #[trigger]
            self.player_movements@.dom().contains(k) ==> self.player_movements@[k].wf()
    }

    /// Create a new server manager with spatial configuration
    pub fn new(config: ProxyConfig) -> (result: Self)
        ensures
            result.wf(),
            result.config == config,
            result.servers@ == filed_servers(config.servers@),
            result.regions@ == all_placed(config.regions@),
            result.player_movements@ == Map::<Seq<char>, MovementData>::empty(),
    {
        let mut servers: Table<ServerConfig> = Table::new();
        let mut i: usize = 0;
        assert(config.servers@.take(0) =~= Seq::<ServerConfig>::empty());
        while i < config.servers.len()
            invariant
                i <= config.servers@.len(),
                servers.wf(),
                servers@ == filed_servers(config.servers@.take(i as int)),
                forall|k: Seq<char>| #[trigger]
                    servers@.dom().contains(k) ==> servers@[k].id@ == k,
            decreases config.servers@.len() - i,
        {
            assert(config.servers@.take(i + 1).drop_last() =~= config.servers@.take(i as int));
            let server = config.servers[i].clone();
            let _ = servers.insert(server.id.clone(), server);
            i += 1;
        }
        assert(config.servers@.take(i as int) =~= config.servers@);
        let mut regions: Vec<ServerRegion> = Vec::new();
        let mut k: usize = 0;
        assert(config.regions@.take(0) =~= Seq::<ServerRegion>::empty());
        while k < config.regions.len()
            invariant
                k <= config.regions@.len(),
                regions@ == all_placed(config.regions@.take(k as int)),
            decreases config.regions@.len() - k,
        {
            assert(config.regions@.take(k + 1).drop_last() =~= config.regions@.take(k as int));
            place_region(&mut regions, config.regions[k].clone());
            k += 1;
        }
        assert(config.regions@.take(k as int) =~= config.regions@);
        proof {
            lemma_placed_distinct(config.regions@);
        }
        ServerManager { servers, regions, player_movements: Table::new(), config }
    }

    /// Whether the manager knows `servers` and no regions or players, and is otherwise
    /// configured by default.
    pub open spec fn is_plain(&self, servers: Seq<ServerConfig>) -> bool {
        &&& self.servers@ == filed_servers(servers)
        &&& self.regions@.len() == 0
        &&& self.player_movements@ == Map::<Seq<char>, MovementData>::empty()
        &&& self.config.listen_addr@ == "0.0.0.0:9000"@
        &&& self.config.servers@ == servers
        &&& self.config.regions@.len() == 0
        &&& self.config.buffer_size == 4096
        &&& self.config.max_connections == 10000
        &&& self.config.spatial_config.is_default()
        &&& self.config.load_balance_algorithm is LeastConnections
        &&& self.config.turn == 0
    }

    /// A server manager without regions, otherwise by the default configuration
    pub fn from_servers(servers: Vec<ServerConfig>) -> (result: Self)
        ensures
            result.wf(),
            result.is_plain(servers@),
    {
        let mut config = ProxyConfig::default();
        config.servers = servers;
        config.regions = Vec::new();
        ServerManager::new(config)
    }

    /// The server to connect to; it has to be known and healthy.
    pub fn connect_to_server(&self, server_id: &str) -> (result: Result<&ServerConfig>)
        requires
            self.wf(),
        ensures
            match result {
                Ok(server) => {
                    &&& connect_obstacle(self.servers@, server_id@) is None
                    &&& *server == self.servers@[server_id@]
                },
                Err(error) => connect_obstacle(self.servers@, server_id@) matches Some(text)
                    && is_connection_error(error, text),
            },
    {
        match self.servers.get(server_id) {
            Some(server) => if server.healthy {
                Ok(server)
            } else {
                Err(ProxyError::Connection(join3("Server ", server_id, " is unhealthy")))
            },
            None => Err(unknown("Server ", server_id)),
        }
    }

    /// What a failed connection is reported as.
    pub fn connection_failed(server_id: &str, cause: &str) -> (result: ProxyError)
        ensures
            is_connection_error(result, connect_failure(server_id@, cause@)),
    {
        let mut text: String = join3("Failed to connect to server ", server_id, ": ");
        text.append(cause);
        ProxyError::Connection(text)
    }

    /// Get server by ID
    pub fn get_server(&self, server_id: &str) -> (result: Option<ServerConfig>)
        requires
            self.wf(),
        ensures
            result == (if self.servers@.dom().contains(server_id@) {
                Some(self.servers@[server_id@])
            } else {
                None
            }),
    {
        match self.servers.get(server_id) {
            Some(server) => Some(server.clone()),
            None => None,
        }
    }

    /// Update server connection count
    pub fn increment_connections<F: Fn(u32, u32) -> Scalar>(&mut self, server_id: &str, ratio: &F) -> (result:
        Result<()>)
        requires
            old(self).wf(),
            forall|a: u32, b: u32| #[trigger] ratio.requires((a, b)),
            old(self).servers@.dom().contains(server_id@) ==> old(
                self,
            ).servers@[server_id@].active_connections < u32::MAX,
        ensures
            final(self).wf(),
            *final(self) == (ServerManager { servers: final(self).servers, ..*old(self) }),
            match result {
                Ok(_) => connection_opened(
                    old(self).servers@,
                    final(self).servers@,
                    server_id@,
                    *ratio,
                ),
                Err(error) => {
                    &&& !old(self).servers@.dom().contains(server_id@)
                    &&& not_known(error, "Server "@, server_id@)
                    &&& final(self).servers@ == old(self).servers@
                },
            },
    {
        match self.servers.find(server_id) {
            Some(i) => {
                let server = self.servers.value_at_mut(i);
                server.active_connections = server.active_connections + 1;
                server.load = server.load_percentage(ratio);
                Ok(())
            },
            None => Err(unknown("Server ", server_id)),
        }
    }

    /// Decrement server connection count
    pub fn decrement_connections<F: Fn(u32, u32) -> Scalar>(&mut self, server_id: &str, ratio: &F) -> (result:
        Result<()>)
        requires
            old(self).wf(),
            forall|a: u32, b: u32| #[trigger] ratio.requires((a, b)),
        ensures
            final(self).wf(),
            *final(self) == (ServerManager { servers: final(self).servers, ..*old(self) }),
            match result {
                Ok(_) => connection_closed(
                    old(self).servers@,
                    final(self).servers@,
                    server_id@,
                    *ratio,
                ),
                Err(error) => {
                    &&& !old(self).servers@.dom().contains(server_id@)
                    &&& not_known(error, "Server "@, server_id@)
                    &&& final(self).servers@ == old(self).servers@
                },
            },
    {
        match self.servers.find(server_id) {
            Some(i) => {
                let server = self.servers.value_at_mut(i);
                if server.active_connections > 0 {
                    server.active_connections = server.active_connections - 1;
                }
                server.load = server.load_percentage(ratio);
                Ok(())
            },
            None => Err(unknown("Server ", server_id)),
        }
    }

    /// Get the best server for a player spawning at (0, 0, 0)
    pub fn get_spawn_server(&self) -> (result: Option<ServerConfig>)
        requires
            self.wf(),
        ensures
            result == self.host_of(WorldCoordinate::spec_origin()),
    {
        self.get_server_for_position(&WorldCoordinate::origin())
    }

    /// The server of the first region that can take a client at `position`.
    pub open spec fn host_of(&self, position: WorldCoordinate) -> Option<ServerConfig> {
        match first_index(self.regions@, can_host(self.servers@, position)) {
            Some(i) => Some(self.servers@[self.regions@[i].server_id@]),
            None => None,
        }
    }

    /// Get the best server for a specific world position
    pub fn get_server_for_position(&self, position: &WorldCoordinate) -> (result: Option<
        ServerConfig,
    >)
        requires
            self.wf(),
        ensures
            result == self.host_of(*position),
    {
        let ghost wanted = can_host(self.servers@, *position);
        let mut i: usize = 0;
        while i < self.regions.len()
            invariant
                self.wf(),
                i <= self.regions@.len(),
                wanted == can_host(self.servers@, *position),
                forall|j: int| 0 <= j < i ==> !wanted(#[trigger] self.regions@[j]),
            decreases self.regions@.len() - i,
        {
            let region = &self.regions[i];
            if region.contains_point(position) && region.healthy {
                if let Some(server) = self.servers.get(region.server_id.as_str()) {
                    if server.can_accept_connections() {
                        proof {
                            lemma_first_found(self.regions@, wanted, i as int);
                        }
                        return Some(server.clone());
                    }
                }
            }
            i += 1;
        }
        proof {
            lemma_none_found(self.regions@, wanted);
        }
        None
    }

    /// Get the best available server for new connections (legacy method)
    pub fn get_best_server(&self) -> (result: Option<ServerConfig>)
        requires
            self.wf(),
        ensures
            result == self.host_of(WorldCoordinate::spec_origin()),
    {
        self.get_spawn_server()
    }

    /// Update server health status
    pub fn update_server_health(&mut self, server_id: &str, healthy: bool) -> (result: Result<()>)
        requires
            old(self).wf(),
        ensures
            final(self).wf(),
            *final(self) == (ServerManager { servers: final(self).servers, ..*old(self) }),
            match result {
                Ok(_) => old(self).servers@.dom().contains(server_id@) && final(self).servers@
                    == old(self).servers@.insert(
                    server_id@,
                    ServerConfig { healthy, ..old(self).servers@[server_id@] },
                ),
                Err(error) => !old(self).servers@.dom().contains(server_id@) && not_known(
                    error,
                    "Server "@,
                    server_id@,
                ) && final(self).servers@ == old(self).servers@,
            },
    {
        match self.servers.find(server_id) {
            Some(i) => {
                let server = self.servers.value_at_mut(i);
                server.healthy = healthy;
                Ok(())
            },
            None => Err(unknown("Server ", server_id)),
        }
    }

    /// Get all server statistics
    pub fn get_server_stats(&self) -> (result: Vec<ServerConfig>)
        requires
            self.wf(),
        ensures
            result@ == self.servers.values(),
    {
        let mut out: Vec<ServerConfig> = Vec::new();
        let mut i: usize = 0;
        while i < self.servers.len()
            invariant
                self.wf(),
                i <= self.servers.values().len(),
                out@ == self.servers.values().take(i as int),
            decreases self.servers.values().len() - i,
        {
            out.push(self.servers.value_at(i).clone());
            i += 1;
            assert(out@ =~= self.servers.values().take(i as int));
        }
        assert(out@ =~= self.servers.values());
        out
    }

    /// Health check for a server: notes whether it could be reached. A server that is
    /// not known is not healthy.
    pub fn health_check(&mut self, server_id: &str, reachable: bool) -> (result: bool)
        requires
            old(self).wf(),
        ensures
            final(self).wf(),
            *final(self) == (ServerManager { servers: final(self).servers, ..*old(self) }),
            result == (reachable && old(self).servers@.dom().contains(server_id@)),
            final(self).servers@ == (if old(self).servers@.dom().contains(server_id@) {
                old(self).servers@.insert(
                    server_id@,
                    ServerConfig { healthy: reachable, ..old(self).servers@[server_id@] },
                )
            } else {
                old(self).servers@
            }),
    {
        match self.update_server_health(server_id, reachable) {
            Ok(_) => reachable,
            Err(_) => false,
        }
    }

    /// Get server load for a specific server; one that is not known is full
    pub fn get_server_load<F: Fn(u32, u32) -> Scalar>(&self, server_id: &str, ratio: &F) -> (result:
        Scalar)
        requires
            self.wf(),
            forall|a: u32, b: u32| #[trigger] ratio.requires((a, b)),
        ensures
            if self.servers@.dom().contains(server_id@) {
                self.servers@[server_id@].has_load(*ratio, result)
            } else {
                result == Scalar::spec_from_bits(FULL_LOAD_BITS)
            },
    {
        match self.servers.get(server_id) {
            Some(server) => server.load_percentage(ratio),
            None => Scalar::from_bits(FULL_LOAD_BITS),
        }
    }

    /// Check if server can accept new connections
    pub fn can_accept_connections(&self, server_id: &str) -> (result: bool)
        requires
            self.wf(),
        ensures
            result == (self.servers@.dom().contains(server_id@)
                && self.servers@[server_id@].accepts()),
    {
        match self.servers.get(server_id) {
            Some(server) => server.can_accept_connections(),
            None => false,
        }
    }

    /// Initialize player movement tracking at spawn position (0, 0, 0); `now` is in
    /// milliseconds
    pub fn initialize_player(&mut self, player_id: &str, now: u64)
        requires
            old(self).wf(),
        ensures
            final(self).wf(),
            *final(self) == (ServerManager {
                player_movements: final(self).player_movements,
                ..*old(self)
            }),
            ({
                let movement = final(self).player_movements@[player_id@];
                &&& final(self).player_movements@ == old(self).player_movements@.insert(
                    player_id@,
                    movement,
                )
                &&& movement.position == WorldCoordinate::spec_origin()
                &&& movement.previous_position == WorldCoordinate::spec_origin()
                &&& movement.velocity == WorldCoordinate::spec_origin()
                &&& movement.timestamp == now
                &&& movement.position_history@ == seq![(WorldCoordinate::spec_origin(), now)]
            }),
    {
        let movement = MovementData::new(WorldCoordinate::origin(), now);
        let _ = self.player_movements.insert(player_id.to_owned(), movement);
    }

    /// Whether a player's move from one position to another leads to another server.
    pub open spec fn leads_to<F: Fn(WorldCoordinate, WorldCoordinate) -> Scalar>(
        &self,
        from: WorldCoordinate,
        to: WorldCoordinate,
        distance: F,
        target: Option<Seq<char>>,
    ) -> bool {
        if self.regions@.len() == 0 {
            target is None
        } else {
            exists|i: int, j: int|
                {
                    &&& #[trigger] is_region_of(self.regions@, from, distance, i)
                    &&& #[trigger] is_region_of(self.regions@, to, distance, j)
                    &&& 0 <= i < self.regions@.len() && 0 <= j < self.regions@.len()
                    &&& target == (if self.regions@[i].server_id@ != self.regions@[j].server_id@ {
                        Some(self.regions@[j].server_id@)
                    } else {
                        None
                    })
                }
        }
    }

    /// Update player position and check for region transfers. `velocity` is that of the
    /// movement, and `now` is in milliseconds; the server that the player is to be
    /// transferred to comes back.
    pub fn update_player_position<F: Fn(WorldCoordinate, WorldCoordinate) -> Scalar>(
        &mut self,
        player_id: &str,
        position: WorldCoordinate,
        velocity: WorldCoordinate,
        distance: F,
        now: u64,
    ) -> (result: Result<Option<String>>)
        requires
            old(self).wf(),
            forall|a: WorldCoordinate, b: WorldCoordinate| #[trigger] distance.requires((a, b)),
            old(self).player_movements@.dom().contains(player_id@) ==> old(
                self,
            ).player_movements@[player_id@].timestamp <= now,
        ensures
            final(self).wf(),
            *final(self) == (ServerManager {
                player_movements: final(self).player_movements,
                ..*old(self)
            }),
            match result {
                Err(error) => {
                    &&& !old(self).player_movements@.dom().contains(player_id@)
                    &&& not_known(error, "Player "@, player_id@)
                    &&& final(self).player_movements@ == old(self).player_movements@
                },
                Ok(target) => {
                    let before = old(self).player_movements@[player_id@];
                    let after = final(self).player_movements@[player_id@];
                    &&& old(self).player_movements@.dom().contains(player_id@)
                    &&& final(self).player_movements@ == old(self).player_movements@.insert(
                        player_id@,
                        after,
                    )
                    &&& moved(before, position, velocity, now, after)
                    &&& old(self).leads_to(before.position, position, distance, opt_text(target))
                },
            },
    {
        let i: usize = match self.player_movements.find(player_id) {
            Some(i) => i,
            None => {
                return Err(unknown("Player ", player_id));
            },
        };
        let old_position = self.player_movements.value_at(i).position;
        let movement = self.player_movements.value_at_mut(i);
        movement.update_position(position, now, velocity);
        let old_region = self.region_index(&old_position, &distance);
        let new_region = self.region_index(&position, &distance);
        match (old_region, new_region) {
            (Some(a), Some(b)) => {
                let target: Option<String> = if str_eq(
                    self.regions[a].server_id.as_str(),
                    self.regions[b].server_id.as_str(),
                ) {
                    None
                } else {
                    Some(self.regions[b].server_id.clone())
                };
                assert(is_region_of(self.regions@, old_position, distance, a as int));
                assert(is_region_of(self.regions@, position, distance, b as int));
                Ok(target)
            },
            _ => Ok(None),
        }
    }

    fn region_index<F: Fn(WorldCoordinate, WorldCoordinate) -> Scalar>(
        &self,
        position: &WorldCoordinate,
        distance: &F,
    ) -> (result: Option<usize>)
        requires
            forall|a: WorldCoordinate, b: WorldCoordinate| #[trigger] distance.requires((a, b)),
        ensures
            match result {
                Some(i) => i < self.regions@.len() && is_region_of(
                    self.regions@,
                    *position,
                    *distance,
                    i as int,
                ),
                None => self.regions@.len() == 0,
            },
    {
        let ghost wanted = contains_position(*position);
        let mut i: usize = 0;
        while i < self.regions.len()
            invariant
                i <= self.regions@.len(),
                wanted == contains_position(*position),
                forall|j: int| 0 <= j < i ==> !wanted(#[trigger] self.regions@[j]),
            decreases self.regions@.len() - i,
        {
            if self.regions[i].contains_point(position) {
                proof {
                    lemma_first_found(self.regions@, wanted, i as int);
                }
                return Some(i);
            }
            i += 1;
        }
        proof {
            lemma_none_found(self.regions@, wanted);
        }
        if self.regions.len() == 0 {
            return None;
        }
        let mut distances: Vec<Scalar> = Vec::new();
        let mut k: usize = 0;
        while k < self.regions.len()
            invariant
                k <= self.regions@.len(),
                distances@.len() == k,
                forall|a: WorldCoordinate, b: WorldCoordinate| #[trigger] distance.requires((a, b)),
                forall|j: int|
                    0 <= j < k ==> distance.ensures(
                        (self.regions@[j].center, *position),
                        #[trigger] distances@[j],
                    ),
            decreases self.regions@.len() - k,
        {
            distances.push(distance(self.regions[k].center, *position));
            k += 1;
        }
        assert(measured_centers(self.regions@, *position, *distance, distances@));
        Some(smallest_index(&distances))
    }

    /// Get the region that contains a specific position, or else the one whose center is
    /// closest
    pub fn get_region_for_position<F: Fn(WorldCoordinate, WorldCoordinate) -> Scalar>(
        &self,
        position: &WorldCoordinate,
        distance: &F,
    ) -> (result: Option<ServerRegion>)
        requires
            forall|a: WorldCoordinate, b: WorldCoordinate| #[trigger] distance.requires((a, b)),
        ensures
            match result {
                Some(region) => exists|i: int|
                    #[trigger] is_region_of(self.regions@, *position, *distance, i) && 0 <= i
                        < self.regions@.len() && region == self.regions@[i],
                None => self.regions@.len() == 0,
            },
    {
        match self.region_index(position, distance) {
            Some(i) => {
                assert(is_region_of(self.regions@, *position, *distance, i as int));
                Some(self.regions[i].clone())
            },
            None => None,
        }
    }

    /// Get player's current position
    pub fn get_player_position(&self, player_id: &str) -> (result: Option<WorldCoordinate>)
        requires
            self.wf(),
        ensures
            result == (if self.player_movements@.dom().contains(player_id@) {
                Some(self.player_movements@[player_id@].position)
            } else {
                None
            }),
    {
        match self.player_movements.get(player_id) {
            Some(movement) => Some(movement.position),
            None => None,
        }
    }

    /// A player's position and the region that it is relative to
    pub fn get_relative_position<F: Fn(WorldCoordinate, WorldCoordinate) -> Scalar>(
        &self,
        player_id: &str,
        distance: &F,
    ) -> (result: Option<(WorldCoordinate, ServerRegion)>)
        requires
            self.wf(),
            forall|a: WorldCoordinate, b: WorldCoordinate| #[trigger] distance.requires((a, b)),
        ensures
            match result {
                Some((position, region)) => {
                    &&& self.player_movements@.dom().contains(player_id@)
                    &&& position == self.player_movements@[player_id@].position
                    &&& exists|i: int|
                        #[trigger] is_region_of(self.regions@, position, *distance, i) && 0 <= i
                            < self.regions@.len() && region == self.regions@[i]
                },
                None => !self.player_movements@.dom().contains(player_id@) || self.regions@.len()
                    == 0,
            },
    {
        match self.get_player_position(player_id) {
            Some(position) => match self.get_region_for_position(&position, distance) {
                Some(region) => Some((position, region)),
                None => None,
            },
            None => None,
        }
    }

    /// Remove player from tracking
    pub fn remove_player(&mut self, player_id: &str)
        requires
            old(self).wf(),
        ensures
            final(self).wf(),
            *final(self) == (ServerManager {
                player_movements: final(self).player_movements,
                ..*old(self)
            }),
            final(self).player_movements@ == old(self).player_movements@.remove(player_id@),
    {
        let _ = self.player_movements.remove(player_id);
    }

    /// Get regions that a player might transfer to based on movement prediction.
    /// `predict` gives the position that a movement leads to after some seconds, and
    /// `to_boundary` how far a position is from a region's boundary
    pub fn get_approaching_regions<
        P: Fn(WorldCoordinate, WorldCoordinate, Scalar) -> WorldCoordinate,
        D: Fn(WorldCoordinate, Scalar, WorldCoordinate) -> Scalar,
    >(&self, player_id: &str, predict: P, to_boundary: D) -> (result: Vec<ServerRegion>)
        requires
            self.wf(),
            forall|a: WorldCoordinate, b: WorldCoordinate, s: Scalar| #[trigger]
                predict.requires((a, b, s)),
            forall|a: WorldCoordinate, s: Scalar, b: WorldCoordinate| #[trigger]
                to_boundary.requires((a, s, b)),
        ensures
            if !self.player_movements@.dom().contains(player_id@) {
                result@.len() == 0
            } else {
                let movement = self.player_movements@[player_id@];
                exists|ahead: WorldCoordinate, distances: Seq<Scalar>|
                    {
                        &&& predict.ensures(
                            (
                                movement.position,
                                movement.velocity,
                                self.config.spatial_config.prediction_time,
                            ),
                            ahead,
                        )
                        &&& #[trigger] measured_boundaries(
                            self.regions@,
                            ahead,
                            to_boundary,
                            distances,
                        )
                        &&& result@ == within(
                            self.regions@,
                            distances,
                            self.config.spatial_config.boundary_threshold,
                        )
                    }
            },
    {
        let mut out: Vec<ServerRegion> = Vec::new();
        let movement = match self.player_movements.get(player_id) {
            Some(movement) => movement,
            None => {
                return out;
            },
        };
        let threshold = self.config.spatial_config.boundary_threshold;
        let ahead = predict(
            movement.position,
            movement.velocity,
            self.config.spatial_config.prediction_time,
        );
        let ghost mut distances: Seq<Scalar> = Seq::empty();
        let mut i: usize = 0;
        assert(self.regions@.take(0) =~= Seq::<ServerRegion>::empty());
        while i < self.regions.len()
            invariant
                i <= self.regions@.len(),
                forall|a: WorldCoordinate, s: Scalar, b: WorldCoordinate| #[trigger]
                    to_boundary.requires((a, s, b)),
                threshold == self.config.spatial_config.boundary_threshold,
                distances.len() == i,
                forall|j: int|
                    0 <= j < i ==> to_boundary.ensures(
                        (self.regions@[j].center, self.regions@[j].bounds, ahead),
                        #[trigger] distances[j],
                    ),
                out@ == within(self.regions@.take(i as int), distances, threshold),
            decreases self.regions@.len() - i,
        {
            let region = &self.regions[i];
            let d = to_boundary(region.center, region.bounds, ahead);
            proof {
                assert(self.regions@.take(i + 1).drop_last() =~= self.regions@.take(i as int));
                assert(distances.push(d).drop_last() =~= distances);
                distances = distances.push(d);
            }
            if d.le(threshold) {
                out.push(region.clone());
            }
            i += 1;
        }
        assert(self.regions@.take(i as int) =~= self.regions@);
        assert(measured_boundaries(self.regions@, ahead, to_boundary, distances));
        out
    }

    /// Request deployment of a new server instance for a specific world position. There
    /// is no way to deploy one yet, so the request fails; `place` is the position as
    /// text
    pub fn request_server_deployment(&self, place: &str) -> (result: Result<()>)
        ensures
            result matches Err(ProxyError::Connection(text)) && text@
                == "Server deployment not yet implemented for position "@ + place@,
    {
        Err(
            ProxyError::Connection(
                join("Server deployment not yet implemented for position ", place),
            ),
        )
    }
}

/// Whether `after` is a player's movement once it has moved to `position` at `now`.
pub open spec fn moved(
    before: MovementData,
    position: WorldCoordinate,
    velocity: WorldCoordinate,
    now: u64,
    after: MovementData,
) -> bool {
    &&& after.position == position
    &&& after.timestamp == now
    &&& after.previous_position == (if now > before.timestamp {
        before.position
    } else {
        before.previous_position
    })
    &&& after.velocity == (if now > before.timestamp {
        velocity
    } else {
        before.velocity
    })
    &&& after.position_history@ == crate::spatial::extended(
        before.position_history@,
        (position, now),
    )
}

/// Whether `distances` are what `to_boundary` measures from `position` to the boundary
/// of each region.
pub open spec fn measured_boundaries<D: Fn(WorldCoordinate, Scalar, WorldCoordinate) -> Scalar>(
    regions: Seq<ServerRegion>,
    position: WorldCoordinate,
    to_boundary: D,
    distances: Seq<Scalar>,
) -> bool {
    &&& distances.len() == regions.len()
    &&& forall|i: int|
        0 <= i < regions.len() ==> to_boundary.ensures(
            (regions[i].center, regions[i].bounds, position),
            #[trigger] distances[i],
        )
}

/// The regions whose distance is within `limit`, in order.
pub open spec fn within(regions: Seq<ServerRegion>, distances: Seq<Scalar>, limit: Scalar) -> Seq<
    ServerRegion,
>
    decreases regions.len(),
{
    if regions.len() == 0 {
        Seq::empty()
    } else {
        let front = within(regions.drop_last(), distances.drop_last(), limit);
        if distances.last().spec_le(limit) {
            front.push(regions.last())
        } else {
            front
        }
    }
}

/// A client is only ever sent to a healthy server with room, in a healthy region that
/// contains its position.
pub proof fn lemma_host_accepts(manager: ServerManager, position: WorldCoordinate)
    ensures
        match manager.host_of(position) {
            Some(server) => {
                &&& server.accepts()
                &&& exists|i: int|
                    0 <= i < manager.regions@.len() && (
                    #[trigger] manager.regions@[i]).spec_contains(position)
                        && manager.regions@[i].healthy
                        && manager.servers@[manager.regions@[i].server_id@] == server
            },
            None => forall|i: int|
                0 <= i < manager.regions@.len() ==> !can_host(manager.servers@, position)(
                    #[trigger] manager.regions@[i],
                ),
        },
{
    crate::search::lemma_first_index(manager.regions@, can_host(manager.servers@, position));
}

/// Whether `after` is the server with the given number of connections and the load that
/// comes of them.
pub open spec fn recounted<F: Fn(u32, u32) -> Scalar>(
    before: ServerConfig,
    after: ServerConfig,
    active: u32,
    ratio: F,
) -> bool {
    &&& after == (ServerConfig { active_connections: active, load: after.load, ..before })
    &&& after.has_load(ratio, after.load)
}

/// The number of connections once one has been opened.
pub open spec fn one_more(active: u32) -> u32 {
    (active + 1) as u32
}

/// The number of connections once one has been closed; there are never less than none.
pub open spec fn one_less(active: u32) -> u32 {
    if active > 0 {
        (active - 1) as u32
    } else {
        0
    }
}

/// Whether a known server has one connection more, and the others are as they were.
pub open spec fn connection_opened<F: Fn(u32, u32) -> Scalar>(
    before: Map<Seq<char>, ServerConfig>,
    after: Map<Seq<char>, ServerConfig>,
    id: Seq<char>,
    ratio: F,
) -> bool {
    &&& before.dom().contains(id)
    &&& after == before.insert(id, after[id])
    &&& recounted(before[id], after[id], one_more(before[id].active_connections), ratio)
}

/// Whether a known server has one connection less, and the others are as they were.
pub open spec fn connection_closed<F: Fn(u32, u32) -> Scalar>(
    before: Map<Seq<char>, ServerConfig>,
    after: Map<Seq<char>, ServerConfig>,
    id: Seq<char>,
    ratio: F,
) -> bool {
    &&& before.dom().contains(id)
    &&& after == before.insert(id, after[id])
    &&& recounted(before[id], after[id], one_less(before[id].active_connections), ratio)
}

/// Opening a connection and closing it again leaves every server as it was, but for the
/// load of the one concerned, which is that of its connections.
pub proof fn lemma_connections_balance<F: Fn(u32, u32) -> Scalar>(
    first: Map<Seq<char>, ServerConfig>,
    between: Map<Seq<char>, ServerConfig>,
    last: Map<Seq<char>, ServerConfig>,
    id: Seq<char>,
    ratio: F,
)
    requires
        connection_opened(first, between, id, ratio),
        connection_closed(between, last, id, ratio),
        first[id].active_connections < u32::MAX,
    ensures
        last == first.insert(id, ServerConfig { load: last[id].load, ..first[id] }),
        last[id].has_load(ratio, last[id].load),
{
    assert(last =~= first.insert(id, ServerConfig { load: last[id].load, ..first[id] }));
}

/// Servers are filed under their identifiers, each as it was configured last.
pub proof fn lemma_configured_servers_are_filed_by_id(servers: Seq<ServerConfig>, id: Seq<char>)
    ensures
        filed_servers(servers).dom().contains(id) <==> exists|i: int|
            0 <= i < servers.len() && (#[trigger] servers[i]).id@ == id,
        filed_servers(servers).dom().contains(id) ==> exists|i: int|
            {
                &&& 0 <= i < servers.len()
                &&& (#[trigger] servers[i]).id@ == id
                &&& filed_servers(servers)[id] == servers[i]
                &&& forall|j: int|
                    i < j < servers.len() ==> (#[trigger] servers[j]).id@ != id
            },
    decreases servers.len(),
{
    if servers.len() > 0 {
        let front = servers.drop_last();
        let last = servers.len() - 1;
        lemma_configured_servers_are_filed_by_id(front, id);
        if servers[last].id@ == id {
            assert(servers.last() == servers[last]);
        } else if filed_servers(front).dom().contains(id) {
            let i = choose|i: int|
                {
                    &&& 0 <= i < front.len()
                    &&& (#[trigger] front[i]).id@ == id
                    &&& filed_servers(front)[id] == front[i]
                    &&& forall|j: int|
                        i < j < front.len() ==> (#[trigger] front[j]).id@ != id
                };
            assert(servers[i].id@ == id);
            assert forall|j: int| i < j < servers.len() implies (
            #[trigger] servers[j]).id@ != id by {
                if j < last {
                    assert(front[j].id@ != id);
                }
            }
        } else {
            assert forall|i: int| 0 <= i < servers.len() implies (
            #[trigger] servers[i]).id@ != id by {
                if i < last {
                    assert(front[i].id@ != id);
                }
            }
        }
    }
}

/// A region that is placed is the one at its place in the grid, and every other place keeps
/// the region that it had.
pub proof fn lemma_placed_region_takes_its_place(
    regions: Seq<ServerRegion>,
    region: ServerRegion,
)
    ensures
        ({
            let after = placed(regions, region);
            let taken = exists|i: int|
                0 <= i < regions.len() && (#[trigger] regions[i]).region_coord
                    == region.region_coord;
            &&& after.contains(region)
            &&& taken ==> after.len() == regions.len()
            &&& !taken ==> after == regions.push(region)
            &&& forall|i: int|
                0 <= i < regions.len() && (#[trigger] regions[i]).region_coord
                    != region.region_coord ==> after[i] == regions[i]
        }),
{
    let wanted = lies_at(region.region_coord);
    crate::search::lemma_first_index(regions, wanted);
    let after = placed(regions, region);
    match first_index(regions, wanted) {
        Some(i) => {
            assert(regions[i].region_coord == region.region_coord);
            assert(after[i] == region);
        },
        None => {
            assert forall|i: int| 0 <= i < regions.len() implies (
            #[trigger] regions[i]).region_coord != region.region_coord by {
                assert(!wanted(regions[i]));
            }
            assert(after[regions.len() as int] == region);
        },
    }
}

/// A region can take a client only where the client is in it, the region is healthy, and
/// its server is known, healthy and has room; each of these is needed, and together they
/// are enough.
pub proof fn lemma_region_hosts_only_with_room(
    servers: Map<Seq<char>, ServerConfig>,
    position: WorldCoordinate,
    region: ServerRegion,
)
    ensures
        ({
            let id = region.server_id@;
            can_host(servers, position)(region) <==> {
                &&& region.low.x.spec_le(position.x) && position.x.spec_le(region.high.x)
                &&& region.low.y.spec_le(position.y) && position.y.spec_le(region.high.y)
                &&& region.low.z.spec_le(position.z) && position.z.spec_le(region.high.z)
                &&& region.healthy
                &&& servers.dom().contains(id)
                &&& servers[id].healthy
                &&& servers[id].active_connections < servers[id].capacity
            }
        }),
{
}

/// The region that hosts a position is the first that can, and a position that none can
/// host has no host.
pub proof fn lemma_first_region_hosts(
    manager: ServerManager,
    position: WorldCoordinate,
    i: int,
)
    requires
        0 <= i < manager.regions@.len(),
        can_host(manager.servers@, position)(manager.regions@[i]),
        forall|j: int|
            0 <= j < i ==> !can_host(manager.servers@, position)(#[trigger] manager.regions@[j]),
    ensures
        manager.host_of(position) == Some(manager.servers@[manager.regions@[i].server_id@]),
{
    let wanted = can_host(manager.servers@, position);
    assert(crate::search::is_first(manager.regions@, wanted, i));
    lemma_first_found(manager.regions@, wanted, i);
}

/// A player changes servers only where its way ends in a region of another server than it
/// began in, and then to that server.
pub proof fn lemma_way_leads_to_another_server<
    F: Fn(WorldCoordinate, WorldCoordinate) -> Scalar,
>(
    manager: ServerManager,
    from: WorldCoordinate,
    to: WorldCoordinate,
    distance: F,
    target: Option<Seq<char>>,
)
    requires
        manager.leads_to(from, to, distance, target),
    ensures
        manager.regions@.len() == 0 ==> target is None,
        target matches Some(server) ==> exists|i: int, j: int|
            {
                &&& #[trigger] is_region_of(manager.regions@, from, distance, i)
                &&& #[trigger] is_region_of(manager.regions@, to, distance, j)
                &&& manager.regions@[j].server_id@ == server
                &&& manager.regions@[i].server_id@ != server
            },
        target is None && manager.regions@.len() > 0 ==> exists|i: int, j: int|
            {
                &&& #[trigger] is_region_of(manager.regions@, from, distance, i)
                &&& #[trigger] is_region_of(manager.regions@, to, distance, j)
                &&& manager.regions@[j].server_id@ == manager.regions@[i].server_id@
            },
{
}

/// A position that lies in a region belongs to the first region that it lies in.
pub proof fn lemma_position_belongs_to_its_region<
    F: Fn(WorldCoordinate, WorldCoordinate) -> Scalar,
>(
    regions: Seq<ServerRegion>,
    position: WorldCoordinate,
    distance: F,
    i: int,
    k: int,
)
    requires
        is_region_of(regions, position, distance, i),
        0 <= k < regions.len(),
        regions[k].spec_contains(position),
    ensures
        0 <= i <= k,
        regions[i].spec_contains(position),
        forall|j: int| 0 <= j < i ==> !(#[trigger] regions[j]).spec_contains(position),
{
    let wanted = contains_position(position);
    crate::search::lemma_first_index(regions, wanted);
    match first_index(regions, wanted) {
        Some(f) => {
            assert forall|j: int| 0 <= j < i implies !(#[trigger] regions[j]).spec_contains(
                position,
            ) by {
                assert(!wanted(regions[j]));
            }
        },
        None => {
            assert(!wanted(regions[k]));
        },
    }
}

/// A position outside all regions belongs to the one with the nearest center, as it was
/// measured.
pub proof fn lemma_stray_position_belongs_to_nearest<
    F: Fn(WorldCoordinate, WorldCoordinate) -> Scalar,
>(
    regions: Seq<ServerRegion>,
    position: WorldCoordinate,
    distance: F,
    i: int,
)
    requires
        is_region_of(regions, position, distance, i),
        regions.len() > 0,
        forall|j: int| 0 <= j < regions.len() ==> !(#[trigger] regions[j]).spec_contains(position),
    ensures
        0 <= i < regions.len(),
        exists|distances: Seq<Scalar>|
            {
                &&& distances.len() == regions.len()
                &&& forall|j: int|
                    0 <= j < regions.len() ==> distance.ensures(
                        (regions[j].center, position),
                        #[trigger] distances[j],
                    )
                &&& (forall|j: int| 0 <= j < regions.len() ==> #[trigger] distances[j] is Number)
                    ==> forall|j: int|
                    0 <= j < regions.len() ==> distances[i].spec_le(#[trigger] distances[j])
            },
{
    let wanted = contains_position(position);
    crate::search::lemma_first_index(regions, wanted);
    match first_index(regions, wanted) {
        Some(f) => {
            assert(wanted(regions[f]));
        },
        None => {
            let distances = choose|distances: Seq<Scalar>|
                #[trigger] measured_centers(regions, position, distance, distances) && i
                    == smallest(distances);
            crate::search::lemma_smallest_in_range(distances);
            if forall|j: int| 0 <= j < regions.len() ==> #[trigger] distances[j] is Number {
                crate::search::lemma_smallest_is_minimal(distances);
            }
        },
    }
}

/// Nothing stands in the way of a connection to a server that is known and healthy, and
/// something does otherwise.
pub proof fn lemma_healthy_server_can_be_reached(
    servers: Map<Seq<char>, ServerConfig>,
    id: Seq<char>,
)
    ensures
        connect_obstacle(servers, id) is None <==> servers.dom().contains(id) && servers[id].healthy,
        !servers.dom().contains(id) ==> connect_obstacle(servers, id) == Some(
            "Server "@ + id + " not found"@,
        ),
        servers.dom().contains(id) && !servers[id].healthy ==> connect_obstacle(servers, id)
            == Some("Server "@ + id + " is unhealthy"@),
{
}

/// A move puts the player at its new place at once. Where time has passed, the place before
/// is where it was, and the velocity is the new one; otherwise both stay. The history ends
/// with the new place.
pub proof fn lemma_move_remembers_where_from(
    before: MovementData,
    position: WorldCoordinate,
    velocity: WorldCoordinate,
    now: u64,
    after: MovementData,
)
    requires
        moved(before, position, velocity, now, after),
    ensures
        after.position == position,
        after.timestamp == now,
        now > before.timestamp ==> after.previous_position == before.position && after.velocity
            == velocity,
        now <= before.timestamp ==> after.previous_position == before.previous_position
            && after.velocity == before.velocity,
        after.position_history@.len() > 0,
        after.position_history@.last() == (position, now),
{
}

/// The regions near a position are those whose boundary is within the limit, in their
/// order.
pub proof fn lemma_near_regions_are_within_the_limit(
    regions: Seq<ServerRegion>,
    distances: Seq<Scalar>,
    limit: Scalar,
    region: ServerRegion,
)
    requires
        regions.len() == distances.len(),
    ensures
        within(regions, distances, limit).len() <= regions.len(),
        within(regions, distances, limit).contains(region) <==> exists|i: int|
            0 <= i < regions.len() && #[trigger] regions[i] == region && (
            distances[i] matches Scalar::Number(d) && limit matches Scalar::Number(l) && d <= l),
        (forall|i: int| 0 <= i < regions.len() ==> (#[trigger] distances[i]).spec_le(limit))
            ==> within(regions, distances, limit) == regions,
    decreases regions.len(),
{
    if regions.len() > 0 {
        let front = regions.drop_last();
        let rest = distances.drop_last();
        let last = regions.len() - 1;
        lemma_near_regions_are_within_the_limit(front, rest, limit, region);
        let near = within(front, rest, limit);
        crate::table::lemma_push_contains(near, regions.last());
        if exists|i: int|
            0 <= i < regions.len() && #[trigger] regions[i] == region && (
            distances[i] matches Scalar::Number(d) && limit matches Scalar::Number(l) && d <= l) {
            let i = choose|i: int|
                0 <= i < regions.len() && #[trigger] regions[i] == region && (
                distances[i] matches Scalar::Number(d) && limit matches Scalar::Number(l) && d
                    <= l);
            if i < last {
                assert(front[i] == region && rest[i] == distances[i]);
            }
        }
        if near.contains(region) {
            let i = choose|i: int|
                0 <= i < front.len() && #[trigger] front[i] == region && (
                rest[i] matches Scalar::Number(d) && limit matches Scalar::Number(l) && d <= l);
            assert(regions[i] == region && rest[i] == distances[i]);
        }
        assert(regions[last] == regions.last() && distances[last] == distances.last());
        if forall|i: int| 0 <= i < regions.len() ==> (#[trigger] distances[i]).spec_le(limit) {
            assert forall|i: int| 0 <= i < front.len() implies (#[trigger] rest[i]).spec_le(
                limit,
            ) by {
                assert(distances[i].spec_le(limit));
            }
            assert(within(regions, distances, limit) =~= regions);
        }
    } else {
        assert(within(regions, distances, limit) =~= regions);
    }
}

/// Opening a connection counts one more at the server, closing one counts one less but
/// never less than none, and no other server and nothing else of it changes.
pub proof fn lemma_connections_are_counted<F: Fn(u32, u32) -> Scalar>(
    before: Map<Seq<char>, ServerConfig>,
    opened: Map<Seq<char>, ServerConfig>,
    closed: Map<Seq<char>, ServerConfig>,
    id: Seq<char>,
    other: Seq<char>,
    ratio: F,
)
    requires
        connection_opened(before, opened, id, ratio),
        connection_closed(before, closed, id, ratio),
        other != id,
    ensures
        before[id].active_connections < u32::MAX ==> opened[id].active_connections
            == before[id].active_connections + 1,
        before[id].active_connections > 0 ==> closed[id].active_connections
            == before[id].active_connections - 1,
        before[id].active_connections == 0 ==> closed[id].active_connections == 0,
        opened[id].capacity == before[id].capacity && closed[id].capacity == before[id].capacity,
        opened[id].healthy == before[id].healthy && closed[id].healthy == before[id].healthy,
        opened[id].id == before[id].id && closed[id].id == before[id].id,
        opened[id].addr == before[id].addr && closed[id].addr == before[id].addr,
        before[id].capacity > 0 ==> ratio.ensures(
            (opened[id].active_connections, before[id].capacity),
            opened[id].load,
        ) && ratio.ensures((closed[id].active_connections, before[id].capacity), closed[id].load),
        opened.dom() == before.dom() && closed.dom() == before.dom(),
        before.dom().contains(other) ==> opened[other] == before[other] && closed[other]
            == before[other],
{
    assert(opened.dom() =~= before.dom());
    assert(closed.dom() =~= before.dom());
}

/// Each distance is that of the position from the boundary of the region beside it.
pub proof fn lemma_each_boundary_is_measured<
    F: Fn(WorldCoordinate, Scalar, WorldCoordinate) -> Scalar,
>(
    regions: Seq<ServerRegion>,
    position: WorldCoordinate,
    to_boundary: F,
    distances: Seq<Scalar>,
    i: int,
)
    requires
        measured_boundaries(regions, position, to_boundary, distances),
        0 <= i < regions.len(),
    ensures
        distances.len() == regions.len(),
        to_boundary.ensures((regions[i].center, regions[i].bounds, position), distances[i]),
{
}

/// A manager of servers alone files them, knows no regions and no players, and picks the
/// server with the fewest connections.
pub proof fn lemma_plain_manager_has_only_servers(
    manager: ServerManager,
    servers: Seq<ServerConfig>,
)
    requires
        manager.is_plain(servers),
    ensures
        manager.servers@ == filed_servers(servers),
        manager.config.servers@ == servers,
        manager.regions@.len() == 0 && manager.config.regions@.len() == 0,
        manager.player_movements@.dom().len() == 0,
        manager.config.load_balance_algorithm is LeastConnections,
        manager.config.turn == 0,
        manager.config.listen_addr@ == "0.0.0.0:9000"@,
        manager.config.buffer_size == 4 * 1024,
        manager.config.max_connections == 10 * 1000,
        manager.config.spatial_config.auto_save_interval == 30,
{
}

} // verus!
