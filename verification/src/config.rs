//! Configuration management and server definitions.
use vstd::arithmetic::div_mod::{
    lemma_fundamental_div_mod, lemma_fundamental_div_mod_converse, lemma_small_mod,
};
use vstd::prelude::*;

use crate::error::{ProxyError, Result};
use crate::scalar::Scalar;
use crate::spatial::{RegionCoordinate, ServerRegion, WorldCoordinate};
use crate::text::str_eq;
use crate::types::RegionBounds;

verus! {

/// Server configuration with load balancing information
#[derive(Debug, PartialEq, Eq)]
pub struct ServerConfig {
    /// Server address
    pub addr: String,
    /// Server identifier
    pub id: String,
    /// Current load (0.0 to 1.0)
    pub load: Scalar,
    /// Server capacity
    pub capacity: u32,
    /// Active connections
    pub active_connections: u32,
    /// Server health status
    pub healthy: bool,
}

impl Clone for ServerConfig {
    fn clone(&self) -> (result: Self)
        ensures
            result == *self,
    {
        ServerConfig {
            addr: self.addr.clone(),
            id: self.id.clone(),
            load: self.load,
            capacity: self.capacity,
            active_connections: self.active_connections,
            healthy: self.healthy,
        }
    }
}

impl ServerConfig {
    /// A healthy server without connections that takes a thousand of them.
    pub fn new(addr: String, id: String) -> (result: Self)
        ensures
            result == (ServerConfig {
                addr,
                id,
                load: Scalar::Number(0),
                capacity: 1000,
                active_connections: 0,
                healthy: true,
            }),
    {
        ServerConfig {
            addr,
            id,
            load: Scalar::Number(0),
            capacity: 1000,
            active_connections: 0,
            healthy: true,
        }
    }

    /// Whether the server is healthy and has room.
    pub open spec fn accepts(self) -> bool {
        self.healthy && self.active_connections < self.capacity
    }

    /// Check if server can accept new connections
    pub fn can_accept_connections(&self) -> (result: bool)
        ensures
            result == self.accepts(),
    {
        self.healthy && self.active_connections < self.capacity
    }
}

impl ServerConfig {
    /// Whether `load` is the share of the server's capacity that is in use; `ratio`
    /// divides the two counts. A server without capacity is full.
    pub open spec fn has_load<F: Fn(u32, u32) -> Scalar>(self, ratio: F, load: Scalar) -> bool {
        if self.capacity == 0 {
            load == Scalar::spec_from_bits(FULL_LOAD_BITS)
        } else {
            ratio.ensures((self.active_connections, self.capacity), load)
        }
    }

    /// Calculate server load percentage
    pub fn load_percentage<F: Fn(u32, u32) -> Scalar>(&self, ratio: &F) -> (result: Scalar)
        requires
            forall|a: u32, b: u32| #[trigger] ratio.requires((a, b)),
        ensures
            self.has_load(*ratio, result),
    {
        if self.capacity == 0 {
            Scalar::from_bits(FULL_LOAD_BITS)
        } else {
            ratio(self.active_connections, self.capacity)
        }
    }
}

/// The bit pattern of the float 1: the load of a server that is full.
pub const FULL_LOAD_BITS: u64 = 0x3ff0_0000_0000_0000;

/// How a server is picked for a new connection.
#[derive(Clone, Copy, Debug, PartialEq, Eq, Structural)]
pub enum LoadBalanceAlgorithm {
    /// Route to the server with the fewest active connections.
    LeastConnections,
    /// Cycle through the servers sequentially.
    RoundRobin,
    /// Distribute connections randomly.
    Random,
}

/// Spatial routing configuration
#[derive(Debug)]
pub struct SpatialConfig {
    /// Default region size (bounds radius in world units)
    pub default_region_size: Scalar,
    /// Transfer prediction time (seconds ahead to predict)
    pub prediction_time: Scalar,
    /// Boundary approach threshold for early transfer (world units)
    pub boundary_threshold: Scalar,
    /// Player position update file
    pub player_data_file: String,
    /// Auto-save interval for player data (seconds)
    pub auto_save_interval: u64,
}

/// The bit pattern of the float 5.
pub const FIVE_BITS: u64 = 0x4014_0000_0000_0000;

/// The bit pattern of the float 100.
pub const HUNDRED_BITS: u64 = 0x4059_0000_0000_0000;

/// The bit pattern of the float 1000.
pub const THOUSAND_BITS: u64 = 0x408f_4000_0000_0000;

/// The bit pattern of the float 2000.
pub const TWO_THOUSAND_BITS: u64 = 0x409f_4000_0000_0000;

/// The bit pattern of the float 3000.
pub const THREE_THOUSAND_BITS: u64 = 0x40a7_7000_0000_0000;

impl SpatialConfig {
    /// Regions of 1000 units, prediction 5 seconds ahead, transfers from 100 units
    /// before a boundary on, and a save every 30 seconds.
    pub open spec fn is_default(self) -> bool {
        &&& self.default_region_size == Scalar::spec_from_bits(THOUSAND_BITS)
        &&& self.prediction_time == Scalar::spec_from_bits(FIVE_BITS)
        &&& self.boundary_threshold == Scalar::spec_from_bits(HUNDRED_BITS)
        &&& self.player_data_file@ == "player_positions.json"@
        &&& self.auto_save_interval == 30
    }
}

impl Default for SpatialConfig {
    fn default() -> (result: Self)
        ensures
            result.is_default(),
    {
        SpatialConfig {
            default_region_size: Scalar::from_bits(THOUSAND_BITS),
            prediction_time: Scalar::from_bits(FIVE_BITS),
            boundary_threshold: Scalar::from_bits(HUNDRED_BITS),
            player_data_file: "player_positions.json".to_owned(),
            auto_save_interval: 30,
        }
    }
}

/// Proxy configuration
#[derive(Debug)]
pub struct ProxyConfig {
    /// Address to listen on
    pub listen_addr: String,
    /// Available backend servers with spatial regions
    pub servers: Vec<ServerConfig>,
    /// Server regions for spatial routing
    pub regions: Vec<ServerRegion>,
    /// Buffer size for data transfers
    pub buffer_size: usize,
    /// Maximum concurrent connections
    pub max_connections: u32,
    /// Spatial routing settings
    pub spatial_config: SpatialConfig,
    /// How a server is picked for a new connection
    pub load_balance_algorithm: LoadBalanceAlgorithm,
    /// Whose turn it is when servers are picked in turn
    pub turn: usize,
}

impl SpatialConfig {
    fn copied(&self) -> (result: Self)
        ensures
            result == *self,
    {
        SpatialConfig {
            default_region_size: self.default_region_size,
            prediction_time: self.prediction_time,
            boundary_threshold: self.boundary_threshold,
            player_data_file: self.player_data_file.clone(),
            auto_save_interval: self.auto_save_interval,
        }
    }
}

impl ProxyConfig {
    /// Whether the two configurations agree in every field.
    pub open spec fn same_as(self, other: ProxyConfig) -> bool {
        &&& self == (ProxyConfig { servers: self.servers, regions: self.regions, ..other })
        &&& self.servers@ == other.servers@
        &&& self.regions@ == other.regions@
    }
}

fn copy_servers(servers: &Vec<ServerConfig>) -> (result: Vec<ServerConfig>)
    ensures
        result@ == servers@,
{
    let mut out: Vec<ServerConfig> = Vec::new();
    let mut i: usize = 0;
    while i < servers.len()
        invariant
            i <= servers@.len(),
            out@ == servers@.take(i as int),
        decreases servers@.len() - i,
    {
        out.push(servers[i].clone());
        i += 1;
        assert(out@ =~= servers@.take(i as int));
    }
    assert(out@ =~= servers@);
    out
}

fn copy_regions(regions: &Vec<ServerRegion>) -> (result: Vec<ServerRegion>)
    ensures
        result@ == regions@,
{
    let mut out: Vec<ServerRegion> = Vec::new();
    let mut i: usize = 0;
    while i < regions.len()
        invariant
            i <= regions@.len(),
            out@ == regions@.take(i as int),
        decreases regions@.len() - i,
    {
        out.push(regions[i].clone());
        i += 1;
        assert(out@ =~= regions@.take(i as int));
    }
    assert(out@ =~= regions@);
    out
}

impl Clone for ProxyConfig {
    fn clone(&self) -> (result: Self)
        ensures
            result.same_as(*self),
    {
        ProxyConfig {
            listen_addr: self.listen_addr.clone(),
            servers: copy_servers(&self.servers),
            regions: copy_regions(&self.regions),
            buffer_size: self.buffer_size,
            max_connections: self.max_connections,
            spatial_config: self.spatial_config.copied(),
            load_balance_algorithm: self.load_balance_algorithm,
            turn: self.turn,
        }
    }
}

/// Whether `region` is the cube of half-extent 1000 around a center that lies
/// `step` times 2000 units along the first axis.
pub open spec fn is_default_region(region: ServerRegion, server_id: Seq<char>, step: int) -> bool {
    let center = if step < 0 {
        -TWO_THOUSAND_BITS
    } else if step == 0 {
        0int
    } else {
        TWO_THOUSAND_BITS as int
    };
    let low = if step < 0 {
        -THREE_THOUSAND_BITS
    } else if step == 0 {
        -THOUSAND_BITS
    } else {
        THOUSAND_BITS as int
    };
    let high = if step < 0 {
        -THOUSAND_BITS
    } else if step == 0 {
        THOUSAND_BITS as int
    } else {
        THREE_THOUSAND_BITS as int
    };
    &&& region.server_id@ == server_id
    &&& region.region_coord == (RegionCoordinate { x: step as i64, y: 0, z: 0 })
    &&& region.center == (WorldCoordinate {
        x: Scalar::Number(center as i64),
        y: Scalar::Number(0),
        z: Scalar::Number(0),
    })
    &&& region.bounds == Scalar::Number(THOUSAND_BITS as i64)
    &&& region.low == (WorldCoordinate {
        x: Scalar::Number(low as i64),
        y: Scalar::Number((-THOUSAND_BITS) as i64),
        z: Scalar::Number((-THOUSAND_BITS) as i64),
    })
    &&& region.high == (WorldCoordinate {
        x: Scalar::Number(high as i64),
        y: Scalar::Number(THOUSAND_BITS as i64),
        z: Scalar::Number(THOUSAND_BITS as i64),
    })
    &&& region.load == Scalar::Number(0)
    &&& region.healthy
}

/// Whether `regions` are the three default regions: the center and one on each
/// side of it.
pub open spec fn are_default_regions(regions: Seq<ServerRegion>) -> bool {
    &&& regions.len() == 3
    &&& is_default_region(regions[0], "game-server-1"@, 0)
    &&& is_default_region(regions[1], "game-server-2"@, 1)
    &&& is_default_region(regions[2], "game-server-3"@, -1)
}

fn default_region(server_id: &str, step: i64, center_x: i64, low_x: i64, high_x: i64) -> (result:
    ServerRegion)
    ensures
        result.server_id@ == server_id@,
        result.region_coord == (RegionCoordinate { x: step, y: 0, z: 0 }),
        result.center == (WorldCoordinate {
            x: Scalar::Number(center_x),
            y: Scalar::Number(0),
            z: Scalar::Number(0),
        }),
        result.bounds == Scalar::Number(THOUSAND_BITS as i64),
        result.low == (WorldCoordinate {
            x: Scalar::Number(low_x),
            y: Scalar::Number((-THOUSAND_BITS) as i64),
            z: Scalar::Number((-THOUSAND_BITS) as i64),
        }),
        result.high == (WorldCoordinate {
            x: Scalar::Number(high_x),
            y: Scalar::Number(THOUSAND_BITS as i64),
            z: Scalar::Number(THOUSAND_BITS as i64),
        }),
        result.load == Scalar::Number(0),
        result.healthy,
{
    let size: i64 = THOUSAND_BITS as i64;
    ServerRegion::new(
        server_id.to_owned(),
        RegionCoordinate::new(step, 0, 0),
        WorldCoordinate::new(Scalar::Number(center_x), Scalar::Number(0), Scalar::Number(0)),
        Scalar::Number(size),
        WorldCoordinate::new(Scalar::Number(low_x), Scalar::Number(0 - size), Scalar::Number(0 - size)),
        WorldCoordinate::new(Scalar::Number(high_x), Scalar::Number(size), Scalar::Number(size)),
    )
}

fn default_regions() -> (result: Vec<ServerRegion>)
    ensures
        are_default_regions(result@),
{
    let one: i64 = THOUSAND_BITS as i64;
    let two: i64 = TWO_THOUSAND_BITS as i64;
    let three: i64 = THREE_THOUSAND_BITS as i64;
    let center = default_region("game-server-1", 0, 0, 0 - one, one);
    let right = default_region("game-server-2", 1, two, one, three);
    let left = default_region("game-server-3", -1, 0 - two, 0 - three, 0 - one);
    vec![center, right, left]
}

/// Whether `server` is the untouched configuration of a server.
pub open spec fn is_new_server(server: ServerConfig, addr: Seq<char>, id: Seq<char>) -> bool {
    &&& server.addr@ == addr
    &&& server.id@ == id
    &&& server.load == Scalar::Number(0)
    &&& server.capacity == 1000
    &&& server.active_connections == 0
    &&& server.healthy
}

impl Default for ProxyConfig {
    fn default() -> (result: Self)
        ensures
            result.listen_addr@ == "0.0.0.0:9000"@,
            result.servers@.len() == 3,
            is_new_server(result.servers@[0], "127.0.0.1:8080"@, "game-server-1"@),
            is_new_server(result.servers@[1], "127.0.0.1:8081"@, "game-server-2"@),
            is_new_server(result.servers@[2], "127.0.0.1:8082"@, "game-server-3"@),
            are_default_regions(result.regions@),
            result.buffer_size == 4096,
            result.max_connections == 10000,
            result.spatial_config.is_default(),
            result.load_balance_algorithm is LeastConnections,
            result.turn == 0,
    {
        let servers: Vec<ServerConfig> = vec![
            ServerConfig::new("127.0.0.1:8080".to_owned(), "game-server-1".to_owned()),
            ServerConfig::new("127.0.0.1:8081".to_owned(), "game-server-2".to_owned()),
            ServerConfig::new("127.0.0.1:8082".to_owned(), "game-server-3".to_owned()),
        ];
        ProxyConfig {
            listen_addr: "0.0.0.0:9000".to_owned(),
            servers,
            regions: default_regions(),
            buffer_size: 4096,
            max_connections: 10000,
            spatial_config: SpatialConfig::default(),
            load_balance_algorithm: LoadBalanceAlgorithm::LeastConnections,
            turn: 0,
        }
    }
}

/// An address as parsing left it: its text, or the parser's complaint.
pub type ParsedAddress = std::result::Result<String, String>;

/// The servers of `servers` that accept connections, in order.
pub open spec fn available(servers: Seq<ServerConfig>) -> Seq<ServerConfig> {
    servers.filter(|s: ServerConfig| s.accepts())
}

/// Whether position `i` holds the first of the servers with the fewest
/// connections.
pub open spec fn is_least_connected(servers: Seq<ServerConfig>, i: int) -> bool {
    &&& 0 <= i < servers.len()
    &&& forall|j: int|
        0 <= j < servers.len() ==> servers[i].active_connections <= (
        #[trigger] servers[j]).active_connections
    &&& forall|j: int|
        0 <= j < i ==> servers[i].active_connections < (#[trigger] servers[j]).active_connections
}

/// Whether the position `i` among the available servers is the one that
/// `algorithm` picks when it is the turn of `turn`, or by a random number.
pub open spec fn picks(
    algorithm: LoadBalanceAlgorithm,
    servers: Seq<ServerConfig>,
    turn: usize,
    random: usize,
    i: int,
) -> bool {
    match algorithm {
        LoadBalanceAlgorithm::LeastConnections => is_least_connected(servers, i),
        LoadBalanceAlgorithm::RoundRobin => i == whose_turn(servers.len(), turn),
        LoadBalanceAlgorithm::Random => i == random as int % servers.len() as int,
    }
}

/// Which of the available servers has its turn.
pub open spec fn whose_turn(servers: nat, turn: usize) -> int {
    turn as int % servers as int
}

/// The turn after this one: that of the next available server, from the last to the
/// first.
pub open spec fn next_turn(servers: nat, turn: usize) -> usize {
    if whose_turn(servers, turn) + 1 == servers {
        0
    } else {
        (whose_turn(servers, turn) + 1) as usize
    }
}

/// The turn after `picks` servers have been picked in turn.
pub open spec fn turn_after(servers: nat, turn: usize, picks: nat) -> usize
    decreases picks,
{
    if picks == 0 {
        turn
    } else {
        next_turn(servers, turn_after(servers, turn, (picks - 1) as nat))
    }
}

/// The first address that did not parse, the listening address first.
pub open spec fn first_bad_address(
    listen_addr: ParsedAddress,
    servers: Seq<(ParsedAddress, String)>,
) -> Option<Seq<char>> {
    match listen_addr {
        Err(cause) => Some(cause@),
        Ok(_) => first_bad_server(servers),
    }
}

/// The complaint about the first server address that did not parse.
pub open spec fn first_bad_server(servers: Seq<(ParsedAddress, String)>) -> Option<Seq<char>>
    decreases servers.len(),
{
    if servers.len() == 0 {
        None
    } else {
        match first_bad_server(servers.drop_last()) {
            Some(cause) => Some(cause),
            None => match servers.last().0 {
                Err(cause) => Some(cause@),
                Ok(_) => None,
            },
        }
    }
}

impl ProxyConfig {
    /// Create a new proxy configuration
    pub fn new(listen_addr: ParsedAddress, servers: Vec<(ParsedAddress, String)>) -> (result: Result<
        Self,
    >)
        ensures
            match result {
                Err(ProxyError::AddrParse(cause)) => first_bad_address(listen_addr, servers@) == Some(
                    cause@,
                ),
                Err(ProxyError::Config(text)) => {
                    &&& first_bad_address(listen_addr, servers@) is None
                    &&& servers@.len() == 0
                    &&& text@ == "At least one server must be configured"@
                },
                Err(_) => false,
                Ok(config) => {
                    &&& first_bad_address(listen_addr, servers@) is None
                    &&& servers@.len() > 0
                    &&& config.listen_addr@ == listen_addr->Ok_0@
                    &&& config.servers@.len() == servers@.len()
                    &&& forall|i: int|
                        0 <= i < servers@.len() ==> is_new_server(
                            #[trigger] config.servers@[i],
                            servers@[i].0->Ok_0@,
                            servers@[i].1@,
                        )
                    &&& are_default_regions(config.regions@)
                    &&& config.buffer_size == 4096
                    &&& config.max_connections == 10000
                    &&& config.spatial_config.is_default()
                    &&& config.load_balance_algorithm is LeastConnections
                    &&& config.turn == 0
                },
            },
    {
        let listen: String = match &listen_addr {
            Ok(addr) => addr.clone(),
            Err(cause) => {
                return Err(ProxyError::AddrParse(cause.clone()));
            },
        };
        let mut configs: Vec<ServerConfig> = Vec::new();
        let mut i: usize = 0;
        while i < servers.len()
            invariant
                i <= servers@.len(),
                configs@.len() == i,
                listen_addr is Ok,
                first_bad_server(servers@.take(i as int)) is None,
                forall|j: int|
                    0 <= j < i ==> is_new_server(
                        #[trigger] configs@[j],
                        servers@[j].0->Ok_0@,
                        servers@[j].1@,
                    ),
            decreases servers@.len() - i,
        {
            assert(servers@.take(i + 1).drop_last() =~= servers@.take(i as int));
            match &servers[i].0 {
                Ok(addr) => {
                    configs.push(ServerConfig::new(addr.clone(), servers[i].1.clone()));
                },
                Err(cause) => {
                    proof {
                        lemma_bad_server_stays(servers@, i + 1);
                    }
                    return Err(ProxyError::AddrParse(cause.clone()));
                },
            }
            i += 1;
        }
        assert(servers@.take(i as int) =~= servers@);
        if configs.len() == 0 {
            return Err(ProxyError::Config("At least one server must be configured".to_owned()));
        }
        Ok(
            ProxyConfig {
                listen_addr: listen,
                servers: configs,
                regions: default_regions(),
                buffer_size: 4096,
                max_connections: 10000,
                spatial_config: SpatialConfig::default(),
                load_balance_algorithm: LoadBalanceAlgorithm::LeastConnections,
                turn: 0,
            },
        )
    }

    /// Get the best available server based on load balancing algorithm. Round robin
    /// moves on to the next server with every call; the random choice goes by a random
    /// number.
    pub fn get_best_server(&mut self, random: usize) -> (result: Option<&ServerConfig>)
        ensures
            *final(self) == (ProxyConfig {
                turn: if old(self).load_balance_algorithm is RoundRobin && available(
                    old(self).servers@,
                ).len() > 0 {
                    next_turn(available(old(self).servers@).len(), old(self).turn)
                } else {
                    old(self).turn
                },
                ..*old(self)
            }),
            match result {
                None => available(old(self).servers@).len() == 0,
                Some(server) => exists|i: int|
                    {
                        &&& 0 <= i < available(old(self).servers@).len()
                        &&& picks(
                            old(self).load_balance_algorithm,
                            available(old(self).servers@),
                            old(self).turn,
                            random,
                            i,
                        )
                        &&& *server == #[trigger] available(old(self).servers@)[i]
                    },
            },
    {
        let positions = self.available_positions();
        let ghost list = available(self.servers@);
        if positions.len() == 0 {
            return None;
        }
        match self.load_balance_algorithm {
            LoadBalanceAlgorithm::LeastConnections => {
                let mut best: usize = 0;
                let mut i: usize = 1;
                while i < positions.len()
                    invariant
                        1 <= i <= positions@.len(),
                        best < i,
                        *self == *old(self),
                        list.len() == positions@.len(),
                        forall|j: int|
                            0 <= j < list.len() ==> (#[trigger] positions@[j]) < self.servers@.len()
                                && self.servers@[positions@[j] as int] == list[j],
                        forall|j: int|
                            0 <= j < i ==> list[best as int].active_connections <= (
                            #[trigger] list[j]).active_connections,
                        forall|j: int|
                            0 <= j < best ==> list[best as int].active_connections < (
                            #[trigger] list[j]).active_connections,
                    decreases positions@.len() - i,
                {
                    if self.servers[positions[i]].active_connections
                        < self.servers[positions[best]].active_connections {
                        best = i;
                    }
                    i += 1;
                }
                assert(picks(self.load_balance_algorithm, list, self.turn, random, best as int));
                Some(&self.servers[positions[best]])
            },
            LoadBalanceAlgorithm::RoundRobin => {
                let i: usize = self.turn % positions.len();
                assert(picks(self.load_balance_algorithm, list, self.turn, random, i as int));
                self.turn = if i + 1 == positions.len() {
                    0
                } else {
                    i + 1
                };
                Some(&self.servers[positions[i]])
            },
            LoadBalanceAlgorithm::Random => {
                let i: usize = random % positions.len();
                assert(picks(self.load_balance_algorithm, list, self.turn, random, i as int));
                Some(&self.servers[positions[i]])
            },
        }
    }

    fn available_positions(&self) -> (result: Vec<usize>)
        ensures
            result@.len() == available(self.servers@).len(),
            forall|j: int|
                0 <= j < result@.len() ==> (#[trigger] result@[j]) < self.servers@.len()
                    && self.servers@[result@[j] as int] == available(self.servers@)[j],
    {
        let mut positions: Vec<usize> = Vec::new();
        let mut i: usize = 0;
        assert(self.servers@.take(0) =~= Seq::<ServerConfig>::empty());
        reveal(Seq::filter);
        assert(available(self.servers@.take(0)) =~= Seq::<ServerConfig>::empty());
        while i < self.servers.len()
            invariant
                i <= self.servers@.len(),
                positions@.len() == available(self.servers@.take(i as int)).len(),
                forall|j: int|
                    0 <= j < positions@.len() ==> (#[trigger] positions@[j]) < self.servers@.len()
                        && self.servers@[positions@[j] as int] == available(
                        self.servers@.take(i as int),
                    )[j],
            decreases self.servers@.len() - i,
        {
            proof {
                reveal(Seq::filter);
                assert(self.servers@.take(i + 1).drop_last() =~= self.servers@.take(i as int));
            }
            if self.servers[i].can_accept_connections() {
                positions.push(i);
            }
            i += 1;
        }
        assert(self.servers@.take(i as int) =~= self.servers@);
        positions
    }

    /// The first region that contains `position`.
    pub fn find_region_for_position(&self, position: &WorldCoordinate) -> (result: Option<
        &ServerRegion,
    >)
        ensures
            match result {
                Some(region) => exists|i: int|
                    crate::search::is_first(
                        self.regions@,
                        |r: ServerRegion| r.spec_contains(*position),
                        i,
                    ) && *region == #[trigger] self.regions@[i],
                None => forall|i: int|
                    0 <= i < self.regions@.len() ==> !(#[trigger] self.regions@[i]).spec_contains(
                        *position,
                    ),
            },
    {
        let ghost wanted = |r: ServerRegion| r.spec_contains(*position);
        let mut i: usize = 0;
        while i < self.regions.len()
            invariant
                i <= self.regions@.len(),
                wanted == (|r: ServerRegion| r.spec_contains(*position)),
                forall|j: int|
                    0 <= j < i ==> !(#[trigger] self.regions@[j]).spec_contains(*position),
            decreases self.regions@.len() - i,
        {
            if self.regions[i].contains_point(position) {
                assert(crate::search::is_first(self.regions@, wanted, i as int));
                return Some(&self.regions[i]);
            }
            i += 1;
        }
        None
    }

    /// The first server with the identifier `id`.
    pub fn get_server_by_id(&self, id: &str) -> (result: Option<&ServerConfig>)
        ensures
            match result {
                Some(server) => exists|i: int|
                    crate::search::is_first(self.servers@, |s: ServerConfig| s.id@ == id@, i)
                        && *server == #[trigger] self.servers@[i],
                None => forall|i: int|
                    0 <= i < self.servers@.len() ==> (#[trigger] self.servers@[i]).id@ != id@,
            },
    {
        let ghost wanted = |s: ServerConfig| s.id@ == id@;
        let mut i: usize = 0;
        while i < self.servers.len()
            invariant
                i <= self.servers@.len(),
                wanted == (|s: ServerConfig| s.id@ == id@),
                forall|j: int| 0 <= j < i ==> (#[trigger] self.servers@[j]).id@ != id@,
            decreases self.servers@.len() - i,
        {
            if str_eq(self.servers[i].id.as_str(), id) {
                assert(crate::search::is_first(self.servers@, wanted, i as int));
                return Some(&self.servers[i]);
            }
            i += 1;
        }
        None
    }
}

proof fn lemma_bad_server_stays(servers: Seq<(ParsedAddress, String)>, n: int)
    requires
        0 <= n <= servers.len(),
        first_bad_server(servers.take(n)) is Some,
    ensures
        first_bad_server(servers) == first_bad_server(servers.take(n)),
    decreases servers.len(),
{
    if n == servers.len() {
        assert(servers.take(n) =~= servers);
    } else {
        assert(servers.drop_last().take(n) =~= servers.take(n));
        lemma_bad_server_stays(servers.drop_last(), n);
    }
}

/// Whatever is picked is healthy and has room.
pub proof fn lemma_picked_server_accepts(servers: Seq<ServerConfig>, i: int)
    requires
        0 <= i < available(servers).len(),
    ensures
        available(servers)[i].accepts(),
        servers.contains(available(servers)[i]),
{
    let wanted = |s: ServerConfig| s.accepts();
    servers.lemma_filter_pred(wanted, i);
    assert(servers.filter(wanted).contains(servers.filter(wanted)[i]));
    servers.lemma_filter_contains_rev(wanted, servers.filter(wanted)[i]);
}

proof fn lemma_turns_add_up(servers: nat, turn: usize, picks: nat)
    requires
        0 < servers <= usize::MAX,
    ensures
        whose_turn(servers, turn_after(servers, turn, picks)) == (turn + picks) % servers as int,
    decreases picks,
{
    if picks > 0 {
        let before = turn_after(servers, turn, (picks - 1) as nat);
        lemma_turns_add_up(servers, turn, (picks - 1) as nat);
        let n = servers as int;
        let x = turn + picks - 1;
        let q = x / n;
        let r = x % n;
        lemma_fundamental_div_mod(x, n);
        assert(x + 1 == (q + 1) * n + (r + 1 - n) && x + 1 == q * n + (r + 1)) by (nonlinear_arith)
            requires
                x == n * q + r,
        ;
        if r + 1 == n {
            lemma_fundamental_div_mod_converse(x + 1, n, q + 1, 0);
            lemma_small_mod(0, servers);
        } else {
            lemma_fundamental_div_mod_converse(x + 1, n, q, r + 1);
            lemma_small_mod((r + 1) as nat, servers);
        }
    }
}

/// Round robin cycles: as long as the available servers stay the same, each call picks
/// the next of them in the order of the list, from the last to the first. Any run of as
/// many calls as there are servers picks each of them once, and then it starts over.
pub proof fn lemma_round_robin_cycles(servers: nat, turn: usize, call: nat, target: int)
    requires
        0 < servers <= usize::MAX,
        0 <= target < servers,
    ensures
        ({
            let picked = |k: nat| whose_turn(servers, turn_after(servers, turn, k));
            &&& picked(call + 1) == (if picked(call) + 1 == servers {
                0
            } else {
                picked(call) + 1
            })
            &&& picked(call + servers) == picked(call)
            &&& exists|k: nat| call <= k < call + servers && #[trigger] picked(k) == target
            &&& forall|k: nat, l: nat|
                call <= k < l < call + servers ==> #[trigger] picked(k) != #[trigger] picked(l)
        }),
{
    let picked = |k: nat| whose_turn(servers, turn_after(servers, turn, k));
    let n = servers as int;
    let x = turn + call;
    let q = x / n;
    let r = x % n;
    lemma_turns_add_up(servers, turn, call);
    lemma_turns_add_up(servers, turn, call + 1);
    lemma_turns_add_up(servers, turn, call + servers);
    lemma_fundamental_div_mod(x, n);
    assert(x == q * n + r && x + n == (q + 1) * n + r && x + 1 == (q + 1) * n + (r + 1 - n))
        by (nonlinear_arith)
        requires
            x == n * q + r,
    ;
    lemma_fundamental_div_mod_converse(x + n, n, q + 1, r);
    if r + 1 == n {
        lemma_fundamental_div_mod_converse(x + 1, n, q + 1, 0);
    } else {
        lemma_fundamental_div_mod_converse(x + 1, n, q, r + 1);
    }
    let steps: nat = if target >= r {
        (target - r) as nat
    } else {
        (target - r + n) as nat
    };
    lemma_turns_add_up(servers, turn, call + steps);
    if target >= r {
        lemma_fundamental_div_mod_converse(x + steps, n, q, target);
    } else {
        lemma_fundamental_div_mod_converse(x + steps, n, q + 1, target);
    }
    assert(picked(call + steps) == target);
    assert forall|k: nat, l: nat| call <= k < l < call + servers implies #[trigger] picked(k)
        != #[trigger] picked(l) by {
        lemma_turns_add_up(servers, turn, k);
        lemma_turns_add_up(servers, turn, l);
        let y = turn + k;
        let gap = l - k;
        let p = y / n;
        let t = y % n;
        lemma_fundamental_div_mod(y, n);
        assert(y == p * n + t && y + gap == (p + 1) * n + (t + gap - n)) by (nonlinear_arith)
            requires
                y == n * p + t,
        ;
        if t + gap >= n {
            lemma_fundamental_div_mod_converse(y + gap, n, p + 1, t + gap - n);
        } else {
            lemma_fundamental_div_mod_converse(y + gap, n, p, t + gap);
        }
    }
}

/// How the routing service treats a client's session.
#[derive(Clone, Copy, Debug, PartialEq, Eq, Structural)]
pub struct RoutingConfig {
    /// Whether a client stays with its server while the server covers its position
    pub session_affinity: bool,
}

/// A game server named in the configuration.
#[derive(Debug)]
pub struct StaticServer {
    pub id: String,
    pub address: String,
    pub gameworld_bounds: RegionBounds,
}

/// Where game servers are looked up.
#[derive(Debug)]
pub enum DiscoveryBackend {
    Etcd { endpoints: Vec<String> },
    Consul { endpoint: String },
    Static { servers: Vec<StaticServer> },
}

/// How game servers are discovered.
#[derive(Debug)]
pub struct DiscoveryConfig {
    pub backend: DiscoveryBackend,
    /// Milliseconds between two discoveries
    pub discovery_interval: u64,
    /// Milliseconds between two health checks
    pub health_check_interval: u64,
    /// The name under which servers are registered
    pub service_name: String,
}

/// How data is encrypted and authenticated.
#[derive(Clone, Copy, Debug, PartialEq, Eq, Structural)]
pub enum CipherSuite {
    ChaCha20Poly1305,
    Aes256Gcm,
}

/// How keys are derived from passwords.
#[derive(Clone, Copy, Debug, PartialEq, Eq, Structural)]
pub struct KeyDerivationConfig {
    pub iterations: u32,
}

/// How the cluster encrypts its data.
#[derive(Clone, Copy, Debug, PartialEq, Eq, Structural)]
pub struct CryptoConfig {
    pub enabled: bool,
    pub cipher_suite: CipherSuite,
    /// Milliseconds for which a key is used
    pub key_rotation_interval: u64,
    pub key_derivation: KeyDerivationConfig,
}

/// How game servers are supervised.
#[derive(Clone, Copy, Debug, PartialEq, Eq, Structural)]
pub struct GameServerConfig {
    /// Seconds without a heartbeat after which a server counts as failed
    pub max_idle_time: u64,
    /// Seconds between two looks at the heartbeats
    pub startup_timeout: u64,
}

/// How the nodes of a cluster agree.
#[derive(Clone, Copy, Debug, PartialEq, Eq, Structural)]
pub enum ConsensusAlgorithm {
    Raft,
    Pbft,
}

/// How the proxies of a cluster find each other and agree.
#[derive(Debug)]
pub struct ClusterConfig {
    pub node_id: String,
    /// Addresses of nodes to join through; the first is this node's own
    pub seed_nodes: Vec<String>,
    /// Milliseconds between two heartbeats of a leader
    pub heartbeat_interval: u64,
    /// Milliseconds without a leader after which a node stands for election
    pub election_timeout: u64,
    pub consensus_algorithm: ConsensusAlgorithm,
}

/// How the health of game servers is watched. Times are in milliseconds.
#[derive(Clone, Copy, Debug, PartialEq, Eq, Structural)]
pub struct HealthConfig {
    pub check_interval: u64,
    pub timeout: u64,
    /// Failures in a row after which a server counts as failed
    pub failure_threshold: u32,
    /// Successes in a row after which a server counts as active
    pub success_threshold: u32,
    pub metrics_retention: u64,
}

/// Where metrics are sent.
#[derive(Debug)]
pub enum MetricsExporterConfig {
    Prometheus { endpoint: String },
    InfluxDb { endpoint: String, database: String },
    DataDog { api_key: String },
}

/// How metrics are collected and published.
#[derive(Debug)]
pub struct MetricsConfig {
    pub enabled: bool,
    pub bind_address: String,
    /// Milliseconds between two collections
    pub collection_interval: u64,
    pub exporters: Vec<MetricsExporterConfig>,
}

/// A server accepts connections exactly while it is healthy and has fewer than it can hold:
/// one that is full, and one that holds none at all, accepts nothing.
pub proof fn lemma_full_server_accepts_nothing(server: ServerConfig)
    ensures
        server.accepts() <==> server.healthy && server.active_connections < server.capacity,
        server.capacity == 0 ==> !server.accepts(),
        server.active_connections == server.capacity ==> !server.accepts(),
        !server.healthy ==> !server.accepts(),
        server.healthy && server.active_connections + 1 == server.capacity ==> server.accepts(),
{
}

/// The available servers are all those that accept connections, and no other.
pub proof fn lemma_available_servers_are_those_with_room(
    servers: Seq<ServerConfig>,
    server: ServerConfig,
)
    ensures
        available(servers).contains(server) <==> servers.contains(server) && server.healthy
            && server.active_connections < server.capacity,
{
    crate::search::lemma_filter_keeps_the_wanted(servers, |s: ServerConfig| s.accepts(), server);
}

/// A server that can hold nothing is full; otherwise its load is the share of its
/// connections in what it can hold.
pub proof fn lemma_load_is_a_share<F: Fn(u32, u32) -> Scalar>(
    server: ServerConfig,
    ratio: F,
    load: Scalar,
)
    requires
        server.has_load(ratio, load),
    ensures
        server.capacity > 0 ==> ratio.ensures((server.active_connections, server.capacity), load),
        server.capacity == 0 ==> load == Scalar::Number(0x3ff0_0000_0000_0000),
{
}

/// Of the servers with the fewest connections, the first is picked, so there is never a
/// choice.
pub proof fn lemma_least_connected_is_the_first(servers: Seq<ServerConfig>, i: int, j: int)
    requires
        is_least_connected(servers, i),
        0 <= j < servers.len(),
    ensures
        servers[i].active_connections <= servers[j].active_connections,
        servers[i].active_connections == servers[j].active_connections ==> i <= j,
        is_least_connected(servers, j) ==> i == j,
{
}

/// Each way to balance picks one of the servers, by its own measure.
pub proof fn lemma_each_algorithm_picks_by_its_measure(
    servers: Seq<ServerConfig>,
    turn: usize,
    random: usize,
    i: int,
    algorithm: LoadBalanceAlgorithm,
)
    requires
        servers.len() > 0,
        picks(algorithm, servers, turn, random, i),
    ensures
        0 <= i < servers.len(),
        algorithm is LeastConnections ==> forall|j: int|
            0 <= j < servers.len() ==> servers[i].active_connections <= (
            #[trigger] servers[j]).active_connections,
        algorithm is RoundRobin ==> (turn - i) % servers.len() as int == 0,
        algorithm is Random ==> (random - i) % servers.len() as int == 0,
{
    let n = servers.len() as int;
    lemma_fundamental_div_mod(turn as int, n);
    lemma_fundamental_div_mod(random as int, n);
    let q = turn as int / n;
    let r = random as int / n;
    assert(n * q == q * n + 0 && n * r == r * n + 0) by (nonlinear_arith);
    lemma_fundamental_div_mod_converse(n * q, n, q, 0);
    lemma_fundamental_div_mod_converse(n * r, n, r, 0);
}

/// The default regions stand side by side along the first axis: each holds its own center,
/// neighbours share a face and nothing more, and all are as high and as deep.
pub proof fn lemma_default_regions_stand_side_by_side(regions: Seq<ServerRegion>)
    requires
        are_default_regions(regions),
    ensures
        regions.len() == 3,
        forall|i: int| 0 <= i < 3 ==> (#[trigger] regions[i]).healthy,
        forall|i: int| 0 <= i < 3 ==> (#[trigger] regions[i]).load == Scalar::Number(0),
        forall|i: int| 0 <= i < 3 ==> (#[trigger] regions[i]).spec_contains(regions[i].center),
        forall|i: int, j: int|
            0 <= i < 3 && 0 <= j < 3 && i != j ==> !(#[trigger] regions[i]).spec_contains(
                (#[trigger] regions[j]).center,
            ),
        forall|i: int, j: int|
            0 <= i < 3 && 0 <= j < 3 && i != j ==> (#[trigger] regions[i]).server_id@ != (
            #[trigger] regions[j]).server_id@ && regions[i].region_coord
                != regions[j].region_coord,
        forall|i: int|
            0 <= i < 3 ==> (#[trigger] regions[i]).low.y == regions[0].low.y && regions[i].low.z
                == regions[0].low.y && regions[i].high.y == regions[0].high.y && regions[i].high.z
                == regions[0].high.y,
        regions[2].high.x == regions[0].low.x,
        regions[0].high.x == regions[1].low.x,
        regions[2].low.x->Number_0 == -regions[1].high.x->Number_0,
        regions[0].low.x->Number_0 == -regions[0].high.x->Number_0,
        regions[0].low.y->Number_0 == -regions[0].high.y->Number_0,
        regions[2].region_coord.x < regions[0].region_coord.x < regions[1].region_coord.x,
{
    reveal_strlit("game-server-1");
    reveal_strlit("game-server-2");
    reveal_strlit("game-server-3");
    assert(regions[0].server_id@[12] == '1' && regions[1].server_id@[12] == '2');
    assert(regions[2].server_id@[12] == '3');
}

/// Of the servers' addresses that cannot be used, the first is told of.
pub proof fn lemma_first_bad_server_is_told(servers: Seq<(ParsedAddress, String)>)
    ensures
        first_bad_server(servers) is None <==> forall|i: int|
            0 <= i < servers.len() ==> (#[trigger] servers[i]).0 is Ok,
        first_bad_server(servers) matches Some(text) ==> exists|i: int|
            {
                &&& 0 <= i < servers.len()
                &&& (#[trigger] servers[i]).0 matches Err(cause)
                &&& cause@ == text
                &&& forall|j: int| 0 <= j < i ==> (#[trigger] servers[j]).0 is Ok
            },
    decreases servers.len(),
{
    if servers.len() > 0 {
        let front = servers.drop_last();
        let last = servers.len() - 1;
        lemma_first_bad_server_is_told(front);
        assert(forall|i: int| 0 <= i < front.len() ==> front[i] == #[trigger] servers[i]);
        assert(servers[last] == servers.last());
        if first_bad_server(front) is Some {
            let text = first_bad_server(front)->0;
            let i = choose|i: int|
                {
                    &&& 0 <= i < front.len()
                    &&& (#[trigger] front[i]).0 matches Err(cause)
                    &&& cause@ == text
                    &&& forall|j: int| 0 <= j < i ==> (#[trigger] front[j]).0 is Ok
                };
            assert(servers[i].0 is Err);
        } else {
            assert forall|i: int| 0 <= i < front.len() implies (#[trigger] servers[i]).0 is Ok by {
                assert(front[i].0 is Ok);
            }
        }
    }
}

/// The first address that cannot be used is the one that is told of: that of the listener
/// comes before those of the servers.
pub proof fn lemma_first_bad_address_is_told(
    listen_addr: ParsedAddress,
    servers: Seq<(ParsedAddress, String)>,
)
    ensures
        listen_addr matches Err(cause) ==> first_bad_address(listen_addr, servers) == Some(cause@),
        listen_addr is Ok ==> first_bad_address(listen_addr, servers) == first_bad_server(servers),
        first_bad_address(listen_addr, servers) is None <==> listen_addr is Ok && forall|i: int|
            0 <= i < servers.len() ==> (#[trigger] servers[i]).0 is Ok,
{
    lemma_first_bad_server_is_told(servers);
}

/// A server that is new has room for a thousand connections and none yet.
pub proof fn lemma_new_server_has_room(server: ServerConfig, addr: Seq<char>, id: Seq<char>)
    requires
        is_new_server(server, addr, id),
    ensures
        server.addr@ == addr && server.id@ == id,
        server.active_connections == 0 && server.capacity == 1000,
        server.load == Scalar::Number(0),
        server.accepts(),
{
}

/// Configurations that are the same agree in every setting.
pub proof fn lemma_same_config_in_every_field(a: ProxyConfig, b: ProxyConfig)
    requires
        a.same_as(b),
    ensures
        a.listen_addr == b.listen_addr && a.servers@ == b.servers@ && a.regions@ == b.regions@,
        a.buffer_size == b.buffer_size && a.max_connections == b.max_connections,
        a.spatial_config == b.spatial_config,
        a.load_balance_algorithm == b.load_balance_algorithm && a.turn == b.turn,
{
}

/// The lengths and times that configurations start with are the whole numbers that they are
/// called after.
pub proof fn lemma_defaults_are_whole_numbers()
    ensures
        Scalar::spec_from_bits(FULL_LOAD_BITS).spec_truncated() == 1,
        Scalar::spec_from_bits(FIVE_BITS).spec_truncated() == 5,
        Scalar::spec_from_bits(HUNDRED_BITS).spec_truncated() == 100,
        Scalar::spec_from_bits(THOUSAND_BITS).spec_truncated() == 1000,
        Scalar::spec_from_bits(TWO_THOUSAND_BITS).spec_truncated() == 2000,
        Scalar::spec_from_bits(THREE_THOUSAND_BITS).spec_truncated() == 3000,
{
    vstd::arithmetic::power2::lemma2_to64();
    vstd::arithmetic::power2::lemma2_to64_rest();
    crate::scalar::lemma_truncated_is_whole_part(0, 1, 0, 0x3ff0_0000_0000_0000);
    crate::scalar::lemma_truncated_is_whole_part(2, 5, 0, 0x4014_0000_0000_0000);
    crate::scalar::lemma_truncated_is_whole_part(6, 100, 0, 0x4059_0000_0000_0000);
    crate::scalar::lemma_truncated_is_whole_part(9, 1000, 0, 0x408f_4000_0000_0000);
    crate::scalar::lemma_truncated_is_whole_part(10, 2000, 0, 0x409f_4000_0000_0000);
    crate::scalar::lemma_truncated_is_whole_part(11, 3000, 0, 0x40a7_7000_0000_0000);
}

/// By default a region is a thousand units wide, movements are foreseen for five seconds, a
/// boundary is near within a hundred units, and positions are saved every half minute.
pub proof fn lemma_default_settings_of_space(config: SpatialConfig)
    requires
        config.is_default(),
    ensures
        config.default_region_size.spec_truncated() == 1000,
        config.prediction_time.spec_truncated() == 5,
        config.boundary_threshold.spec_truncated() == 100,
        config.player_data_file@ == "player_positions.json"@,
        config.auto_save_interval == 30,
{
    lemma_defaults_are_whole_numbers();
}

} // verus!
