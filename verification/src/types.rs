//! Identifiers, servers, regions, clients and messages.
use vstd::prelude::*;

use crate::ids::{is_uuid_text, new_uuid_text};
use crate::scalar::Scalar;

verus! {

/// The identifier of a game server.
#[derive(Debug, PartialEq, Eq, Hash)]
pub struct ServerId(pub String);

impl ServerId {
    /// A random identifier.
    pub fn new() -> (result: Self)
        ensures
            is_uuid_text(result.0@),
    {
        ServerId(new_uuid_text())
    }

    /// The identifier with the given text.
    pub fn from_string(id: String) -> (result: Self)
        ensures
            result.0 == id,
    {
        ServerId(id)
    }
}

impl Clone for ServerId {
    fn clone(&self) -> (result: Self)
        ensures
            result == *self,
    {
        ServerId(self.0.clone())
    }
}

impl Default for ServerId {
    fn default() -> (result: Self)
        ensures
            is_uuid_text(result.0@),
    {
        ServerId::new()
    }
}

/// The identifier of a client.
#[derive(Debug, PartialEq, Eq, Hash)]
pub struct ClientId(pub String);

impl ClientId {
    /// A random identifier.
    pub fn new() -> (result: Self)
        ensures
            is_uuid_text(result.0@),
    {
        ClientId(new_uuid_text())
    }
}

impl Clone for ClientId {
    fn clone(&self) -> (result: Self)
        ensures
            result == *self,
    {
        ClientId(self.0.clone())
    }
}

impl Default for ClientId {
    fn default() -> (result: Self)
        ensures
            is_uuid_text(result.0@),
    {
        ClientId::new()
    }
}

/// The identifier of a region.
#[derive(Debug, PartialEq, Eq, Hash)]
pub struct RegionId(pub String);

impl RegionId {
    /// The identifier with the given text.
    pub fn new(id: String) -> (result: Self)
        ensures
            result.0 == id,
    {
        RegionId(id)
    }
}

impl Clone for RegionId {
    fn clone(&self) -> (result: Self)
        ensures
            result == *self,
    {
        RegionId(self.0.clone())
    }
}

/// A position in the game world.
#[derive(Clone, Copy, Debug, PartialEq, Eq, Structural)]
pub struct Position {
    pub x: Scalar,
    pub y: Scalar,
    pub z: Scalar,
}

impl Position {
    /// Each coordinate is the key of some float.
    pub open spec fn in_range(self) -> bool {
        self.x.in_range() && self.y.in_range() && self.z.in_range()
    }
}

/// A region of the world and the server in charge of it.
#[derive(Debug)]
pub struct Region {
    pub id: RegionId,
    pub bounds: RegionBounds,
    pub server_id: Option<ServerId>,
    pub load: Scalar,
    pub max_capacity: u32,
    pub current_players: u32,
}

/// An axis-aligned box, its faces part of it.
#[derive(Clone, Copy, Debug, PartialEq, Eq, Structural)]
pub struct RegionBounds {
    pub min_x: Scalar,
    pub max_x: Scalar,
    pub min_y: Scalar,
    pub max_y: Scalar,
    pub min_z: Scalar,
    pub max_z: Scalar,
}

impl RegionBounds {
    /// Whether `pos` lies in the box.
    pub open spec fn spec_contains(self, pos: Position) -> bool {
        &&& self.min_x.spec_le(pos.x) && pos.x.spec_le(self.max_x)
        &&& self.min_y.spec_le(pos.y) && pos.y.spec_le(self.max_y)
        &&& self.min_z.spec_le(pos.z) && pos.z.spec_le(self.max_z)
    }

    /// Whether `pos` lies in the box.
    pub fn contains(&self, pos: &Position) -> (result: bool)
        ensures
            result == self.spec_contains(*pos),
    {
        self.min_x.le(pos.x) && pos.x.le(self.max_x) && self.min_y.le(pos.y) && pos.y.le(self.max_y)
            && self.min_z.le(pos.z) && pos.z.le(self.max_z)
    }
}

/// A game server as the cluster knows it. The address is kept as text, and
/// `last_heartbeat` as a point in time.
#[derive(Debug)]
pub struct GameServer {
    pub id: ServerId,
    pub address: String,
    pub regions: Vec<RegionId>,
    pub status: ServerStatus,
    pub load: Scalar,
    pub max_capacity: u32,
    pub current_players: u32,
    pub last_heartbeat: i64,
    pub metadata: Vec<(String, String)>,
    pub gameworld_bounds: RegionBounds,
}

impl GameServer {
    /// Whether the two descriptions agree in every field.
    pub open spec fn same_as(self, other: GameServer) -> bool {
        &&& self.id == other.id
        &&& self.address == other.address
        &&& self.regions@ == other.regions@
        &&& self.status == other.status
        &&& self.load == other.load
        &&& self.max_capacity == other.max_capacity
        &&& self.current_players == other.current_players
        &&& self.last_heartbeat == other.last_heartbeat
        &&& self.metadata@ == other.metadata@
        &&& self.gameworld_bounds == other.gameworld_bounds
    }
}

impl Clone for GameServer {
    fn clone(&self) -> (result: Self)
        ensures
            result.same_as(*self),
    {
        GameServer {
            id: self.id.clone(),
            address: self.address.clone(),
            regions: copy_region_ids(&self.regions),
            status: self.status,
            load: self.load,
            max_capacity: self.max_capacity,
            current_players: self.current_players,
            last_heartbeat: self.last_heartbeat,
            metadata: copy_pairs(&self.metadata),
            gameworld_bounds: self.gameworld_bounds,
        }
    }
}

/// The same identifiers once more.
pub fn copy_region_ids(ids: &Vec<RegionId>) -> (result: Vec<RegionId>)
    ensures
        result@ == ids@,
{
    let mut out: Vec<RegionId> = Vec::new();
    let mut i: usize = 0;
    while i < ids.len()
        invariant
            i <= ids@.len(),
            out@ == ids@.take(i as int),
        decreases ids@.len() - i,
    {
        out.push(ids[i].clone());
        i += 1;
        assert(out@ =~= ids@.take(i as int));
    }
    assert(out@ =~= ids@);
    out
}

/// The same pairs of texts once more.
pub fn copy_pairs(pairs: &Vec<(String, String)>) -> (result: Vec<(String, String)>)
    ensures
        result@ == pairs@,
{
    let mut out: Vec<(String, String)> = Vec::new();
    let mut i: usize = 0;
    while i < pairs.len()
        invariant
            i <= pairs@.len(),
            out@ == pairs@.take(i as int),
        decreases pairs@.len() - i,
    {
        out.push((pairs[i].0.clone(), pairs[i].1.clone()));
        i += 1;
        assert(out@ =~= pairs@.take(i as int));
    }
    assert(out@ =~= pairs@);
    out
}

/// The same texts once more.
pub fn copy_texts(list: &Vec<String>) -> (result: Vec<String>)
    ensures
        result@ == list@,
{
    let mut out: Vec<String> = Vec::new();
    let mut i: usize = 0;
    while i < list.len()
        invariant
            i <= list@.len(),
            out@ == list@.take(i as int),
        decreases list@.len() - i,
    {
        out.push(list[i].clone());
        i += 1;
        assert(out@ =~= list@.take(i as int));
    }
    assert(out@ =~= list@);
    out
}

/// The condition of a game server.
#[derive(Clone, Copy, Debug, PartialEq, Eq, Structural)]
pub enum ServerStatus {
    Starting,
    Ready,
    Overloaded,
    Draining,
    Stopping,
    Failed,
}

/// A client's connection.
#[derive(Debug)]
pub struct ClientConnection {
    pub id: ClientId,
    pub server_id: Option<ServerId>,
    pub current_region: Option<RegionId>,
    pub position: Option<Position>,
    pub connected_at: i64,
    pub last_activity: i64,
    pub metadata: Vec<(String, String)>,
}

/// A message between clients, servers and the proxy.
#[derive(Debug)]
pub struct Message {
    pub id: String,
    pub from: MessageSource,
    pub to: MessageDestination,
    pub message_type: String,
    pub payload: Vec<u8>,
    pub timestamp: i64,
    pub encrypted: bool,
    pub compressed: bool,
}

/// Where a message comes from.
#[derive(Debug, PartialEq, Eq)]
pub enum MessageSource {
    Client(ClientId),
    Server(ServerId),
    Atlas(String),
}

impl Clone for MessageSource {
    fn clone(&self) -> (result: Self)
        ensures
            result == *self,
    {
        match self {
            MessageSource::Client(id) => MessageSource::Client(id.clone()),
            MessageSource::Server(id) => MessageSource::Server(id.clone()),
            MessageSource::Atlas(name) => MessageSource::Atlas(name.clone()),
        }
    }
}

/// Where a message goes.
#[derive(Debug, PartialEq, Eq)]
pub enum MessageDestination {
    Client(ClientId),
    Server(ServerId),
    Region(RegionId),
    Broadcast,
    Atlas(String),
}

impl Clone for MessageDestination {
    fn clone(&self) -> (result: Self)
        ensures
            result == *self,
    {
        match self {
            MessageDestination::Client(id) => MessageDestination::Client(id.clone()),
            MessageDestination::Server(id) => MessageDestination::Server(id.clone()),
            MessageDestination::Region(id) => MessageDestination::Region(id.clone()),
            MessageDestination::Broadcast => MessageDestination::Broadcast,
            MessageDestination::Atlas(name) => MessageDestination::Atlas(name.clone()),
        }
    }
}

/// A request to hand a client over from one server to another.
#[derive(Debug)]
pub struct TransitionRequest {
    pub client_id: ClientId,
    pub from_server: ServerId,
    pub to_server: ServerId,
    pub from_region: RegionId,
    pub to_region: RegionId,
    pub position: Position,
    pub state_data: Vec<u8>,
    pub timestamp: i64,
}

impl TransitionRequest {
    /// Whether the two requests agree in every field.
    pub open spec fn same_as(self, other: TransitionRequest) -> bool {
        &&& self.client_id == other.client_id
        &&& self.from_server == other.from_server
        &&& self.to_server == other.to_server
        &&& self.from_region == other.from_region
        &&& self.to_region == other.to_region
        &&& self.position == other.position
        &&& self.state_data@ == other.state_data@
        &&& self.timestamp == other.timestamp
    }
}

impl Clone for TransitionRequest {
    fn clone(&self) -> (result: Self)
        ensures
            result.same_as(*self),
    {
        TransitionRequest {
            client_id: self.client_id.clone(),
            from_server: self.from_server.clone(),
            to_server: self.to_server.clone(),
            from_region: self.from_region.clone(),
            to_region: self.to_region.clone(),
            position: self.position,
            state_data: copy_bytes(&self.state_data),
            timestamp: self.timestamp,
        }
    }
}

/// The same bytes once more.
pub fn copy_bytes(bytes: &Vec<u8>) -> (result: Vec<u8>)
    ensures
        result@ == bytes@,
{
    let mut out: Vec<u8> = Vec::new();
    out.extend_from_slice(bytes.as_slice());
    assert(out@ =~= bytes@);
    out
}

/// A node of the proxy cluster.
#[derive(Debug)]
pub struct ClusterNode {
    pub id: String,
    pub address: String,
    pub role: NodeRole,
    pub status: NodeStatus,
    pub last_seen: i64,
    pub load: Scalar,
    pub regions_managed: Vec<RegionId>,
}

impl ClusterNode {
    /// Whether the two descriptions agree in every field.
    pub open spec fn same_as(self, other: ClusterNode) -> bool {
        &&& self.id == other.id
        &&& self.address == other.address
        &&& self.role == other.role
        &&& self.status == other.status
        &&& self.last_seen == other.last_seen
        &&& self.load == other.load
        &&& self.regions_managed@ == other.regions_managed@
    }
}

impl Clone for ClusterNode {
    fn clone(&self) -> (result: Self)
        ensures
            result.same_as(*self),
    {
        ClusterNode {
            id: self.id.clone(),
            address: self.address.clone(),
            role: self.role,
            status: self.status,
            last_seen: self.last_seen,
            load: self.load,
            regions_managed: copy_region_ids(&self.regions_managed),
        }
    }
}

/// The part that a node plays in elections.
#[derive(Clone, Copy, Debug, PartialEq, Eq, Structural)]
pub enum NodeRole {
    Leader,
    Follower,
    Candidate,
}

/// The condition of a cluster node.
#[derive(Clone, Copy, Debug, PartialEq, Eq, Structural)]
pub enum NodeStatus {
    Active,
    Inactive,
    Failed,
    Starting,
    Stopping,
}

/// What a node reports of its health.
#[derive(Debug)]
pub struct HealthReport {
    pub node_id: String,
    pub timestamp: i64,
    pub status: NodeStatus,
    pub cpu_usage: Scalar,
    pub memory_usage: Scalar,
    pub network_usage: Scalar,
    pub active_connections: u32,
    pub message_throughput: Scalar,
    pub error_rate: Scalar,
    pub latency_p95: Scalar,
}

/// What a load balancer knows of the servers of a region.
#[derive(Debug)]
pub struct LoadBalancingMetrics {
    pub region_id: RegionId,
    pub server_loads: Vec<(ServerId, Scalar)>,
    pub connection_counts: Vec<(ServerId, u32)>,
    pub response_times: Vec<(ServerId, Scalar)>,
    pub error_rates: Vec<(ServerId, Scalar)>,
    pub last_updated: i64,
}

/// No box contains a position with a coordinate that is not a number.
pub proof fn lemma_bounds_reject_nan(bounds: RegionBounds, pos: Position)
    requires
        pos.x is NotANumber || pos.y is NotANumber || pos.z is NotANumber,
    ensures
        !bounds.spec_contains(pos),
{
}

/// A box reaches from corner to corner and no further: a point that lies beyond a corner
/// along any axis is not in it, and neither is one with a coordinate that is not a number.
pub proof fn lemma_area_ends_at_its_corners(a: RegionBounds, at: Position)
    ensures
        a.spec_contains(at) ==> {
            &&& a.min_x matches Scalar::Number(from)
            &&& a.max_x matches Scalar::Number(to)
            &&& at.x matches Scalar::Number(p)
            &&& from <= p <= to
        },
        a.spec_contains(at) ==> {
            &&& a.min_y matches Scalar::Number(from)
            &&& a.max_y matches Scalar::Number(to)
            &&& at.y matches Scalar::Number(p)
            &&& from <= p <= to
        },
        a.spec_contains(at) ==> {
            &&& a.min_z matches Scalar::Number(from)
            &&& a.max_z matches Scalar::Number(to)
            &&& at.z matches Scalar::Number(p)
            &&& from <= p <= to
        },
        at.x.spec_lt(a.min_x) || a.max_x.spec_lt(at.x)
            || at.y.spec_lt(a.min_y) || a.max_y.spec_lt(at.y)
            || at.z.spec_lt(a.min_z) || a.max_z.spec_lt(at.z) ==> !a.spec_contains(at),
        at.x is NotANumber || at.y is NotANumber || at.z is NotANumber ==> !a.spec_contains(at),
{
}

/// Two boxs that lie apart along any axis have no point in common.
pub proof fn lemma_areas_apart_share_no_point(a: RegionBounds, b: RegionBounds, at: Position)
    requires
        a.max_x.spec_lt(b.min_x) || a.max_y.spec_lt(b.min_y) || a.max_z.spec_lt(b.min_z),
    ensures
        !(a.spec_contains(at) && b.spec_contains(at)),
{
}

/// A box holds both of its corners, and with two points every point between them: so it
/// holds all that lies from corner to corner.
pub proof fn lemma_area_is_full(a: RegionBounds, from: Position, to: Position, at: Position)
    ensures
        a.min_x.spec_le(a.max_x) && a.min_y.spec_le(a.max_y) && a.min_z.spec_le(a.max_z) ==> {
            &&& a.spec_contains(Position { x: a.min_x, y: a.min_y, z: a.min_z })
            &&& a.spec_contains(Position { x: a.max_x, y: a.max_y, z: a.max_z })
        },
        a.spec_contains(from) && a.spec_contains(to) && from.x.spec_le(at.x) && at.x.spec_le(to.x)
            && from.y.spec_le(at.y) && at.y.spec_le(to.y) && from.z.spec_le(at.z)
            && at.z.spec_le(to.z) ==> a.spec_contains(at),
{
}

/// Descriptions of a server that are the same agree in everything that is known of it.
pub proof fn lemma_same_server_in_every_field(a: GameServer, b: GameServer)
    requires
        a.same_as(b),
    ensures
        a.id == b.id && a.address == b.address && a.regions@ == b.regions@,
        a.status == b.status && a.load == b.load && a.max_capacity == b.max_capacity,
        a.current_players == b.current_players && a.last_heartbeat == b.last_heartbeat,
        a.metadata@ == b.metadata@ && a.gameworld_bounds == b.gameworld_bounds,
{
}

/// Requests that are the same agree in everything that is asked for.
pub proof fn lemma_same_request_in_every_field(a: TransitionRequest, b: TransitionRequest)
    requires
        a.same_as(b),
    ensures
        a.client_id == b.client_id && a.from_server == b.from_server && a.to_server == b.to_server,
        a.from_region == b.from_region && a.to_region == b.to_region && a.position == b.position,
        a.state_data@ == b.state_data@ && a.timestamp == b.timestamp,
{
}

/// Nodes that are the same agree in everything that is known of them.
pub proof fn lemma_same_node_in_every_field(a: ClusterNode, b: ClusterNode)
    requires
        a.same_as(b),
    ensures
        a.id == b.id && a.address == b.address && a.role == b.role && a.status == b.status,
        a.last_seen == b.last_seen && a.load == b.load,
        a.regions_managed@ == b.regions_managed@,
{
}

/// A position is in range where each of its coordinates is, whether a number or none.
pub proof fn lemma_range_holds_for_each_coordinate(position: Position)
    ensures
        position.in_range() <==> position.x.in_range() && position.y.in_range()
            && position.z.in_range(),
{
}

} // verus!
