//! Players, servers and the parts of the world that they occupy.
use vstd::prelude::*;

use crate::scalar::Scalar;

verus! {

/// A point or a direction in the world.
#[derive(Clone, Copy, Debug, PartialEq, Eq, Structural)]
pub struct Vector3 {
    pub x: Scalar,
    pub y: Scalar,
    pub z: Scalar,
}

impl Vector3 {
    /// The vector with the given coordinates.
    pub fn new(x: Scalar, y: Scalar, z: Scalar) -> (result: Self)
        ensures
            result == (Vector3 { x, y, z }),
    {
        Vector3 { x, y, z }
    }
}

/// What is known of a player.
#[derive(Debug)]
pub struct PlayerState {
    pub id: String,
    pub position: Vector3,
    pub velocity: Vector3,
    pub region_id: String,
    pub last_update: u64,
    pub data: PlayerData,
}

/// What a player has. Custom values are kept as JSON text.
#[derive(Debug)]
pub struct PlayerData {
    pub level: u32,
    pub health: Scalar,
    pub inventory: Vec<(String, u32)>,
    pub custom_data: Vec<(String, String)>,
}

/// The box between two corners, its faces part of it.
#[derive(Clone, Copy, Debug, PartialEq, Eq, Structural)]
pub struct ServerBounds {
    pub min: Vector3,
    pub max: Vector3,
}

impl ServerBounds {
    /// Whether `position` lies in the box.
    pub open spec fn spec_contains(self, position: Vector3) -> bool {
        &&& self.min.x.spec_le(position.x) && position.x.spec_le(self.max.x)
        &&& self.min.y.spec_le(position.y) && position.y.spec_le(self.max.y)
        &&& self.min.z.spec_le(position.z) && position.z.spec_le(self.max.z)
    }

    /// Whether `position` lies in the box.
    pub fn contains(&self, position: &Vector3) -> (result: bool)
        ensures
            result == self.spec_contains(*position),
    {
        self.min.x.le(position.x) && position.x.le(self.max.x) && self.min.y.le(position.y)
            && position.y.le(self.max.y) && self.min.z.le(position.z) && position.z.le(self.max.z)
    }
}

/// A game server and its part of the world.
#[derive(Debug, PartialEq, Eq)]
pub struct GameServerInfo {
    pub id: String,
    pub address: String,
    pub port: u16,
    pub bounds: ServerBounds,
    pub status: ServerStatus,
    pub player_count: usize,
    pub last_heartbeat: u64,
}

impl Clone for GameServerInfo {
    fn clone(&self) -> (result: Self)
        ensures
            result == *self,
    {
        GameServerInfo {
            id: self.id.clone(),
            address: self.address.clone(),
            port: self.port,
            bounds: self.bounds,
            status: self.status,
            player_count: self.player_count,
            last_heartbeat: self.last_heartbeat,
        }
    }
}

/// A region: the box between two corners, and its name.
#[derive(Debug, PartialEq, Eq)]
pub struct RegionBounds {
    pub min: Vector3,
    pub max: Vector3,
    pub region_id: String,
}

impl RegionBounds {
    /// The region's box.
    pub open spec fn extent(self) -> ServerBounds {
        ServerBounds { min: self.min, max: self.max }
    }

    /// Whether `position` lies in the region.
    pub fn contains(&self, position: &Vector3) -> (result: bool)
        ensures
            result == self.extent().spec_contains(*position),
    {
        let extent = ServerBounds { min: self.min, max: self.max };
        extent.contains(position)
    }
}

impl Clone for RegionBounds {
    fn clone(&self) -> (result: Self)
        ensures
            result == *self,
    {
        RegionBounds { min: self.min, max: self.max, region_id: self.region_id.clone() }
    }
}

/// The condition of a game server.
#[derive(Clone, Copy, Debug, PartialEq, Eq, Structural)]
pub enum ServerStatus {
    Starting,
    Running,
    Stopping,
    Stopped,
    Failed,
}

/// A client's connection and the servers it has to do with.
#[derive(Debug)]
pub struct ConnectionInfo {
    pub client_id: String,
    pub player_id: Option<String>,
    pub current_server: Option<String>,
    pub target_server: Option<String>,
    pub connection_time: u64,
}

/// A box reaches from corner to corner and no further: a point that lies beyond a corner
/// along any axis is not in it, and neither is one with a coordinate that is not a number.
pub proof fn lemma_bounds_ends_at_its_corners(a: ServerBounds, at: Vector3)
    ensures
        a.spec_contains(at) ==> {
            &&& a.min.x matches Scalar::Number(from)
            &&& a.max.x matches Scalar::Number(to)
            &&& at.x matches Scalar::Number(p)
            &&& from <= p <= to
        },
        a.spec_contains(at) ==> {
            &&& a.min.y matches Scalar::Number(from)
            &&& a.max.y matches Scalar::Number(to)
            &&& at.y matches Scalar::Number(p)
            &&& from <= p <= to
        },
        a.spec_contains(at) ==> {
            &&& a.min.z matches Scalar::Number(from)
            &&& a.max.z matches Scalar::Number(to)
            &&& at.z matches Scalar::Number(p)
            &&& from <= p <= to
        },
        at.x.spec_lt(a.min.x) || a.max.x.spec_lt(at.x)
            || at.y.spec_lt(a.min.y) || a.max.y.spec_lt(at.y)
            || at.z.spec_lt(a.min.z) || a.max.z.spec_lt(at.z) ==> !a.spec_contains(at),
        at.x is NotANumber || at.y is NotANumber || at.z is NotANumber ==> !a.spec_contains(at),
{
}

/// Two boxs that lie apart along any axis have no point in common.
pub proof fn lemma_bounds_apart_share_no_point(a: ServerBounds, b: ServerBounds, at: Vector3)
    requires
        a.max.x.spec_lt(b.min.x) || a.max.y.spec_lt(b.min.y) || a.max.z.spec_lt(b.min.z),
    ensures
        !(a.spec_contains(at) && b.spec_contains(at)),
{
}

/// A box holds both of its corners, and with two points every point between them: so it
/// holds all that lies from corner to corner.
pub proof fn lemma_bounds_is_full(a: ServerBounds, from: Vector3, to: Vector3, at: Vector3)
    ensures
        a.min.x.spec_le(a.max.x) && a.min.y.spec_le(a.max.y) && a.min.z.spec_le(a.max.z) ==> {
            &&& a.spec_contains(Vector3 { x: a.min.x, y: a.min.y, z: a.min.z })
            &&& a.spec_contains(Vector3 { x: a.max.x, y: a.max.y, z: a.max.z })
        },
        a.spec_contains(from) && a.spec_contains(to) && from.x.spec_le(at.x) && at.x.spec_le(to.x)
            && from.y.spec_le(at.y) && at.y.spec_le(to.y) && from.z.spec_le(at.z)
            && at.z.spec_le(to.z) ==> a.spec_contains(at),
{
}

/// A region's box is the one between its corners.
pub proof fn lemma_extent_is_between_the_corners(region: RegionBounds, at: Vector3)
    ensures
        region.extent().spec_contains(at) <==> {
            &&& region.min.x.spec_le(at.x) && at.x.spec_le(region.max.x)
            &&& region.min.y.spec_le(at.y) && at.y.spec_le(region.max.y)
            &&& region.min.z.spec_le(at.z) && at.z.spec_le(region.max.z)
        },
{
}

} // verus!
