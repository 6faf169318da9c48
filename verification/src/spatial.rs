//! World coordinates, grid regions and player movement.
use vstd::prelude::*;

use crate::scalar::Scalar;

verus! {

/// 3D world coordinates
#[derive(Clone, Copy, Debug, PartialEq, Eq, Structural)]
pub struct WorldCoordinate {
    pub x: Scalar,
    pub y: Scalar,
    pub z: Scalar,
}

impl WorldCoordinate {
    /// The point with the given coordinates.
    pub fn new(x: Scalar, y: Scalar, z: Scalar) -> (result: Self)
        ensures
            result == (WorldCoordinate { x, y, z }),
    {
        WorldCoordinate { x, y, z }
    }

    /// The origin of the world.
    pub open spec fn spec_origin() -> WorldCoordinate {
        WorldCoordinate { x: Scalar::Number(0), y: Scalar::Number(0), z: Scalar::Number(0) }
    }

    /// The origin of the world, where players spawn.
    pub fn origin() -> (result: Self)
        ensures
            result == Self::spec_origin(),
    {
        WorldCoordinate { x: Scalar::Number(0), y: Scalar::Number(0), z: Scalar::Number(0) }
    }
}

/// Server region coordinates (i64 for grid-based regions)
#[derive(Clone, Copy, Debug, PartialEq, Eq, Hash, Structural)]
pub struct RegionCoordinate {
    pub x: i64,
    pub y: i64,
    pub z: i64,
}

/// The absolute value of `n`.
pub open spec fn magnitude(n: int) -> int {
    if n < 0 {
        -n
    } else {
        n
    }
}

/// The Manhattan distance between two regions.
pub open spec fn grid_distance(a: RegionCoordinate, b: RegionCoordinate) -> int {
    magnitude(a.x - b.x) + magnitude(a.y - b.y) + magnitude(a.z - b.z)
}

fn difference(a: i64, b: i64) -> (result: i64)
    requires
        magnitude(a - b) <= i64::MAX,
    ensures
        result == magnitude(a - b),
{
    if a >= b {
        a - b
    } else {
        b - a
    }
}

impl RegionCoordinate {
    /// The region at the given place in the grid.
    pub fn new(x: i64, y: i64, z: i64) -> (result: Self)
        ensures
            result == (RegionCoordinate { x, y, z }),
    {
        RegionCoordinate { x, y, z }
    }

    /// Center region coordinate (0, 0, 0)
    pub fn center() -> (result: Self)
        ensures
            result == (RegionCoordinate { x: 0, y: 0, z: 0 }),
    {
        RegionCoordinate::new(0, 0, 0)
    }

    /// Calculate Manhattan distance to another region
    pub fn manhattan_distance(&self, other: &RegionCoordinate) -> (result: i64)
        requires
            grid_distance(*self, *other) <= i64::MAX,
        ensures
            result == grid_distance(*self, *other),
    {
        difference(self.x, other.x) + difference(self.y, other.y) + difference(self.z, other.z)
    }

    /// Whether all six neighbours have coordinates of their own.
    pub open spec fn is_interior(self) -> bool {
        &&& i64::MIN < self.x < i64::MAX
        &&& i64::MIN < self.y < i64::MAX
        &&& i64::MIN < self.z < i64::MAX
    }

    /// The region that lies `dx`, `dy` and `dz` steps away.
    pub open spec fn shifted(self, dx: int, dy: int, dz: int) -> RegionCoordinate {
        RegionCoordinate {
            x: (self.x + dx) as i64,
            y: (self.y + dy) as i64,
            z: (self.z + dz) as i64,
        }
    }

    /// Get adjacent region coordinates (6 directions in 3D)
    pub fn adjacent_regions(&self) -> (result: Vec<RegionCoordinate>)
        requires
            self.is_interior(),
        ensures
            result@ == neighbours(*self),
    {
        vec![
            RegionCoordinate::new(self.x + 1, self.y, self.z),
            RegionCoordinate::new(self.x - 1, self.y, self.z),
            RegionCoordinate::new(self.x, self.y + 1, self.z),
            RegionCoordinate::new(self.x, self.y - 1, self.z),
            RegionCoordinate::new(self.x, self.y, self.z + 1),
            RegionCoordinate::new(self.x, self.y, self.z - 1),
        ]
    }
}

/// The six neighbours of a region, in the order in which they are listed.
pub open spec fn neighbours(region: RegionCoordinate) -> Seq<RegionCoordinate> {
    seq![
        region.shifted(1, 0, 0),
        region.shifted(-1, 0, 0),
        region.shifted(0, 1, 0),
        region.shifted(0, -1, 0),
        region.shifted(0, 0, 1),
        region.shifted(0, 0, -1),
    ]
}

/// Manhattan distance is a metric.
pub proof fn lemma_grid_distance_is_metric(
    a: RegionCoordinate,
    b: RegionCoordinate,
    c: RegionCoordinate,
)
    ensures
        grid_distance(a, b) >= 0,
        grid_distance(a, b) == 0 <==> a == b,
        grid_distance(a, b) == grid_distance(b, a),
        grid_distance(a, c) <= grid_distance(a, b) + grid_distance(b, c),
{
}

/// The adjacent regions are exactly those at distance one, each listed once.
pub proof fn lemma_neighbours_at_distance_one(region: RegionCoordinate, other: RegionCoordinate)
    requires
        region.is_interior(),
    ensures
        neighbours(region).no_duplicates(),
        neighbours(region).contains(other) <==> grid_distance(region, other) == 1,
{
    let list = neighbours(region);
    assert(list.len() == 6);
    if grid_distance(region, other) == 1 {
        let i: int = if other.x == region.x + 1 {
            0
        } else if other.x == region.x - 1 {
            1
        } else if other.y == region.y + 1 {
            2
        } else if other.y == region.y - 1 {
            3
        } else if other.z == region.z + 1 {
            4
        } else {
            5
        };
        assert(list[i] == other);
    }
}

/// Server region boundary definition
#[derive(Debug, PartialEq, Eq)]
pub struct ServerRegion {
    /// Server identifier
    pub server_id: String,
    /// Region coordinate in the world grid
    pub region_coord: RegionCoordinate,
    /// Center point of this region in world coordinates
    pub center: WorldCoordinate,
    /// Region boundary size (half-extents in each dimension)
    pub bounds: Scalar,
    /// The corner at which every coordinate is smallest: center minus bounds
    pub low: WorldCoordinate,
    /// The corner at which every coordinate is largest: center plus bounds
    pub high: WorldCoordinate,
    /// Current server load (0.0 to 1.0)
    pub load: Scalar,
    /// Server health status
    pub healthy: bool,
}

impl Clone for ServerRegion {
    fn clone(&self) -> (result: Self)
        ensures
            result == *self,
    {
        ServerRegion {
            server_id: self.server_id.clone(),
            region_coord: self.region_coord,
            center: self.center,
            bounds: self.bounds,
            low: self.low,
            high: self.high,
            load: self.load,
            healthy: self.healthy,
        }
    }
}

impl ServerRegion {
    /// A healthy region without load. The corners are the center moved by the
    /// bounds, as the caller's floating-point arithmetic rounds them.
    pub fn new(
        server_id: String,
        region_coord: RegionCoordinate,
        center: WorldCoordinate,
        bounds: Scalar,
        low: WorldCoordinate,
        high: WorldCoordinate,
    ) -> (result: Self)
        ensures
            result == (ServerRegion {
                server_id,
                region_coord,
                center,
                bounds,
                low,
                high,
                load: Scalar::Number(0),
                healthy: true,
            }),
    {
        ServerRegion {
            server_id,
            region_coord,
            center,
            bounds,
            low,
            high,
            load: Scalar::Number(0),
            healthy: true,
        }
    }

    /// Whether a point lies within the region's boundaries, its faces part of it.
    pub open spec fn spec_contains(self, coord: WorldCoordinate) -> bool {
        &&& self.low.x.spec_le(coord.x) && coord.x.spec_le(self.high.x)
        &&& self.low.y.spec_le(coord.y) && coord.y.spec_le(self.high.y)
        &&& self.low.z.spec_le(coord.z) && coord.z.spec_le(self.high.z)
    }

    /// Check if a world coordinate is within this region's boundaries
    pub fn contains_point(&self, coord: &WorldCoordinate) -> (result: bool)
        ensures
            result == self.spec_contains(*coord),
            result ==> self.low.x.spec_le(coord.x) && coord.x.spec_le(self.high.x)
                && self.low.y.spec_le(coord.y) && coord.y.spec_le(self.high.y)
                && self.low.z.spec_le(coord.z) && coord.z.spec_le(self.high.z),
    {
        self.low.x.le(coord.x) && coord.x.le(self.high.x) && self.low.y.le(coord.y) && coord.y.le(
            self.high.y,
        ) && self.low.z.le(coord.z) && coord.z.le(self.high.z)
    }

    /// Check if a point is approaching this region's boundary within a threshold;
    /// `to_boundary` measures how far a point is from the boundary of the cube around a
    /// center
    pub fn is_approaching_boundary<D: Fn(WorldCoordinate, Scalar, WorldCoordinate) -> Scalar>(
        &self,
        coord: &WorldCoordinate,
        threshold: Scalar,
        to_boundary: D,
    ) -> (result: bool)
        requires
            to_boundary.requires((self.center, self.bounds, *coord)),
        ensures
            exists|d: Scalar|
                #[trigger] to_boundary.ensures((self.center, self.bounds, *coord), d) && result
                    == d.spec_le(threshold),
    {
        let d = to_boundary(self.center, self.bounds, *coord);
        d.le(threshold)
    }
}

/// The number of past positions that are kept of a player.
pub const HISTORY_LIMIT: usize = 10;

/// Player movement tracking for predictive transfers. Times are in milliseconds
/// since the Unix epoch.
#[derive(Debug)]
pub struct MovementData {
    /// Current position
    pub position: WorldCoordinate,
    /// Previous position
    pub previous_position: WorldCoordinate,
    /// Current velocity (units per second)
    pub velocity: WorldCoordinate,
    /// Timestamp of last update
    pub timestamp: u64,
    /// Movement history for trajectory prediction
    pub position_history: Vec<(WorldCoordinate, u64)>,
}

/// The entries of a history from `cutoff` on.
pub open spec fn recent(history: Seq<(WorldCoordinate, u64)>, cutoff: u64) -> Seq<
    (WorldCoordinate, u64),
> {
    history.filter(|entry: (WorldCoordinate, u64)| entry.1 >= cutoff)
}

/// The history with one more entry, without its oldest where it has grown past
/// its limit.
pub open spec fn extended(
    history: Seq<(WorldCoordinate, u64)>,
    entry: (WorldCoordinate, u64),
) -> Seq<(WorldCoordinate, u64)> {
    if history.len() >= HISTORY_LIMIT {
        history.push(entry).skip(1)
    } else {
        history.push(entry)
    }
}

impl MovementData {
    /// A well-kept history holds at most ten entries, oldest first; the newest is the
    /// current position.
    pub open spec fn wf(self) -> bool {
        let history = self.position_history@;
        &&& 1 <= history.len() <= HISTORY_LIMIT
        &&& history.last() == (self.position, self.timestamp)
        &&& forall|i: int, j: int|
            0 <= i <= j < history.len() ==> (#[trigger] history[i]).1 <= (#[trigger] history[j]).1
    }

    /// A player that stands at `initial_position` since `timestamp`.
    pub fn new(initial_position: WorldCoordinate, timestamp: u64) -> (result: Self)
        ensures
            result.wf(),
            result.position == initial_position,
            result.previous_position == initial_position,
            result.velocity == WorldCoordinate::spec_origin(),
            result.timestamp == timestamp,
            result.position_history@ == seq![(initial_position, timestamp)],
    {
        let history: Vec<(WorldCoordinate, u64)> = vec![(initial_position, timestamp)];
        MovementData {
            position: initial_position,
            previous_position: initial_position,
            velocity: WorldCoordinate::origin(),
            timestamp,
            position_history: history,
        }
    }

    /// Moves the player to `new_position` at `current_time`. `velocity` is that of
    /// the movement; it counts only where time has passed.
    pub fn update_position(
        &mut self,
        new_position: WorldCoordinate,
        current_time: u64,
        velocity: WorldCoordinate,
    )
        requires
            old(self).timestamp <= current_time,
        ensures
            old(self).wf() ==> final(self).wf(),
            final(self).position == new_position,
            final(self).timestamp == current_time,
            final(self).previous_position == (if current_time > old(self).timestamp {
                old(self).position
            } else {
                old(self).previous_position
            }),
            final(self).velocity == (if current_time > old(self).timestamp {
                velocity
            } else {
                old(self).velocity
            }),
            final(self).position_history@ == extended(
                old(self).position_history@,
                (new_position, current_time),
            ),
    {
        if current_time > self.timestamp {
            self.previous_position = self.position;
            self.velocity = velocity;
        }
        self.position = new_position;
        self.timestamp = current_time;
        self.position_history.push((new_position, current_time));
        if self.position_history.len() > HISTORY_LIMIT {
            let ghost grown = self.position_history@;
            let _ = self.position_history.remove(0);
            assert(self.position_history@ =~= grown.subrange(1, grown.len() as int));
        }
    }

    /// The ends of the movement over the last `millis_back` milliseconds: the
    /// first and the last recent position on record, and the milliseconds between
    /// them. `None` where there are fewer than two recent positions or no time
    /// lies between them: the average is then the current velocity.
    pub fn average_span(&self, millis_back: u64) -> (result: Option<
        (WorldCoordinate, WorldCoordinate, u64),
    >)
        requires
            millis_back <= self.timestamp,
            self.in_order_since((self.timestamp - millis_back) as u64),
        ensures
            ({
                let moves = recent(
                    self.position_history@,
                    (self.timestamp - millis_back) as u64,
                );
                if moves.len() >= 2 && moves.last().1 > moves[0].1 {
                    result == Some(
                        (moves[0].0, moves.last().0, (moves.last().1 - moves[0].1) as u64),
                    )
                } else {
                    result is None
                }
            }),
    {
        let cutoff: u64 = self.timestamp - millis_back;
        let ghost history = self.position_history@;
        let ghost wanted = |entry: (WorldCoordinate, u64)| entry.1 >= cutoff;
        let mut ends: Option<(usize, usize)> = None;
        let mut i: usize = 0;
        assert(history.take(0) =~= Seq::<(WorldCoordinate, u64)>::empty());
        reveal(Seq::filter);
        assert(history.take(0).filter(wanted) =~= Seq::<(WorldCoordinate, u64)>::empty());
        while i < self.position_history.len()
            invariant
                i <= history.len(),
                history == self.position_history@,
                wanted == (|entry: (WorldCoordinate, u64)| entry.1 >= cutoff),
                ({
                    let moves = history.take(i as int).filter(wanted);
                    match ends {
                        Some((first, last)) => {
                            &&& first <= last < i
                            &&& moves.len() > 0
                            &&& (moves.len() == 1 <==> first == last)
                            &&& moves[0] == history[first as int]
                            &&& moves.last() == history[last as int]
                        },
                        None => moves.len() == 0,
                    }
                }),
            decreases history.len() - i,
        {
            proof {
                reveal(Seq::filter);
                assert(history.take(i + 1).drop_last() =~= history.take(i as int));
            }
            if self.position_history[i].1 >= cutoff {
                ends = match ends {
                    Some((first, _)) => Some((first, i)),
                    None => Some((i, i)),
                };
            }
            i += 1;
        }
        assert(history.take(i as int) =~= history);
        assert(recent(history, cutoff) =~= history.filter(wanted));
        match ends {
            Some((first, last)) => {
                let start = self.position_history[first];
                let end = self.position_history[last];
                if first < last && end.1 > start.1 {
                    Some((start.0, end.0, end.1 - start.1))
                } else {
                    None
                }
            },
            None => None,
        }
    }

    /// Get average velocity over recent history: the last `millis_back` milliseconds.
    /// `velocity` is that of a movement from one place to another within some
    /// milliseconds
    pub fn get_average_velocity<F: Fn(WorldCoordinate, WorldCoordinate, u64) -> WorldCoordinate>(
        &self,
        millis_back: u64,
        velocity: F,
    ) -> (result: WorldCoordinate)
        requires
            millis_back <= self.timestamp,
            self.in_order_since((self.timestamp - millis_back) as u64),
            forall|a: WorldCoordinate, b: WorldCoordinate, t: u64| #[trigger]
                velocity.requires((a, b, t)),
        ensures
            ({
                let moves = recent(
                    self.position_history@,
                    (self.timestamp - millis_back) as u64,
                );
                if moves.len() >= 2 && moves.last().1 > moves[0].1 {
                    velocity.ensures(
                        (moves[0].0, moves.last().0, (moves.last().1 - moves[0].1) as u64),
                        result,
                    )
                } else {
                    result == self.velocity
                }
            }),
    {
        match self.average_span(millis_back) {
            Some((first, last, between)) => velocity(first, last, between),
            None => self.velocity,
        }
    }

    /// Whether the last of the positions on record from `cutoff` on is not older than
    /// the first of them.
    pub open spec fn in_order_since(self, cutoff: u64) -> bool {
        let moves = recent(self.position_history@, cutoff);
        moves.len() >= 2 ==> moves[0].1 <= moves.last().1
    }
}

/// The positions of a well-kept history are in order, whatever part of it is looked at.
pub proof fn lemma_history_in_order(movement: MovementData, cutoff: u64)
    requires
        movement.wf(),
    ensures
        movement.in_order_since(cutoff),
{
    let history = movement.position_history@;
    let wanted = |entry: (WorldCoordinate, u64)| entry.1 >= cutoff;
    lemma_filter_in_order(history, wanted);
}

proof fn lemma_filter_in_order(
    history: Seq<(WorldCoordinate, u64)>,
    wanted: spec_fn((WorldCoordinate, u64)) -> bool,
)
    requires
        forall|i: int, j: int|
            0 <= i <= j < history.len() ==> (#[trigger] history[i]).1 <= (#[trigger] history[j]).1,
    ensures
        history.filter(wanted).len() > 0 ==> history.filter(wanted)[0].1 <= history.filter(
            wanted,
        ).last().1 && history.filter(wanted).last().1 <= history.last().1 && history.len() > 0,
    decreases history.len(),
{
    reveal(Seq::filter);
    if history.len() > 0 {
        let front = history.drop_last();
        assert forall|i: int, j: int| 0 <= i <= j < front.len() implies (#[trigger] front[i]).1 <= (
        #[trigger] front[j]).1 by {
            assert(history[i].1 <= history[j].1);
        }
        lemma_filter_in_order(front, wanted);
        if front.len() > 0 {
            assert(history[front.len() - 1].1 <= history[history.len() - 1].1);
        }
    }
}

/// A region reaches from corner to corner and no further: a point that lies beyond a corner
/// along any axis is not in it, and neither is one with a coordinate that is not a number.
pub proof fn lemma_region_ends_at_its_corners(a: ServerRegion, at: WorldCoordinate)
    ensures
        a.spec_contains(at) ==> {
            &&& a.low.x matches Scalar::Number(from)
            &&& a.high.x matches Scalar::Number(to)
            &&& at.x matches Scalar::Number(p)
            &&& from <= p <= to
        },
        a.spec_contains(at) ==> {
            &&& a.low.y matches Scalar::Number(from)
            &&& a.high.y matches Scalar::Number(to)
            &&& at.y matches Scalar::Number(p)
            &&& from <= p <= to
        },
        a.spec_contains(at) ==> {
            &&& a.low.z matches Scalar::Number(from)
            &&& a.high.z matches Scalar::Number(to)
            &&& at.z matches Scalar::Number(p)
            &&& from <= p <= to
        },
        at.x.spec_lt(a.low.x) || a.high.x.spec_lt(at.x)
            || at.y.spec_lt(a.low.y) || a.high.y.spec_lt(at.y)
            || at.z.spec_lt(a.low.z) || a.high.z.spec_lt(at.z) ==> !a.spec_contains(at),
        at.x is NotANumber || at.y is NotANumber || at.z is NotANumber ==> !a.spec_contains(at),
{
}

/// Two regions that lie apart along any axis have no point in common.
pub proof fn lemma_regions_apart_share_no_point(a: ServerRegion, b: ServerRegion, at: WorldCoordinate)
    requires
        a.high.x.spec_lt(b.low.x) || a.high.y.spec_lt(b.low.y) || a.high.z.spec_lt(b.low.z),
    ensures
        !(a.spec_contains(at) && b.spec_contains(at)),
{
}

/// A region holds both of its corners, and with two points every point between them: so it
/// holds all that lies from corner to corner.
pub proof fn lemma_region_is_full(a: ServerRegion, from: WorldCoordinate, to: WorldCoordinate, at: WorldCoordinate)
    ensures
        a.low.x.spec_le(a.high.x) && a.low.y.spec_le(a.high.y) && a.low.z.spec_le(a.high.z) ==> {
            &&& a.spec_contains(WorldCoordinate { x: a.low.x, y: a.low.y, z: a.low.z })
            &&& a.spec_contains(WorldCoordinate { x: a.high.x, y: a.high.y, z: a.high.z })
        },
        a.spec_contains(from) && a.spec_contains(to) && from.x.spec_le(at.x) && at.x.spec_le(to.x)
            && from.y.spec_le(at.y) && at.y.spec_le(to.y) && from.z.spec_le(at.z)
            && at.z.spec_le(to.z) ==> a.spec_contains(at),
{
}

/// The history of a player keeps its last ten places: a new one comes last, and only the
/// oldest leaves, where there were ten.
pub proof fn lemma_history_drops_only_the_oldest(
    history: Seq<(WorldCoordinate, u64)>,
    entry: (WorldCoordinate, u64),
)
    requires
        history.len() <= 10,
    ensures
        extended(history, entry).len() <= 10,
        extended(history, entry).last() == entry,
        history.len() < 10 ==> extended(history, entry).drop_last() == history,
        history.len() == 10 ==> extended(history, entry).drop_last() == history.drop_first(),
{
    if history.len() < 10 {
        assert(extended(history, entry).drop_last() =~= history);
    } else {
        assert(extended(history, entry).drop_last() =~= history.drop_first());
    }
}

/// The recent places are those from the cutoff on, the cutoff itself among them.
pub proof fn lemma_recent_places_are_from_the_cutoff_on(
    history: Seq<(WorldCoordinate, u64)>,
    cutoff: u64,
    entry: (WorldCoordinate, u64),
)
    ensures
        recent(history, cutoff).contains(entry) <==> history.contains(entry) && cutoff <= entry.1,
        recent(history, cutoff).len() <= history.len(),
{
    crate::search::lemma_filter_keeps_the_wanted(
        history,
        |e: (WorldCoordinate, u64)| e.1 >= cutoff,
        entry,
    );
}

/// A step along one axis is one region further, and steps along the axes add up.
pub proof fn lemma_grid_distance_counts_steps(region: RegionCoordinate, dx: int, dy: int, dz: int)
    requires
        i64::MIN <= region.x + dx <= i64::MAX,
        i64::MIN <= region.y + dy <= i64::MAX,
        i64::MIN <= region.z + dz <= i64::MAX,
    ensures
        dx >= 0 && dy >= 0 && dz >= 0 ==> grid_distance(region, region.shifted(dx, dy, dz)) == dx
            + dy + dz,
        dx <= 0 && dy <= 0 && dz <= 0 ==> grid_distance(region, region.shifted(dx, dy, dz)) == -(dx
            + dy + dz),
        region.shifted(dx, dy, dz).x - region.x == dx,
        region.shifted(dx, dy, dz).y - region.y == dy,
        region.shifted(dx, dy, dz).z - region.z == dz,
{
}

} // verus!
