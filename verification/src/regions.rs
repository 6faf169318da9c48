//! Regions of the world, the servers assigned to them and the players in them.
use vstd::prelude::*;

use crate::json::opt_text;
use crate::scalar::Scalar;
use crate::search::{first_index, lemma_first_index, nearest, nearest_index};
use crate::server_manager::{keys_within, path_between, position_of};
use crate::state::{RegionBounds, ServerBounds, Vector3};
use crate::table::{kept_entries, texts, Table};
use crate::text::str_eq;

verus! {

/// Which region lies where, and which server is in charge of it. Distances are
/// floating-point values that the caller measures.
pub struct RegionManager {
    pub regions: Table<RegionBounds>,
    /// The region of each server
    pub server_assignments: Table<String>,
    pub player_positions: Table<Vector3>,
    pub preload_distance: Scalar,
    pub transfer_distance: Scalar,
}

/// Whether a region contains `position`.
pub open spec fn covers(position: Vector3) -> spec_fn(RegionBounds) -> bool {
    |r: RegionBounds| r.extent().spec_contains(position)
}

/// The first region that contains `position`.
pub open spec fn region_at(
    keys: Seq<Seq<char>>,
    regions: Seq<RegionBounds>,
    position: Vector3,
) -> Option<Seq<char>> {
    match first_index(regions, covers(position)) {
        Some(i) => Some(keys[i]),
        None => None,
    }
}

/// The assignments to a region.
pub open spec fn assigned_to(region: Seq<char>) -> spec_fn(String) -> bool {
    |assigned: String| assigned@ == region
}

/// The first server that is assigned to a region.
pub open spec fn server_of(
    servers: Seq<Seq<char>>,
    assignments: Seq<String>,
    region: Seq<char>,
) -> Option<Seq<char>> {
    match first_index(assignments, assigned_to(region)) {
        Some(i) => Some(servers[i]),
        None => None,
    }
}

/// Whether `distances` are what `distance` measures from each of the regions to
/// `position`.
pub open spec fn measured_regions<F: Fn(ServerBounds, Vector3) -> Scalar>(
    regions: Seq<RegionBounds>,
    position: Vector3,
    distance: F,
    distances: Seq<Scalar>,
) -> bool {
    &&& distances.len() == regions.len()
    &&& forall|i: int|
        0 <= i < regions.len() ==> distance.ensures(
            (regions[i].extent(), position),
            #[trigger] distances[i],
        )
}

impl RegionManager {
    /// Every region is filed under its own name.
    pub open spec fn wf(&self) -> bool {
        &&& self.regions.wf()
        &&& self.server_assignments.wf()
        &&& self.player_positions.wf()
        &&& forall|k: Seq<char>| #[trigger]
            self.regions@.dom().contains(k) ==> self.regions@[k].region_id@ == k
    }

    /// No regions, no servers and no players.
    pub fn new(preload_distance: Scalar, transfer_distance: Scalar) -> (result: Self)
        ensures
            result.wf(),
            result.regions@ == Map::<Seq<char>, RegionBounds>::empty(),
            result.server_assignments@ == Map::<Seq<char>, String>::empty(),
            result.player_positions@ == Map::<Seq<char>, Vector3>::empty(),
            result.preload_distance == preload_distance,
            result.transfer_distance == transfer_distance,
    {
        RegionManager {
            regions: Table::new(),
            server_assignments: Table::new(),
            player_positions: Table::new(),
            preload_distance,
            transfer_distance,
        }
    }

    /// Files a region and assigns a server to it.
    pub fn register_region(&mut self, bounds: RegionBounds, server_id: String)
        requires
            old(self).wf(),
        ensures
            final(self).wf(),
            *final(self) == (RegionManager {
                regions: final(self).regions,
                server_assignments: final(self).server_assignments,
                ..*old(self)
            }),
            final(self).regions@ == old(self).regions@.insert(bounds.region_id@, bounds),
            final(self).server_assignments@ == old(self).server_assignments@.insert(
                server_id@,
                bounds.region_id,
            ),
    {
        let region_id: String = bounds.region_id.clone();
        let _ = self.regions.insert(region_id.clone(), bounds);
        let _ = self.server_assignments.insert(server_id, region_id);
    }

    /// Drops a region and the assignments of servers to it.
    pub fn unregister_region(&mut self, region_id: &str)
        requires
            old(self).wf(),
        ensures
            final(self).wf(),
            *final(self) == (RegionManager {
                regions: final(self).regions,
                server_assignments: final(self).server_assignments,
                ..*old(self)
            }),
            final(self).regions@ == old(self).regions@.remove(region_id@),
            final(self).server_assignments@ == kept_entries(
                old(self).server_assignments@,
                |k: Seq<char>, assigned: String| assigned@ != region_id@,
            ),
    {
        let _ = self.regions.remove(region_id);
        let ghost keeps = |k: Seq<char>, assigned: String| assigned@ != region_id@;
        let keep = |_server: &String, assigned: &String| -> (kept: bool)
            ensures
                kept == (assigned@ != region_id@),
        {
            !str_eq(assigned.as_str(), region_id)
        };
        self.server_assignments.retain(keep, Ghost(keeps));
    }

    /// Notes where a player is.
    pub fn update_player_position(&mut self, player_id: String, position: Vector3)
        requires
            old(self).wf(),
        ensures
            final(self).wf(),
            *final(self) == (RegionManager {
                player_positions: final(self).player_positions,
                ..*old(self)
            }),
            final(self).player_positions@ == old(self).player_positions@.insert(
                player_id@,
                position,
            ),
    {
        let _ = self.player_positions.insert(player_id, position);
    }

    /// The first region that contains `position`.
    pub fn find_region_for_position(&self, position: &Vector3) -> (result: Option<String>)
        requires
            self.wf(),
        ensures
            opt_text(result) == region_at(self.regions.keys(), self.regions.values(), *position),
    {
        let test = |region: &RegionBounds| -> (yes: bool)
            ensures
                yes == region.extent().spec_contains(*position),
        {
            region.contains(position)
        };
        match self.regions.first_where(test, Ghost(covers(*position))) {
            Some(i) => Some(self.regions.key_at(i).clone()),
            None => None,
        }
    }

    /// The first server that is assigned to the first region that contains `position`.
    pub fn find_server_for_position(&self, position: &Vector3) -> (result: Option<String>)
        requires
            self.wf(),
        ensures
            opt_text(result) == (match region_at(
                self.regions.keys(),
                self.regions.values(),
                *position,
            ) {
                Some(region) => server_of(
                    self.server_assignments.keys(),
                    self.server_assignments.values(),
                    region,
                ),
                None => None,
            }),
    {
        let region: String = match self.find_region_for_position(position) {
            Some(region) => region,
            None => {
                return None;
            },
        };
        let test = |assigned: &String| -> (yes: bool)
            ensures
                yes == (assigned@ == region@),
        {
            str_eq(assigned.as_str(), region.as_str())
        };
        let ghost wanted = assigned_to(region@);
        match self.server_assignments.first_where(test, Ghost(wanted)) {
            Some(i) => Some(self.server_assignments.key_at(i).clone()),
            None => None,
        }
    }

    fn measure<F: Fn(ServerBounds, Vector3) -> Scalar>(&self, position: &Vector3, distance: &F) -> (result:
        Vec<Scalar>)
        requires
            self.wf(),
            forall|b: ServerBounds, p: Vector3| #[trigger] distance.requires((b, p)),
        ensures
            measured_regions(self.regions.values(), *position, *distance, result@),
    {
        let mut out: Vec<Scalar> = Vec::new();
        let mut i: usize = 0;
        while i < self.regions.len()
            invariant
                self.wf(),
                i <= self.regions.values().len(),
                out@.len() == i,
                forall|b: ServerBounds, p: Vector3| #[trigger] distance.requires((b, p)),
                forall|j: int|
                    0 <= j < i ==> distance.ensures(
                        (self.regions.values()[j].extent(), *position),
                        #[trigger] out@[j],
                    ),
            decreases self.regions.values().len() - i,
        {
            let region = self.regions.value_at(i);
            let extent = ServerBounds { min: region.min, max: region.max };
            out.push(distance(extent, *position));
            i += 1;
        }
        out
    }

    /// Whether a region is known and within the preload distance of a player.
    pub fn should_preload_region<F: Fn(ServerBounds, Vector3) -> Scalar>(
        &self,
        player_position: &Vector3,
        region_id: &str,
        distance: F,
    ) -> (result: bool)
        requires
            self.wf(),
            forall|b: ServerBounds, p: Vector3| #[trigger] distance.requires((b, p)),
        ensures
            !self.regions@.dom().contains(region_id@) ==> !result,
            self.regions@.dom().contains(region_id@) ==> exists|d: Scalar|
                #[trigger] distance.ensures(
                    (self.regions@[region_id@].extent(), *player_position),
                    d,
                ) && result == d.spec_le(self.preload_distance),
    {
        match self.regions.get(region_id) {
            Some(region) => {
                let extent = ServerBounds { min: region.min, max: region.max };
                let d = distance(extent, *player_position);
                d.le(self.preload_distance)
            },
            None => false,
        }
    }

    /// The region that a player should be handed over to: the nearest of the other
    /// regions within the transfer distance, the first of them where several are
    /// equally near.
    pub fn should_transfer_player<F: Fn(ServerBounds, Vector3) -> Scalar>(
        &self,
        player_position: &Vector3,
        current_region: &str,
        distance: F,
    ) -> (result: Option<String>)
        requires
            self.wf(),
            forall|b: ServerBounds, p: Vector3| #[trigger] distance.requires((b, p)),
        ensures
            exists|distances: Seq<Scalar>|
                {
                    &&& #[trigger] measured_regions(
                        self.regions.values(),
                        *player_position,
                        distance,
                        distances,
                    )
                    &&& match (
                        result,
                        nearest(
                            distances,
                            position_of(self.regions.keys(), current_region@),
                            self.transfer_distance,
                        ),
                    ) {
                        (Some(id), Some(i)) => id@ == self.regions.keys()[i],
                        (None, None) => true,
                        _ => false,
                    }
                },
    {
        proof {
            self.regions.lemma_wf();
        }
        let distances = self.measure(player_position, &distance);
        let current = self.regions.find(current_region);
        match nearest_index(&distances, current, self.transfer_distance) {
            Some(i) => Some(self.regions.key_at(i).clone()),
            None => None,
        }
    }

    /// The regions within `radius` of a position.
    pub fn get_nearby_regions<F: Fn(ServerBounds, Vector3) -> Scalar>(
        &self,
        position: &Vector3,
        radius: Scalar,
        distance: F,
    ) -> (result: Vec<String>)
        requires
            self.wf(),
            forall|b: ServerBounds, p: Vector3| #[trigger] distance.requires((b, p)),
        ensures
            exists|distances: Seq<Scalar>|
                {
                    &&& #[trigger] measured_regions(
                        self.regions.values(),
                        *position,
                        distance,
                        distances,
                    )
                    &&& texts(result@) == keys_within(self.regions.keys(), distances, radius)
                },
    {
        proof {
            self.regions.lemma_wf();
        }
        let distances = self.measure(position, &distance);
        let ghost keys = self.regions.keys();
        let mut out: Vec<String> = Vec::new();
        let mut i: usize = 0;
        assert(keys.take(0) =~= Seq::<Seq<char>>::empty());
        assert(texts(out@) =~= Seq::<Seq<char>>::empty());
        while i < self.regions.len()
            invariant
                self.wf(),
                keys == self.regions.keys(),
                i <= keys.len(),
                distances@.len() == keys.len(),
                texts(out@) == keys_within(keys.take(i as int), distances@.take(i as int), radius),
            decreases keys.len() - i,
        {
            proof {
                assert(keys.take(i + 1).drop_last() =~= keys.take(i as int));
                assert(distances@.take(i + 1).drop_last() =~= distances@.take(i as int));
            }
            let ghost before = out@;
            if distances[i].le(radius) {
                out.push(self.regions.key_at(i).clone());
                assert(texts(out@) =~= texts(before).push(keys[i as int]));
            }
            i += 1;
        }
        proof {
            assert(keys.take(i as int) =~= keys);
            assert(distances@.take(i as int) =~= distances@);
        }
        out
    }

    /// Where a region lies.
    pub fn get_region_bounds(&self, region_id: &str) -> (result: Option<RegionBounds>)
        requires
            self.wf(),
        ensures
            result == (if self.regions@.dom().contains(region_id@) {
                Some(self.regions@[region_id@])
            } else {
                None
            }),
    {
        match self.regions.get(region_id) {
            Some(region) => Some(region.clone()),
            None => None,
        }
    }

    /// All regions.
    pub fn get_all_regions(&self) -> (result: Vec<RegionBounds>)
        requires
            self.wf(),
        ensures
            result@ == self.regions.values(),
    {
        let mut out: Vec<RegionBounds> = Vec::new();
        let mut i: usize = 0;
        while i < self.regions.len()
            invariant
                self.wf(),
                i <= self.regions.values().len(),
                out@ == self.regions.values().take(i as int),
            decreases self.regions.values().len() - i,
        {
            out.push(self.regions.value_at(i).clone());
            i += 1;
            assert(out@ =~= self.regions.values().take(i as int));
        }
        assert(out@ =~= self.regions.values());
        out
    }

    /// The regions that a player passes from one position to another: those that
    /// contain the two, where they are different.
    pub fn calculate_migration_path(&self, from: &Vector3, to: &Vector3) -> (result: Vec<String>)
        requires
            self.wf(),
        ensures
            texts(result@) == path_between(
                region_at(self.regions.keys(), self.regions.values(), *from),
                region_at(self.regions.keys(), self.regions.values(), *to),
            ),
    {
        let mut path: Vec<String> = Vec::new();
        let from_region = self.find_region_for_position(from);
        let to_region = self.find_region_for_position(to);
        match (from_region, to_region) {
            (Some(a), Some(b)) => {
                if !str_eq(a.as_str(), b.as_str()) {
                    path.push(a);
                    path.push(b);
                    assert(texts(path@) =~= seq![a@, b@]);
                } else {
                    assert(texts(path@) =~= Seq::<Seq<char>>::empty());
                }
            },
            _ => {
                assert(texts(path@) =~= Seq::<Seq<char>>::empty());
            },
        }
        path
    }
}

/// The region of a position is one that contains it, and a position has a region as soon
/// as there is such a one.
pub proof fn lemma_region_contains_position(
    keys: Seq<Seq<char>>,
    regions: Seq<RegionBounds>,
    position: Vector3,
)
    requires
        keys.len() == regions.len(),
    ensures
        match region_at(keys, regions, position) {
            Some(key) => exists|i: int|
                0 <= i < keys.len() && keys[i] == key && (
                #[trigger] regions[i]).extent().spec_contains(position),
            None => forall|i: int|
                0 <= i < regions.len() ==> !(#[trigger] regions[i]).extent().spec_contains(
                    position,
                ),
        },
{
    lemma_first_index(regions, covers(position));
    match first_index(regions, covers(position)) {
        Some(i) => {
            assert(regions[i].extent().spec_contains(position));
        },
        None => {
            assert forall|i: int| 0 <= i < regions.len() implies !(
            #[trigger] regions[i]).extent().spec_contains(position) by {
                assert(!covers(position)(regions[i]));
            }
        },
    }
}

/// Once a region is dropped, no server is assigned to it.
pub proof fn lemma_dropped_region_has_no_server(
    assignments: Map<Seq<char>, String>,
    region: Seq<char>,
    server: Seq<char>,
)
    ensures
        ({
            let left = kept_entries(
                assignments,
                |k: Seq<char>, assigned: String| assigned@ != region,
            );
            left.dom().contains(server) ==> left[server]@ != region && left[server]
                == assignments[server]
        }),
{
}

/// A player that moves from one region to another.
#[derive(Debug)]
pub struct RegionTransition {
    pub player_id: String,
    pub from_region: String,
    pub to_region: String,
    pub from_server: String,
    pub to_server: String,
    pub initiated_at: u64,
    pub completed_at: Option<u64>,
    pub state_transferred: bool,
}

impl RegionTransition {
    /// A transition that was initiated at `now`, in seconds since the Unix epoch.
    pub fn new(
        player_id: String,
        from_region: String,
        to_region: String,
        from_server: String,
        to_server: String,
        now: u64,
    ) -> (result: Self)
        ensures
            result == (RegionTransition {
                player_id,
                from_region,
                to_region,
                from_server,
                to_server,
                initiated_at: now,
                completed_at: None,
                state_transferred: false,
            }),
    {
        RegionTransition {
            player_id,
            from_region,
            to_region,
            from_server,
            to_server,
            initiated_at: now,
            completed_at: None,
            state_transferred: false,
        }
    }

    /// Notes that the transition was completed at `now`.
    pub fn complete(&mut self, now: u64)
        ensures
            *final(self) == (RegionTransition { completed_at: Some(now), ..*old(self) }),
    {
        self.completed_at = Some(now);
    }

    /// Whether the transition is completed.
    pub fn is_completed(&self) -> (result: bool)
        ensures
            result == (self.completed_at is Some),
    {
        self.completed_at.is_some()
    }
}

/// Of the regions that hold a position, the first is its region.
pub proof fn lemma_first_region_covers(
    keys: Seq<Seq<char>>,
    regions: Seq<RegionBounds>,
    position: Vector3,
    i: int,
)
    requires
        0 <= i < regions.len(),
        regions[i].extent().spec_contains(position),
        forall|j: int| 0 <= j < i ==> !(#[trigger] regions[j]).extent().spec_contains(position),
    ensures
        region_at(keys, regions, position) == Some(keys[i]),
{
    let wanted = covers(position);
    assert(crate::search::is_first(regions, wanted, i));
    crate::search::lemma_first_found(regions, wanted, i);
}

/// The server of a region is one that the region is assigned to, the first of them, and a
/// region has a server as soon as it is assigned to one.
pub proof fn lemma_server_of_region_is_assigned(
    servers: Seq<Seq<char>>,
    assignments: Seq<String>,
    region: Seq<char>,
)
    requires
        servers.len() == assignments.len(),
    ensures
        match server_of(servers, assignments, region) {
            Some(server) => exists|i: int|
                {
                    &&& 0 <= i < servers.len()
                    &&& servers[i] == server
                    &&& (#[trigger] assignments[i])@ == region
                    &&& forall|j: int| 0 <= j < i ==> (#[trigger] assignments[j])@ != region
                },
            None => forall|i: int|
                0 <= i < assignments.len() ==> (#[trigger] assignments[i])@ != region,
        },
{
    let wanted = assigned_to(region);
    lemma_first_index(assignments, wanted);
    match first_index(assignments, wanted) {
        Some(i) => {
            assert(wanted(assignments[i]));
            assert(assignments[i]@ == region);
            assert forall|j: int| 0 <= j < i implies (#[trigger] assignments[j])@ != region by {
                assert(!wanted(assignments[j]));
            }
        },
        None => {
            assert forall|i: int| 0 <= i < assignments.len() implies (#[trigger] assignments[i])@
                != region by {
                assert(!wanted(assignments[i]));
            }
        },
    }
}

/// Each distance is that of the position from the region beside it.
pub proof fn lemma_each_region_is_measured<
    F: Fn(ServerBounds, Vector3) -> Scalar,
>(
    regions: Seq<RegionBounds>,
    position: Vector3,
    distance: F,
    distances: Seq<Scalar>,
    i: int,
)
    requires
        measured_regions(regions, position, distance, distances),
        0 <= i < regions.len(),
    ensures
        distances.len() == regions.len(),
        distance.ensures((ServerBounds { min: regions[i].min, max: regions[i].max }, position), distances[i]),
{
}

} // verus!
