//! Servers by the parts of the world that they own, and the players on them.
use vstd::prelude::*;

use crate::json::opt_text;
use crate::scalar::Scalar;
use crate::search::{
    first_index, is_near, lemma_first_index, lemma_nearest, nearest, nearest_index,
};
use crate::state::{GameServerInfo, ServerBounds, Vector3};
use crate::table::{kept_entries, texts, Table};
use crate::text::str_eq;

verus! {

/// Which server owns which part of the world, and which player is where. Distances are
/// floating-point values that the caller measures.
pub struct ServerManager {
    pub servers: Table<GameServerInfo>,
    pub player_positions: Table<Vector3>,
    pub player_servers: Table<String>,
    /// Distance for preloading nearby servers
    pub preload_distance: Scalar,
    /// Distance threshold for server transfers
    pub transfer_distance: Scalar,
}

/// Whether a server's part of the world contains `position`.
pub open spec fn owns(position: Vector3) -> spec_fn(GameServerInfo) -> bool {
    |s: GameServerInfo| s.bounds.spec_contains(position)
}

/// Whether `distances` are what `distance` measures from each of the servers to
/// `position`.
pub open spec fn measured<F: Fn(ServerBounds, Vector3) -> Scalar>(
    servers: Seq<GameServerInfo>,
    position: Vector3,
    distance: F,
    distances: Seq<Scalar>,
) -> bool {
    &&& distances.len() == servers.len()
    &&& forall|i: int|
        0 <= i < servers.len() ==> distance.ensures(
            (servers[i].bounds, position),
            #[trigger] distances[i],
        )
}

/// The position of `key`, if it has one.
pub open spec fn position_of(keys: Seq<Seq<char>>, key: Seq<char>) -> Option<int> {
    if keys.contains(key) {
        Some(keys.index_of(key))
    } else {
        None
    }
}

/// The keys whose distance is within `radius`, in order.
pub open spec fn keys_within(keys: Seq<Seq<char>>, distances: Seq<Scalar>, radius: Scalar) -> Seq<
    Seq<char>,
>
    decreases keys.len(),
{
    if keys.len() == 0 {
        Seq::empty()
    } else {
        let front = keys_within(keys.drop_last(), distances.drop_last(), radius);
        if distances.last().spec_le(radius) {
            front.push(keys.last())
        } else {
            front
        }
    }
}

/// The first server that owns `position`.
pub open spec fn owner(keys: Seq<Seq<char>>, servers: Seq<GameServerInfo>, position: Vector3) -> Option<
    Seq<char>,
> {
    match first_index(servers, owns(position)) {
        Some(i) => Some(keys[i]),
        None => None,
    }
}

/// The servers that a player passes from one to the other; none where they are the
/// same or one of them is not known.
pub open spec fn path_between(from: Option<Seq<char>>, to: Option<Seq<char>>) -> Seq<Seq<char>> {
    match (from, to) {
        (Some(a), Some(b)) => if a != b {
            seq![a, b]
        } else {
            Seq::empty()
        },
        _ => Seq::empty(),
    }
}

impl ServerManager {
    /// Every server is filed under its own identifier.
    pub open spec fn wf(&self) -> bool {
        &&& self.servers.wf()
        &&& self.player_positions.wf()
        &&& self.player_servers.wf()
        &&& forall|k: Seq<char>| #[trigger]
            self.servers@.dom().contains(k) ==> self.servers@[k].id@ == k
    }

    /// No servers and no players.
    pub fn new(preload_distance: Scalar, transfer_distance: Scalar) -> (result: Self)
        ensures
            result.wf(),
            result.servers@ == Map::<Seq<char>, GameServerInfo>::empty(),
            result.player_positions@ == Map::<Seq<char>, Vector3>::empty(),
            result.player_servers@ == Map::<Seq<char>, String>::empty(),
            result.preload_distance == preload_distance,
            result.transfer_distance == transfer_distance,
    {
        ServerManager {
            servers: Table::new(),
            player_positions: Table::new(),
            player_servers: Table::new(),
            preload_distance,
            transfer_distance,
        }
    }

    /// Files a server, in place of one with the same identifier.
    pub fn register_server(&mut self, server_info: GameServerInfo)
        requires
            old(self).wf(),
        ensures
            final(self).wf(),
            *final(self) == (ServerManager { servers: final(self).servers, ..*old(self) }),
            final(self).servers@ == old(self).servers@.insert(server_info.id@, server_info),
    {
        let key: String = server_info.id.clone();
        let _ = self.servers.insert(key, server_info);
    }

    /// Drops a server and the assignments of players to it; says whether it was known.
    pub fn unregister_server(&mut self, server_id: &str) -> (result: bool)
        requires
            old(self).wf(),
        ensures
            final(self).wf(),
            *final(self) == (ServerManager {
                servers: final(self).servers,
                player_servers: final(self).player_servers,
                ..*old(self)
            }),
            result == old(self).servers@.dom().contains(server_id@),
            final(self).servers@ == old(self).servers@.remove(server_id@),
            final(self).player_servers@ == kept_entries(
                old(self).player_servers@,
                |k: Seq<char>, server: String| server@ != server_id@,
            ),
    {
        let known = self.servers.remove(server_id).is_some();
        let ghost keeps = |k: Seq<char>, server: String| server@ != server_id@;
        let keep = |_player: &String, server: &String| -> (kept: bool)
            ensures
                kept == (server@ != server_id@),
        {
            !str_eq(server.as_str(), server_id)
        };
        self.player_servers.retain(keep, Ghost(keeps));
        known
    }

    /// Notes where a player is and which server it is on.
    pub fn update_player_position(
        &mut self,
        player_id: String,
        position: Vector3,
        current_server: String,
    )
        requires
            old(self).wf(),
        ensures
            final(self).wf(),
            *final(self) == (ServerManager {
                player_positions: final(self).player_positions,
                player_servers: final(self).player_servers,
                ..*old(self)
            }),
            final(self).player_positions@ == old(self).player_positions@.insert(
                player_id@,
                position,
            ),
            final(self).player_servers@ == old(self).player_servers@.insert(
                player_id@,
                current_server,
            ),
    {
        let _ = self.player_positions.insert(player_id.clone(), position);
        let _ = self.player_servers.insert(player_id, current_server);
    }

    /// The first server whose part of the world contains `position`.
    pub fn find_server_for_position(&self, position: &Vector3) -> (result: Option<String>)
        requires
            self.wf(),
        ensures
            opt_text(result) == owner(
                self.servers.keys(),
                self.servers.values(),
                *position,
            ),
    {
        let test = |server: &GameServerInfo| -> (yes: bool)
            ensures
                yes == server.bounds.spec_contains(*position),
        {
            server.bounds.contains(position)
        };
        match self.servers.first_where(test, Ghost(owns(*position))) {
            Some(i) => Some(self.servers.key_at(i).clone()),
            None => None,
        }
    }

    fn measure<F: Fn(ServerBounds, Vector3) -> Scalar>(&self, position: &Vector3, distance: &F) -> (result:
        Vec<Scalar>)
        requires
            self.wf(),
            forall|b: ServerBounds, p: Vector3| #[trigger] distance.requires((b, p)),
        ensures
            measured(self.servers.values(), *position, *distance, result@),
    {
        let mut out: Vec<Scalar> = Vec::new();
        let mut i: usize = 0;
        while i < self.servers.len()
            invariant
                self.wf(),
                i <= self.servers.values().len(),
                out@.len() == i,
                forall|b: ServerBounds, p: Vector3| #[trigger] distance.requires((b, p)),
                forall|j: int|
                    0 <= j < i ==> distance.ensures(
                        (self.servers.values()[j].bounds, *position),
                        #[trigger] out@[j],
                    ),
            decreases self.servers.values().len() - i,
        {
            let bounds = self.servers.value_at(i).bounds;
            out.push(distance(bounds, *position));
            i += 1;
        }
        out
    }

    /// The server that a player should be handed over to: the nearest of the other
    /// servers within the transfer distance, the first of them where several are
    /// equally near. `distance` measures how far a server's part of the world is from
    /// a position.
    pub fn should_transfer_player<F: Fn(ServerBounds, Vector3) -> Scalar>(
        &self,
        player_position: &Vector3,
        current_server: &str,
        distance: F,
    ) -> (result: Option<String>)
        requires
            self.wf(),
            forall|b: ServerBounds, p: Vector3| #[trigger] distance.requires((b, p)),
        ensures
            exists|distances: Seq<Scalar>|
                {
                    &&& #[trigger] measured(
                        self.servers.values(),
                        *player_position,
                        distance,
                        distances,
                    )
                    &&& match (
                        result,
                        nearest(
                            distances,
                            position_of(self.servers.keys(), current_server@),
                            self.transfer_distance,
                        ),
                    ) {
                        (Some(id), Some(i)) => id@ == self.servers.keys()[i],
                        (None, None) => true,
                        _ => false,
                    }
                },
    {
        proof {
            self.servers.lemma_wf();
        }
        let distances = self.measure(player_position, &distance);
        let current = self.servers.find(current_server);
        match nearest_index(&distances, current, self.transfer_distance) {
            Some(i) => Some(self.servers.key_at(i).clone()),
            None => None,
        }
    }

    /// Whether a server is known and within the preload distance of a player.
    pub fn should_preload_server<F: Fn(ServerBounds, Vector3) -> Scalar>(
        &self,
        player_position: &Vector3,
        server_id: &str,
        distance: F,
    ) -> (result: bool)
        requires
            self.wf(),
            forall|b: ServerBounds, p: Vector3| #[trigger] distance.requires((b, p)),
        ensures
            !self.servers@.dom().contains(server_id@) ==> !result,
            self.servers@.dom().contains(server_id@) ==> exists|d: Scalar|
                #[trigger] distance.ensures(
                    (self.servers@[server_id@].bounds, *player_position),
                    d,
                ) && result == d.spec_le(self.preload_distance),
    {
        match self.servers.get(server_id) {
            Some(server) => {
                let d = distance(server.bounds, *player_position);
                d.le(self.preload_distance)
            },
            None => false,
        }
    }

    /// The servers within `radius` of a position.
    pub fn get_nearby_servers<F: Fn(ServerBounds, Vector3) -> Scalar>(
        &self,
        position: &Vector3,
        radius: Scalar,
        distance: F,
    ) -> (result: Vec<String>)
        requires
            self.wf(),
            forall|b: ServerBounds, p: Vector3| #[trigger] distance.requires((b, p)),
        ensures
            exists|distances: Seq<Scalar>|
                {
                    &&& #[trigger] measured(self.servers.values(), *position, distance, distances)
                    &&& texts(result@) == keys_within(self.servers.keys(), distances, radius)
                },
    {
        proof {
            self.servers.lemma_wf();
        }
        let distances = self.measure(position, &distance);
        let ghost keys = self.servers.keys();
        let mut out: Vec<String> = Vec::new();
        let mut i: usize = 0;
        assert(keys.take(0) =~= Seq::<Seq<char>>::empty());
        assert(texts(out@) =~= Seq::<Seq<char>>::empty());
        while i < self.servers.len()
            invariant
                self.wf(),
                keys == self.servers.keys(),
                i <= keys.len(),
                distances@.len() == keys.len(),
                texts(out@) == keys_within(keys.take(i as int), distances@.take(i as int), radius),
            decreases keys.len() - i,
        {
            proof {
                assert(keys.take(i + 1).drop_last() =~= keys.take(i as int));
                assert(distances@.take(i + 1).drop_last() =~= distances@.take(i as int));
            }
            let ghost before = out@;
            if distances[i].le(radius) {
                out.push(self.servers.key_at(i).clone());
                assert(texts(out@) =~= texts(before).push(keys[i as int]));
            }
            i += 1;
        }
        proof {
            assert(keys.take(i as int) =~= keys);
            assert(distances@.take(i as int) =~= distances@);
        }
        out
    }

    /// What is known of a server.
    pub fn get_server_info(&self, server_id: &str) -> (result: Option<GameServerInfo>)
        requires
            self.wf(),
        ensures
            result == (if self.servers@.dom().contains(server_id@) {
                Some(self.servers@[server_id@])
            } else {
                None
            }),
    {
        match self.servers.get(server_id) {
            Some(server) => Some(server.clone()),
            None => None,
        }
    }

    /// All servers.
    pub fn get_all_servers(&self) -> (result: Vec<GameServerInfo>)
        requires
            self.wf(),
        ensures
            result@ == self.servers.values(),
    {
        let mut out: Vec<GameServerInfo> = Vec::new();
        let mut i: usize = 0;
        while i < self.servers.len()
            invariant
                self.wf(),
                i <= self.servers.values().len(),
                out@ == self.servers.values().take(i as int),
            decreases self.servers.values().len() - i,
        {
            out.push(self.servers.value_at(i).clone());
            i += 1;
            assert(out@ =~= self.servers.values().take(i as int));
        }
        assert(out@ =~= self.servers.values());
        out
    }

    /// The servers that a player passes from one position to another: those that own
    /// the two, where they are different.
    pub fn calculate_transfer_path(&self, from: &Vector3, to: &Vector3) -> (result: Vec<String>)
        requires
            self.wf(),
        ensures
            texts(result@) == path_between(
                owner(self.servers.keys(), self.servers.values(), *from),
                owner(self.servers.keys(), self.servers.values(), *to),
            ),
    {
        let mut path: Vec<String> = Vec::new();
        let from_server = self.find_server_for_position(from);
        let to_server = self.find_server_for_position(to);
        match (from_server, to_server) {
            (Some(a), Some(b)) => {
                if !str_eq(a.as_str(), b.as_str()) {
                    path.push(a);
                    path.push(b);
                    assert(texts(path@) =~= seq![a@, b@]);
                } else {
                    assert(texts(path@) =~= Seq::<Seq<char>>::empty());
                }
            },
            _ => {
                assert(texts(path@) =~= Seq::<Seq<char>>::empty());
            },
        }
        path
    }
}

/// The owner of a position is a server whose part of the world contains it, and a
/// position has an owner as soon as there is such a server.
pub proof fn lemma_owner_contains_position(
    keys: Seq<Seq<char>>,
    servers: Seq<GameServerInfo>,
    position: Vector3,
)
    requires
        keys.len() == servers.len(),
    ensures
        match owner(keys, servers, position) {
            Some(key) => exists|i: int|
                0 <= i < keys.len() && keys[i] == key && (
                #[trigger] servers[i]).bounds.spec_contains(position),
            None => forall|i: int|
                0 <= i < servers.len() ==> !(#[trigger] servers[i]).bounds.spec_contains(position),
        },
{
    lemma_first_index(servers, owns(position));
    match first_index(servers, owns(position)) {
        Some(i) => {
            assert(servers[i].bounds.spec_contains(position));
        },
        None => {
            assert forall|i: int| 0 <= i < servers.len() implies !(
            #[trigger] servers[i]).bounds.spec_contains(position) by {
                assert(!owns(position)(servers[i]));
            }
        },
    }
}

/// A player is never handed over to the server that it is on, only to one within the
/// transfer distance, and to none that is farther away than another such server.
pub proof fn lemma_transfer_target_is_nearest(
    keys: Seq<Seq<char>>,
    distances: Seq<Scalar>,
    current: Seq<char>,
    limit: Scalar,
)
    requires
        keys.no_duplicates(),
        keys.len() == distances.len(),
    ensures
        match nearest(distances, position_of(keys, current), limit) {
            Some(b) => {
                &&& 0 <= b < keys.len()
                &&& keys[b] != current
                &&& distances[b].spec_le(limit)
                &&& forall|i: int|
                    0 <= i < keys.len() && #[trigger] keys[i] != current && distances[i].spec_le(limit)
                        ==> distances[b].spec_le(distances[i])
            },
            None => forall|i: int|
                0 <= i < keys.len() && #[trigger] keys[i] != current ==> !distances[i].spec_le(limit),
        },
{
    lemma_nearest(distances, position_of(keys, current), limit);
    assert forall|i: int| 0 <= i < keys.len() && #[trigger] keys[i] != current && distances[i].spec_le(
        limit,
    ) implies is_near(distances, position_of(keys, current), limit, i) by {}
    match nearest(distances, position_of(keys, current), limit) {
        Some(b) => {
            assert(is_near(distances, position_of(keys, current), limit, b));
            if keys[b] == current {
                assert(keys.contains(current));
            }
        },
        None => {},
    }
}

/// A transfer path has no steps or two different ones, and no steps where it starts and
/// ends on the same server.
pub proof fn lemma_path_has_two_ends(from: Option<Seq<char>>, to: Option<Seq<char>>)
    ensures
        path_between(from, to).len() == 0 || path_between(from, to).len() == 2,
        path_between(from, to).no_duplicates(),
        from == to ==> path_between(from, to).len() == 0,
        path_between(from, to).len() == 2 ==> from == Some(path_between(from, to)[0]) && to == Some(
            path_between(from, to)[1],
        ),
{
}

/// A player handed over from one server to another.
#[derive(Debug)]
pub struct ServerTransition {
    pub player_id: String,
    pub from_server: String,
    pub to_server: String,
    pub initiated_at: u64,
    pub completed_at: Option<u64>,
    pub state_transferred: bool,
}

impl ServerTransition {
    /// A transition that was initiated at `now`, in seconds since the Unix epoch.
    pub fn new(player_id: String, from_server: String, to_server: String, now: u64) -> (result: Self)
        ensures
            result == (ServerTransition {
                player_id,
                from_server,
                to_server,
                initiated_at: now,
                completed_at: None,
                state_transferred: false,
            }),
    {
        ServerTransition {
            player_id,
            from_server,
            to_server,
            initiated_at: now,
            completed_at: None,
            state_transferred: false,
        }
    }

    /// Notes that the transition was completed at `now`.
    pub fn complete(&mut self, now: u64)
        ensures
            *final(self) == (ServerTransition { completed_at: Some(now), ..*old(self) }),
    {
        self.completed_at = Some(now);
    }

    /// Whether the transition is completed.
    pub fn is_completed(&self) -> (result: bool)
        ensures
            result == (self.completed_at is Some),
    {
        self.completed_at.is_some()
    }
}

/// The servers around a position are those whose part of the world is within the radius, in
/// their order.
pub proof fn lemma_near_servers_are_within_the_radius(
    keys: Seq<Seq<char>>,
    distances: Seq<Scalar>,
    radius: Scalar,
    key: Seq<char>,
)
    requires
        keys.len() == distances.len(),
    ensures
        keys_within(keys, distances, radius).len() <= keys.len(),
        keys_within(keys, distances, radius).contains(key) <==> exists|i: int|
            0 <= i < keys.len() && #[trigger] keys[i] == key && (
            distances[i] matches Scalar::Number(d) && radius matches Scalar::Number(r) && d <= r),
        (forall|i: int| 0 <= i < keys.len() ==> (#[trigger] distances[i]).spec_le(radius))
            ==> keys_within(keys, distances, radius) == keys,
    decreases keys.len(),
{
    if keys.len() > 0 {
        let front = keys.drop_last();
        let rest = distances.drop_last();
        let last = keys.len() - 1;
        lemma_near_servers_are_within_the_radius(front, rest, radius, key);
        let near = keys_within(front, rest, radius);
        crate::table::lemma_push_contains(near, keys.last());
        if exists|i: int|
            0 <= i < keys.len() && #[trigger] keys[i] == key && (
            distances[i] matches Scalar::Number(d) && radius matches Scalar::Number(r) && d <= r) {
            let i = choose|i: int|
                0 <= i < keys.len() && #[trigger] keys[i] == key && (
                distances[i] matches Scalar::Number(d) && radius matches Scalar::Number(r) && d
                    <= r);
            if i < last {
                assert(front[i] == key && rest[i] == distances[i]);
            }
        }
        if near.contains(key) {
            let i = choose|i: int|
                0 <= i < front.len() && #[trigger] front[i] == key && (
                rest[i] matches Scalar::Number(d) && radius matches Scalar::Number(r) && d <= r);
            assert(keys[i] == key && rest[i] == distances[i]);
        }
        assert(keys[last] == keys.last() && distances[last] == distances.last());
        if forall|i: int| 0 <= i < keys.len() ==> (#[trigger] distances[i]).spec_le(radius) {
            assert forall|i: int| 0 <= i < front.len() implies (#[trigger] rest[i]).spec_le(
                radius,
            ) by {
                assert(distances[i].spec_le(radius));
            }
            assert(keys_within(keys, distances, radius) =~= keys);
        }
    } else {
        assert(keys_within(keys, distances, radius) =~= keys);
    }
}

/// Of the servers whose part of the world holds a position, the first owns it.
pub proof fn lemma_first_server_owns(
    keys: Seq<Seq<char>>,
    servers: Seq<GameServerInfo>,
    position: Vector3,
    i: int,
)
    requires
        0 <= i < servers.len(),
        servers[i].bounds.spec_contains(position),
        forall|j: int| 0 <= j < i ==> !(#[trigger] servers[j]).bounds.spec_contains(position),
    ensures
        owner(keys, servers, position) == Some(keys[i]),
{
    let wanted = owns(position);
    assert(crate::search::is_first(servers, wanted, i));
    crate::search::lemma_first_found(servers, wanted, i);
}

/// There is a way between two servers exactly where both ends have one and they differ.
pub proof fn lemma_path_joins_different_servers(from: Option<Seq<char>>, to: Option<Seq<char>>)
    ensures
        path_between(from, to).len() > 0 <==> from is Some && to is Some && from != to,
        from is Some && to is Some && from != to ==> path_between(from, to) == seq![
            from->0,
            to->0,
        ],
{
}

/// What is passed over in a search is the entry with the key itself.
pub proof fn lemma_position_is_that_of_the_key(keys: Seq<Seq<char>>, key: Seq<char>)
    ensures
        position_of(keys, key) is None <==> !keys.contains(key),
        position_of(keys, key) matches Some(i) ==> 0 <= i < keys.len() && keys[i] == key,
{
}

/// Each distance is that of the position from the server beside it.
pub proof fn lemma_each_server_is_measured<
    F: Fn(ServerBounds, Vector3) -> Scalar,
>(
    servers: Seq<GameServerInfo>,
    position: Vector3,
    distance: F,
    distances: Seq<Scalar>,
    i: int,
)
    requires
        measured(servers, position, distance, distances),
        0 <= i < servers.len(),
    ensures
        distances.len() == servers.len(),
        distance.ensures((servers[i].bounds, position), distances[i]),
{
}

} // verus!
