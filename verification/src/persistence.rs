//! What is kept of players between sessions.
use vstd::prelude::*;

use crate::error::{ProxyError, Result};
use crate::scalar::Scalar;
use crate::server::moved;
use crate::spatial::{MovementData, WorldCoordinate};
use crate::table::{referents, texts, Table};
use crate::text::{join, join3, str_eq};

verus! {

/// Player data for persistence. Times are in milliseconds since the Unix epoch, and
/// session values are kept as JSON text.
pub struct PlayerData {
    /// Player unique identifier
    pub player_id: String,
    /// Last known world position
    pub last_position: WorldCoordinate,
    /// Movement tracking data
    pub movement_data: MovementData,
    /// Last connected server ID
    pub last_server: String,
    /// Last update timestamp
    pub last_updated: u64,
    /// Player session data
    pub session_data: Table<String>,
}

impl PlayerData {
    /// The session data are in order.
    pub open spec fn wf(&self) -> bool {
        self.session_data.wf()
    }

    /// A player that stands at `initial_position` since `now`, without session data.
    pub fn new(
        player_id: String,
        initial_position: WorldCoordinate,
        server_id: String,
        now: u64,
    ) -> (result: Self)
        ensures
            is_new_player(result, player_id, initial_position, server_id, now),
    {
        PlayerData {
            player_id,
            last_position: initial_position,
            movement_data: MovementData::new(initial_position, now),
            last_server: server_id,
            last_updated: now,
            session_data: Table::new(),
        }
    }

    /// Update player position and movement data
    pub fn update_position(
        &mut self,
        new_position: WorldCoordinate,
        velocity: WorldCoordinate,
        now: u64,
    )
        requires
            old(self).wf(),
            old(self).movement_data.timestamp <= now,
        ensures
            final(self).wf(),
            *final(self) == (PlayerData {
                last_position: new_position,
                movement_data: final(self).movement_data,
                last_updated: now,
                ..*old(self)
            }),
            moved(
                old(self).movement_data,
                new_position,
                velocity,
                now,
                final(self).movement_data,
            ),
    {
        self.last_position = new_position;
        self.movement_data.update_position(new_position, now, velocity);
        self.last_updated = now;
    }

    /// Update last connected server
    pub fn update_server(&mut self, server_id: String, now: u64)
        ensures
            *final(self) == (PlayerData {
                last_server: server_id,
                last_updated: now,
                ..*old(self)
            }),
    {
        self.last_server = server_id;
        self.last_updated = now;
    }

    /// Set session data value
    pub fn set_session_data(&mut self, key: String, value: String, now: u64)
        requires
            old(self).wf(),
        ensures
            final(self).wf(),
            *final(self) == (PlayerData {
                session_data: final(self).session_data,
                last_updated: now,
                ..*old(self)
            }),
            final(self).session_data@ == old(self).session_data@.insert(key@, value),
    {
        let _ = self.session_data.insert(key, value);
        self.last_updated = now;
    }

    /// Get session data value
    pub fn get_session_data(&self, key: &str) -> (result: Option<&String>)
        requires
            self.wf(),
        ensures
            match result {
                Some(value) => self.session_data@.dom().contains(key@) && *value
                    == self.session_data@[key@],
                None => !self.session_data@.dom().contains(key@),
            },
    {
        self.session_data.get(key)
    }
}

/// Whether `player` is one that was just made.
pub open spec fn is_new_player(
    player: PlayerData,
    player_id: String,
    position: WorldCoordinate,
    server_id: String,
    now: u64,
) -> bool {
    &&& player.wf()
    &&& player.player_id == player_id
    &&& player.last_position == position
    &&& player.movement_data.position == position
    &&& player.movement_data.previous_position == position
    &&& player.movement_data.velocity == WorldCoordinate::spec_origin()
    &&& player.movement_data.timestamp == now
    &&& player.movement_data.position_history@ == seq![(position, now)]
    &&& player.last_server == server_id
    &&& player.last_updated == now
    &&& player.session_data@ == Map::<Seq<char>, String>::empty()
}

/// Database metadata
#[derive(Debug, PartialEq, Eq)]
pub struct DatabaseMetadata {
    /// Schema version
    pub version: String,
    /// Last save timestamp
    pub last_saved: u64,
    /// Total player count
    pub player_count: usize,
    /// Database creation timestamp
    pub created: u64,
}

/// Player database for JSON persistence
pub struct PlayerDatabase {
    /// All player records
    pub players: Table<PlayerData>,
    /// Database metadata
    pub metadata: DatabaseMetadata,
}

impl PlayerDatabase {
    /// Every player's record is in order.
    pub open spec fn wf(&self) -> bool {
        &&& self.players.wf()
        &&& forall|k: Seq<char>| #[trigger]
            self.players@.dom().contains(k) ==> self.players@[k].wf()
    }

    /// Whether the database is empty and was created at `now`.
    pub open spec fn is_new(&self, now: u64) -> bool {
        &&& self.wf()
        &&& self.players@ == Map::<Seq<char>, PlayerData>::empty()
        &&& self.metadata.version@ == "1.0.0"@
        &&& self.metadata.last_saved == now
        &&& self.metadata.player_count == 0
        &&& self.metadata.created == now
    }

    /// An empty database, created at `now`.
    pub fn new(now: u64) -> (result: Self)
        ensures
            result.is_new(now),
    {
        PlayerDatabase {
            players: Table::new(),
            metadata: DatabaseMetadata {
                version: "1.0.0".to_owned(),
                last_saved: now,
                player_count: 0,
                created: now,
            },
        }
    }

    /// A database read back from records, each with the key it is filed under: of two
    /// with the same key the later one counts.
    pub fn from_records(records: Vec<(String, PlayerData)>, metadata: DatabaseMetadata) -> (result:
        Self)
        requires
            forall|i: int| 0 <= i < records@.len() ==> (#[trigger] records@[i]).1.wf(),
        ensures
            result.wf(),
            result.metadata == metadata,
            result.players@ == filed_players(keyed(records@)),
    {
        let mut players: Table<PlayerData> = Table::new();
        assert(keyed(records@).take(0) =~= Seq::<(Seq<char>, PlayerData)>::empty());
        for record in iter: records
            invariant
                iter.seq() == records@,
                forall|i: int| 0 <= i < records@.len() ==> (#[trigger] records@[i]).1.wf(),
                players.wf(),
                players@ == filed_players(keyed(records@).take(iter.index() as int)),
                forall|k: Seq<char>| #[trigger]
                    players@.dom().contains(k) ==> players@[k].wf(),
        {
            proof {
                let i = iter.index() as int;
                let all = keyed(records@);
                assert(all.take(i + 1).drop_last() =~= all.take(i));
                assert(all.take(i + 1).last() == (record.0@, record.1));
                assert(records@[i].1.wf());
            }
            let (key, player) = record;
            let _ = players.insert(key, player);
        }
        assert(keyed(records@).take(records@.len() as int) =~= keyed(records@));
        PlayerDatabase { players, metadata }
    }

    /// Update metadata before saving
    pub fn update_metadata(&mut self, now: u64)
        requires
            old(self).wf(),
        ensures
            final(self).wf(),
            final(self).players == old(self).players,
            final(self).metadata == (DatabaseMetadata {
                last_saved: now,
                player_count: old(self).players@.dom().len() as usize,
                ..old(self).metadata
            }),
    {
        self.metadata.last_saved = now;
        self.metadata.player_count = self.players.len();
    }
}

/// The records with the views of their keys.
pub open spec fn keyed(records: Seq<(String, PlayerData)>) -> Seq<(Seq<char>, PlayerData)> {
    records.map_values(|record: (String, PlayerData)| (record.0@, record.1))
}

/// The table of players that results from filing them one after the other.
pub open spec fn filed_players(records: Seq<(Seq<char>, PlayerData)>) -> Map<Seq<char>, PlayerData>
    decreases records.len(),
{
    if records.len() == 0 {
        Map::empty()
    } else {
        filed_players(records.drop_last()).insert(records.last().0, records.last().1)
    }
}

/// The records that a table of players holds, in walking order.
pub open spec fn records_of(players: Table<PlayerData>) -> Seq<(Seq<char>, PlayerData)> {
    Seq::new(players.keys().len(), |i: int| (players.keys()[i], players.values()[i]))
}

/// What became of reading the file with the players' data. The texts are those of the
/// operating system and of the parser.
pub enum LoadOutcome {
    /// There is no such file.
    Missing,
    /// The file could not be opened.
    NotOpened(String),
    /// The file does not hold a database.
    NotParsed(String),
    /// The database in the file.
    Read(PlayerDatabase),
}

/// What became of writing the file with the players' data.
#[derive(Debug)]
pub enum SaveOutcome {
    /// The file could not be created.
    NotCreated(String),
    /// The database could not be written.
    NotWritten(String),
    /// The database is in the file.
    Written,
}

/// JSON-based player data persistence manager
pub struct PlayerPersistence {
    /// File path for player data
    pub file_path: String,
    /// In-memory cache of player data
    pub cache: PlayerDatabase,
    /// Auto-save interval in seconds
    pub auto_save_interval: u64,
    /// Last save timestamp, in seconds
    pub last_save: u64,
}

/// Whether `error` is a configuration error with the given text.
pub open spec fn is_config_error(error: ProxyError, text: Seq<char>) -> bool {
    error matches ProxyError::Config(detail) && detail@ == text
}

/// Whether `error` says that the player is not known.
pub open spec fn no_player(error: ProxyError, id: Seq<char>) -> bool {
    error matches ProxyError::Client(text) && text@ == "Player "@ + id + " not found"@
}

/// Whether `distances` are what `distance` measures from each player to `center`.
pub open spec fn measured_players<F: Fn(WorldCoordinate, WorldCoordinate) -> Scalar>(
    players: Seq<PlayerData>,
    center: WorldCoordinate,
    distance: F,
    distances: Seq<Scalar>,
) -> bool {
    &&& distances.len() == players.len()
    &&& forall|i: int|
        0 <= i < players.len() ==> distance.ensures(
            (players[i].last_position, center),
            #[trigger] distances[i],
        )
}

/// The players whose distance is within `radius`, in order.
pub open spec fn players_within(
    players: Seq<PlayerData>,
    distances: Seq<Scalar>,
    radius: Scalar,
) -> Seq<PlayerData>
    decreases players.len(),
{
    if players.len() == 0 {
        Seq::empty()
    } else {
        let front = players_within(players.drop_last(), distances.drop_last(), radius);
        if distances.last().spec_le(radius) {
            front.push(players.last())
        } else {
            front
        }
    }
}

impl PlayerPersistence {
    /// The cached database is in order.
    pub open spec fn wf(&self) -> bool {
        self.cache.wf()
    }

    /// Create a new player persistence manager, with an empty database
    pub fn new(file_path: &str, auto_save_interval: u64, now: u64) -> (result: Self)
        ensures
            result.wf(),
            result.file_path@ == file_path@,
            result.cache.is_new(now),
            result.auto_save_interval == auto_save_interval,
            result.last_save == 0,
    {
        PlayerPersistence {
            file_path: file_path.to_owned(),
            cache: PlayerDatabase::new(now),
            auto_save_interval,
            last_save: 0,
        }
    }

    /// Load player data from JSON file: what was read takes the place of the cache. It is
    /// no error where there is no file yet
    pub fn load(&mut self, outcome: LoadOutcome) -> (result: Result<()>)
        requires
            old(self).wf(),
            outcome matches LoadOutcome::Read(database) ==> database.wf(),
        ensures
            final(self).wf(),
            *final(self) == (PlayerPersistence { cache: final(self).cache, ..*old(self) }),
            match outcome {
                LoadOutcome::Missing => result is Ok && final(self).cache == old(self).cache,
                LoadOutcome::NotOpened(cause) => result matches Err(error) && is_config_error(
                    error,
                    "Failed to open player data file: "@ + cause@,
                ) && final(self).cache == old(self).cache,
                LoadOutcome::NotParsed(cause) => result matches Err(error) && is_config_error(
                    error,
                    "Failed to parse player data: "@ + cause@,
                ) && final(self).cache == old(self).cache,
                LoadOutcome::Read(database) => result is Ok && final(self).cache == database,
            },
    {
        match outcome {
            LoadOutcome::Missing => Ok(()),
            LoadOutcome::NotOpened(cause) => Err(
                ProxyError::Config(join("Failed to open player data file: ", cause.as_str())),
            ),
            LoadOutcome::NotParsed(cause) => Err(
                ProxyError::Config(join("Failed to parse player data: ", cause.as_str())),
            ),
            LoadOutcome::Read(database) => {
                self.cache = database;
                Ok(())
            },
        }
    }

    /// Gets the database ready to be written at `now`, in milliseconds.
    pub fn prepare_save(&mut self, now: u64)
        requires
            old(self).wf(),
        ensures
            final(self).wf(),
            *final(self) == (PlayerPersistence { cache: final(self).cache, ..*old(self) }),
            final(self).cache.players == old(self).cache.players,
            final(self).cache.metadata == (DatabaseMetadata {
                last_saved: now,
                player_count: old(self).cache.players@.dom().len() as usize,
                ..old(self).cache.metadata
            }),
    {
        self.cache.update_metadata(now);
    }

    /// Notes what became of writing the database at `now`, in seconds.
    pub fn finish_save(&mut self, outcome: SaveOutcome, now: u64) -> (result: Result<()>)
        ensures
            *final(self) == (PlayerPersistence { last_save: final(self).last_save, ..*old(self) }),
            match outcome {
                SaveOutcome::NotCreated(cause) => result matches Err(error) && is_config_error(
                    error,
                    "Failed to create player data file: "@ + cause@,
                ) && final(self).last_save == old(self).last_save,
                SaveOutcome::NotWritten(cause) => result matches Err(error) && is_config_error(
                    error,
                    "Failed to write player data: "@ + cause@,
                ) && final(self).last_save == old(self).last_save,
                SaveOutcome::Written => result is Ok && final(self).last_save == now,
            },
    {
        match outcome {
            SaveOutcome::NotCreated(cause) => Err(
                ProxyError::Config(join("Failed to create player data file: ", cause.as_str())),
            ),
            SaveOutcome::NotWritten(cause) => Err(
                ProxyError::Config(join("Failed to write player data: ", cause.as_str())),
            ),
            SaveOutcome::Written => {
                self.last_save = now;
                Ok(())
            },
        }
    }

    /// Get player data by ID
    pub fn get_player(&self, player_id: &str) -> (result: Option<&PlayerData>)
        requires
            self.wf(),
        ensures
            match result {
                Some(player) => self.cache.players@.dom().contains(player_id@) && *player
                    == self.cache.players@[player_id@],
                None => !self.cache.players@.dom().contains(player_id@),
            },
    {
        self.cache.players.get(player_id)
    }

    /// Update or create player data
    pub fn update_player(&mut self, player_data: PlayerData)
        requires
            old(self).wf(),
            player_data.wf(),
        ensures
            final(self).wf(),
            *final(self) == (PlayerPersistence { cache: final(self).cache, ..*old(self) }),
            final(self).cache.metadata == old(self).cache.metadata,
            final(self).cache.players@ == old(self).cache.players@.insert(
                player_data.player_id@,
                player_data,
            ),
    {
        let key: String = player_data.player_id.clone();
        let _ = self.cache.players.insert(key, player_data);
    }

    /// Update player position
    pub fn update_player_position(
        &mut self,
        player_id: &str,
        position: WorldCoordinate,
        velocity: WorldCoordinate,
        now: u64,
    ) -> (result: Result<()>)
        requires
            old(self).wf(),
            old(self).cache.players@.dom().contains(player_id@) ==> old(
                self,
            ).cache.players@[player_id@].movement_data.timestamp <= now,
        ensures
            final(self).wf(),
            *final(self) == (PlayerPersistence { cache: final(self).cache, ..*old(self) }),
            final(self).cache.metadata == old(self).cache.metadata,
            match result {
                Ok(_) => {
                    let before = old(self).cache.players@[player_id@];
                    let after = final(self).cache.players@[player_id@];
                    &&& old(self).cache.players@.dom().contains(player_id@)
                    &&& final(self).cache.players@ == old(self).cache.players@.insert(
                        player_id@,
                        after,
                    )
                    &&& after == (PlayerData {
                        last_position: position,
                        movement_data: after.movement_data,
                        last_updated: now,
                        ..before
                    })
                    &&& moved(before.movement_data, position, velocity, now, after.movement_data)
                },
                Err(error) => {
                    &&& !old(self).cache.players@.dom().contains(player_id@)
                    &&& no_player(error, player_id@)
                    &&& final(self).cache.players@ == old(self).cache.players@
                },
            },
    {
        match self.cache.players.find(player_id) {
            Some(i) => {
                let player = self.cache.players.value_at_mut(i);
                player.update_position(position, velocity, now);
                Ok(())
            },
            None => Err(ProxyError::Client(join3("Player ", player_id, " not found"))),
        }
    }

    /// Update player server assignment
    pub fn update_player_server(&mut self, player_id: &str, server_id: &str, now: u64) -> (result:
        Result<()>)
        requires
            old(self).wf(),
        ensures
            final(self).wf(),
            *final(self) == (PlayerPersistence { cache: final(self).cache, ..*old(self) }),
            final(self).cache.metadata == old(self).cache.metadata,
            match result {
                Ok(_) => {
                    let before = old(self).cache.players@[player_id@];
                    let after = final(self).cache.players@[player_id@];
                    &&& old(self).cache.players@.dom().contains(player_id@)
                    &&& final(self).cache.players@ == old(self).cache.players@.insert(
                        player_id@,
                        after,
                    )
                    &&& after == (PlayerData {
                        last_server: after.last_server,
                        last_updated: now,
                        ..before
                    })
                    &&& after.last_server@ == server_id@
                },
                Err(error) => {
                    &&& !old(self).cache.players@.dom().contains(player_id@)
                    &&& no_player(error, player_id@)
                    &&& final(self).cache.players@ == old(self).cache.players@
                },
            },
    {
        match self.cache.players.find(player_id) {
            Some(i) => {
                let player = self.cache.players.value_at_mut(i);
                player.update_server(server_id.to_owned(), now);
                Ok(())
            },
            None => Err(ProxyError::Client(join3("Player ", player_id, " not found"))),
        }
    }

    /// Get all players in a specific server region
    pub fn get_players_in_region(&self, server_id: &str) -> (result: Vec<&PlayerData>)
        requires
            self.wf(),
        ensures
            referents(result@) == self.cache.players.values().filter(
                |p: PlayerData| p.last_server@ == server_id@,
            ),
    {
        let test = |player: &PlayerData| -> (yes: bool)
            ensures
                yes == (player.last_server@ == server_id@),
        {
            str_eq(player.last_server.as_str(), server_id)
        };
        let ghost wanted = |p: PlayerData| p.last_server@ == server_id@;
        self.cache.players.values_where(test, Ghost(wanted))
    }

    /// Get players near a specific coordinate
    pub fn get_players_near<F: Fn(WorldCoordinate, WorldCoordinate) -> Scalar>(
        &self,
        center: WorldCoordinate,
        radius: Scalar,
        distance: F,
    ) -> (result: Vec<&PlayerData>)
        requires
            self.wf(),
            forall|a: WorldCoordinate, b: WorldCoordinate| #[trigger] distance.requires((a, b)),
        ensures
            exists|distances: Seq<Scalar>|
                {
                    &&& #[trigger] measured_players(
                        self.cache.players.values(),
                        center,
                        distance,
                        distances,
                    )
                    &&& referents(result@) == players_within(
                        self.cache.players.values(),
                        distances,
                        radius,
                    )
                },
    {
        let mut out: Vec<&PlayerData> = Vec::new();
        let ghost players = self.cache.players.values();
        let ghost mut distances: Seq<Scalar> = Seq::empty();
        assert(players.take(0) =~= Seq::<PlayerData>::empty());
        assert(referents(out@) =~= Seq::<PlayerData>::empty());
        let mut i: usize = 0;
        while i < self.cache.players.len()
            invariant
                self.wf(),
                players == self.cache.players.values(),
                i <= players.len(),
                forall|a: WorldCoordinate, b: WorldCoordinate| #[trigger] distance.requires((a, b)),
                distances.len() == i,
                forall|j: int|
                    0 <= j < i ==> distance.ensures(
                        (players[j].last_position, center),
                        #[trigger] distances[j],
                    ),
                referents(out@) == players_within(players.take(i as int), distances, radius),
            decreases players.len() - i,
        {
            let player = self.cache.players.value_at(i);
            let d = distance(player.last_position, center);
            proof {
                assert(players.take(i + 1).drop_last() =~= players.take(i as int));
                assert(distances.push(d).drop_last() =~= distances);
                distances = distances.push(d);
            }
            let ghost before = out@;
            if d.le(radius) {
                out.push(player);
                assert(referents(out@) =~= referents(before).push(*player));
            }
            i += 1;
        }
        assert(players.take(i as int) =~= players);
        assert(measured_players(players, center, distance, distances));
        out
    }

    /// Remove player data
    pub fn remove_player(&mut self, player_id: &str) -> (result: Option<PlayerData>)
        requires
            old(self).wf(),
        ensures
            final(self).wf(),
            *final(self) == (PlayerPersistence { cache: final(self).cache, ..*old(self) }),
            final(self).cache.metadata == old(self).cache.metadata,
            final(self).cache.players@ == old(self).cache.players@.remove(player_id@),
            result == (if old(self).cache.players@.dom().contains(player_id@) {
                Some(old(self).cache.players@[player_id@])
            } else {
                None
            }),
    {
        self.cache.players.remove(player_id)
    }

    /// Get all player IDs
    pub fn get_all_player_ids(&self) -> (result: Vec<String>)
        requires
            self.wf(),
        ensures
            texts(result@) == self.cache.players.keys(),
    {
        self.cache.players.key_list()
    }

    /// Get database statistics: the number of players, and when the database was created
    /// and last saved
    pub fn get_stats(&self) -> (result: (usize, u64, u64))
        requires
            self.wf(),
        ensures
            result.0 == self.cache.players@.dom().len(),
            result.1 == self.cache.metadata.created,
            result.2 == self.cache.metadata.last_saved,
    {
        (self.cache.players.len(), self.cache.metadata.created, self.cache.metadata.last_saved)
    }

    /// Check if auto-save is needed at `now`, in seconds
    pub fn should_auto_save(&self, now: u64) -> (result: bool)
        requires
            self.last_save <= now,
        ensures
            result == (now - self.last_save >= self.auto_save_interval),
    {
        now - self.last_save >= self.auto_save_interval
    }
}

/// The records that a table of players holds, filed again, give the same table: what is
/// saved can be loaded.
pub proof fn lemma_saved_players_load(players: Table<PlayerData>)
    requires
        players.wf(),
    ensures
        filed_players(records_of(players)) == players@,
{
    players.lemma_wf();
    let records = records_of(players);
    let keys = players.keys();
    lemma_filed_by_key(records, keys, records.len() as int);
    assert(records.take(records.len() as int) =~= records);
    assert(keys.take(keys.len() as int) =~= keys);
    assert(filed_players(records) =~= players@);
}

proof fn lemma_filed_by_key(records: Seq<(Seq<char>, PlayerData)>, keys: Seq<Seq<char>>, n: int)
    requires
        0 <= n <= records.len(),
        records.len() == keys.len(),
        keys.no_duplicates(),
        forall|i: int| 0 <= i < records.len() ==> (#[trigger] records[i]).0 == keys[i],
    ensures
        forall|k: Seq<char>| #[trigger]
            filed_players(records.take(n)).dom().contains(k) <==> keys.take(n).contains(k),
        forall|i: int|
            0 <= i < n ==> filed_players(records.take(n))[#[trigger] keys[i]] == records[i].1,
    decreases n,
{
    if n > 0 {
        lemma_filed_by_key(records, keys, n - 1);
        assert(records.take(n).drop_last() =~= records.take(n - 1));
        assert(keys.take(n) =~= keys.take(n - 1).push(keys[n - 1]));
        crate::table::lemma_push_contains(keys.take(n - 1), keys[n - 1]);
        assert(records.take(n).last() == records[n - 1]);
        let before = filed_players(records.take(n - 1));
        assert(filed_players(records.take(n)) == before.insert(keys[n - 1], records[n - 1].1));
        assert forall|k: Seq<char>| #[trigger]
            filed_players(records.take(n)).dom().contains(k) <==> keys.take(n).contains(k) by {
            assert(before.dom().contains(k) <==> keys.take(n - 1).contains(k));
            assert(keys.take(n - 1).push(keys[n - 1]).contains(k) <==> keys.take(n - 1).contains(k)
                || k == keys[n - 1]);
        }
    }
}

/// The players around a point are those whose last position is within the radius, in their
/// order.
pub proof fn lemma_near_players_are_within_the_radius(
    players: Seq<PlayerData>,
    distances: Seq<Scalar>,
    radius: Scalar,
    player: PlayerData,
)
    requires
        players.len() == distances.len(),
    ensures
        players_within(players, distances, radius).len() <= players.len(),
        players_within(players, distances, radius).contains(player) <==> exists|i: int|
            0 <= i < players.len() && #[trigger] players[i] == player && (
            distances[i] matches Scalar::Number(d) && radius matches Scalar::Number(r) && d <= r),
        (forall|i: int| 0 <= i < players.len() ==> (#[trigger] distances[i]).spec_le(radius))
            ==> players_within(players, distances, radius) == players,
    decreases players.len(),
{
    if players.len() > 0 {
        let front = players.drop_last();
        let rest = distances.drop_last();
        let last = players.len() - 1;
        lemma_near_players_are_within_the_radius(front, rest, radius, player);
        let near = players_within(front, rest, radius);
        crate::table::lemma_push_contains(near, players.last());
        if exists|i: int|
            0 <= i < players.len() && #[trigger] players[i] == player && (
            distances[i] matches Scalar::Number(d) && radius matches Scalar::Number(r) && d <= r) {
            let i = choose|i: int|
                0 <= i < players.len() && #[trigger] players[i] == player && (
                distances[i] matches Scalar::Number(d) && radius matches Scalar::Number(r) && d
                    <= r);
            if i < last {
                assert(front[i] == player && rest[i] == distances[i]);
            }
        }
        if near.contains(player) {
            let i = choose|i: int|
                0 <= i < front.len() && #[trigger] front[i] == player && (
                rest[i] matches Scalar::Number(d) && radius matches Scalar::Number(r) && d <= r);
            assert(players[i] == player && rest[i] == distances[i]);
        }
        assert(players[last] == players.last() && distances[last] == distances.last());
        if forall|i: int| 0 <= i < players.len() ==> (#[trigger] distances[i]).spec_le(radius) {
            assert forall|i: int| 0 <= i < front.len() implies (#[trigger] rest[i]).spec_le(
                radius,
            ) by {
                assert(distances[i].spec_le(radius));
            }
            assert(players_within(players, distances, radius) =~= players);
        }
    } else {
        assert(players_within(players, distances, radius) =~= players);
    }
}

/// Records are filed under their keys, each as it was written last.
pub proof fn lemma_records_are_filed_by_key(records: Seq<(Seq<char>, PlayerData)>, key: Seq<char>)
    ensures
        filed_players(records).dom().contains(key) <==> exists|i: int|
            0 <= i < records.len() && (#[trigger] records[i]).0 == key,
        filed_players(records).dom().contains(key) ==> exists|i: int|
            {
                &&& 0 <= i < records.len()
                &&& (#[trigger] records[i]).0 == key
                &&& filed_players(records)[key] == records[i].1
                &&& forall|j: int| i < j < records.len() ==> (#[trigger] records[j]).0 != key
            },
    decreases records.len(),
{
    if records.len() > 0 {
        let front = records.drop_last();
        let last = records.len() - 1;
        lemma_records_are_filed_by_key(front, key);
        if records[last].0 == key {
            assert(records.last() == records[last]);
        } else if filed_players(front).dom().contains(key) {
            let i = choose|i: int|
                {
                    &&& 0 <= i < front.len()
                    &&& (#[trigger] front[i]).0 == key
                    &&& filed_players(front)[key] == front[i].1
                    &&& forall|j: int| i < j < front.len() ==> (#[trigger] front[j]).0 != key
                };
            assert(records[i].0 == key);
            assert forall|j: int| i < j < records.len() implies (#[trigger] records[j]).0
                != key by {
                if j < last {
                    assert(front[j].0 != key);
                }
            }
        } else {
            assert forall|i: int| 0 <= i < records.len() implies (#[trigger] records[i]).0
                != key by {
                if i < last {
                    assert(front[i].0 != key);
                }
            }
        }
    }
}

/// A new player stands still where it starts, on the server that it starts on, and nothing
/// is known of it yet.
pub proof fn lemma_new_player_stands_still(
    player: PlayerData,
    player_id: String,
    position: WorldCoordinate,
    server_id: String,
    now: u64,
)
    requires
        is_new_player(player, player_id, position, server_id, now),
    ensures
        player.player_id == player_id,
        player.last_server == server_id,
        player.last_position == position,
        player.movement_data.position == position,
        player.movement_data.previous_position == position,
        player.movement_data.velocity == (WorldCoordinate {
            x: Scalar::Number(0),
            y: Scalar::Number(0),
            z: Scalar::Number(0),
        }),
        player.movement_data.position_history@.len() == 1,
        player.movement_data.position_history@[0] == (position, now),
        player.last_updated == now,
        player.movement_data.timestamp == now,
        player.session_data@.dom().len() == 0,
{
}

/// A new file holds no players and counts none.
pub proof fn lemma_new_file_is_empty(file: PlayerDatabase, now: u64)
    requires
        file.is_new(now),
    ensures
        file.players@.dom().len() == 0,
        file.metadata.player_count == 0,
        file.metadata.created == now,
        file.metadata.last_saved == now,
{
}

/// The records of a table are its entries, each under its own key.
pub proof fn lemma_records_are_the_entries(players: Table<PlayerData>, i: int)
    requires
        0 <= i < players.keys().len(),
    ensures
        records_of(players).len() == players.keys().len(),
        records_of(players)[i].0 == players.keys()[i],
        records_of(players)[i].1 == players.values()[i],
{
}

/// Each distance is that of the center from where the player beside it was last.
pub proof fn lemma_each_player_is_measured<
    F: Fn(WorldCoordinate, WorldCoordinate) -> Scalar,
>(
    players: Seq<PlayerData>,
    center: WorldCoordinate,
    distance: F,
    distances: Seq<Scalar>,
    i: int,
)
    requires
        measured_players(players, center, distance, distances),
        0 <= i < players.len(),
    ensures
        distances.len() == players.len(),
        distance.ensures((players[i].last_position, center), distances[i]),
{
}

/// A new file says of which version it is.
pub proof fn lemma_new_file_has_a_version(file: PlayerDatabase, now: u64)
    requires
        file.is_new(now),
    ensures
        file.metadata.version@ == "1.0.0"@,
{
}

} // verus!
