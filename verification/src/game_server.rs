//! The game servers that the proxy starts, watches and stops.
use vstd::prelude::*;

use crate::clock::{seconds_since_epoch, wall_clock_millis};
use crate::config::GameServerConfig;
use crate::errors::{AtlasError, Result};
use crate::ids::{canonical_uuid, is_uuid_text, new_uuid_text, uuid_canonical};
use crate::state::{GameServerInfo, ServerBounds, ServerStatus};
use crate::table::{referents, Table};

verus! {

/// The number of players that a full server has.
pub const MAX_PLAYERS: usize = 1000;

/// The port of the first server.
pub const FIRST_PORT: u16 = 7000;

/// The current time in whole seconds since the Unix epoch.
pub fn current_timestamp() -> (result: u64)
    ensures
        result <= i64::MAX / 1000,
{
    seconds_since_epoch(wall_clock_millis())
}

/// The game servers by identifier.
pub struct GameServerManager {
    pub servers: Table<GameServerInfo>,
    pub config: GameServerConfig,
}

/// Whether `error` says that the server is not known.
pub open spec fn unknown_server(error: AtlasError, id: Seq<char>) -> bool {
    error matches AtlasError::ServerNotFound { server_id } && server_id@ == id
}

/// Whether a server is running.
pub open spec fn is_running(server: GameServerInfo) -> bool {
    server.status is Running
}

/// Whether position `i` holds the first of the running servers with the fewest
/// players.
pub open spec fn is_least_loaded(servers: Seq<GameServerInfo>, i: int) -> bool {
    &&& 0 <= i < servers.len()
    &&& is_running(servers[i])
    &&& forall|j: int|
        0 <= j < servers.len() && is_running(#[trigger] servers[j]) ==> servers[i].player_count
            <= servers[j].player_count
    &&& forall|j: int|
        0 <= j < i && is_running(#[trigger] servers[j]) ==> servers[i].player_count
            < servers[j].player_count
}

/// The server after a look at its heartbeat: failed, where the last one lies more than
/// `max_idle` seconds back.
pub open spec fn inspected(server: GameServerInfo, now: u64, max_idle: u64) -> GameServerInfo {
    if now - server.last_heartbeat > max_idle {
        GameServerInfo { status: ServerStatus::Failed, ..server }
    } else {
        server
    }
}

fn not_known(server_id: &str) -> (result: AtlasError)
    ensures
        unknown_server(result, server_id@),
{
    AtlasError::ServerNotFound { server_id: server_id.to_owned() }
}

impl GameServerManager {
    /// Every server is filed under its own identifier.
    pub open spec fn wf(&self) -> bool {
        &&& self.servers.wf()
        &&& forall|k: Seq<char>| #[trigger]
            self.servers@.dom().contains(k) ==> self.servers@[k].id@ == k
    }

    /// No servers.
    pub fn new(config: GameServerConfig) -> (result: Self)
        ensures
            result.wf(),
            result.config == config,
            result.servers@ == Map::<Seq<char>, GameServerInfo>::empty(),
    {
        GameServerManager { servers: Table::new(), config }
    }

    /// Files a server as starting, with a heartbeat at `now`.
    pub fn register_server(&mut self, server_info: GameServerInfo, now: u64)
        requires
            old(self).wf(),
        ensures
            final(self).wf(),
            final(self).config == old(self).config,
            final(self).servers@ == old(self).servers@.insert(
                server_info.id@,
                GameServerInfo {
                    status: ServerStatus::Starting,
                    last_heartbeat: now,
                    ..server_info
                },
            ),
    {
        let mut server = server_info;
        server.status = ServerStatus::Starting;
        server.last_heartbeat = now;
        let key: String = server.id.clone();
        let _ = self.servers.insert(key, server);
    }

    /// Notes a heartbeat at `now`: the server is running.
    pub fn update_server_heartbeat(&mut self, server_id: &str, now: u64) -> (result: Result<()>)
        requires
            old(self).wf(),
        ensures
            final(self).wf(),
            final(self).config == old(self).config,
            match result {
                Ok(_) => old(self).servers@.dom().contains(server_id@) && final(self).servers@
                    == old(self).servers@.insert(
                    server_id@,
                    GameServerInfo {
                        last_heartbeat: now,
                        status: ServerStatus::Running,
                        ..old(self).servers@[server_id@]
                    },
                ),
                Err(error) => !old(self).servers@.dom().contains(server_id@) && unknown_server(
                    error,
                    server_id@,
                ) && final(self).servers@ == old(self).servers@,
            },
    {
        match self.servers.find(server_id) {
            Some(i) => {
                let server = self.servers.value_at_mut(i);
                server.last_heartbeat = now;
                server.status = ServerStatus::Running;
                Ok(())
            },
            None => Err(not_known(server_id)),
        }
    }

    /// Notes how many players a server has.
    pub fn update_player_count(&mut self, server_id: &str, count: usize) -> (result: Result<()>)
        requires
            old(self).wf(),
        ensures
            final(self).wf(),
            final(self).config == old(self).config,
            match result {
                Ok(_) => old(self).servers@.dom().contains(server_id@) && final(self).servers@
                    == old(self).servers@.insert(
                    server_id@,
                    GameServerInfo { player_count: count, ..old(self).servers@[server_id@] },
                ),
                Err(error) => !old(self).servers@.dom().contains(server_id@) && unknown_server(
                    error,
                    server_id@,
                ) && final(self).servers@ == old(self).servers@,
            },
    {
        match self.servers.find(server_id) {
            Some(i) => {
                let server = self.servers.value_at_mut(i);
                server.player_count = count;
                Ok(())
            },
            None => Err(not_known(server_id)),
        }
    }

    /// What is known of a server.
    pub fn get_server(&self, server_id: &str) -> (result: Option<GameServerInfo>)
        requires
            self.wf(),
        ensures
            result == self.lookup(server_id@),
    {
        match self.servers.get(server_id) {
            Some(server) => Some(server.clone()),
            None => None,
        }
    }

    /// What is known of the server with the given identifier.
    pub open spec fn lookup(&self, id: Seq<char>) -> Option<GameServerInfo> {
        if self.servers@.dom().contains(id) {
            Some(self.servers@[id])
        } else {
            None
        }
    }

    /// What is known of the server whose identifier `form` is the hyphenated form of
    /// `server_id`; where there is no such form, the server whose identifier reads as
    /// `server_id` does.
    pub fn get_server_by_form(&self, server_id: &str, form: Option<String>) -> (result: Option<
        GameServerInfo,
    >)
        requires
            self.wf(),
        ensures
            result == self.lookup(
                match form {
                    Some(id) => id@,
                    None => server_id@,
                },
            ),
    {
        match form {
            Some(id) => self.get_server(id.as_str()),
            None => self.get_server(server_id),
        }
    }

    /// What is known of the server with an identifier in any form.
    pub fn get_server_by_string(&self, server_id: &str) -> (result: Option<GameServerInfo>)
        requires
            self.wf(),
        ensures
            result == self.lookup(
                match uuid_canonical(server_id@) {
                    Some(id) => id,
                    None => server_id@,
                },
            ),
            is_uuid_text(server_id@) ==> result == self.lookup(server_id@),
    {
        let form = canonical_uuid(server_id);
        self.get_server_by_form(server_id, form)
    }

    /// All servers.
    pub fn get_all_servers(&self) -> (result: Vec<GameServerInfo>)
        requires
            self.wf(),
        ensures
            result@ == self.servers.values(),
    {
        let mut out: Vec<GameServerInfo> = Vec::new();
        let mut i: usize = 0;
        while i < self.servers.len()
            invariant
                self.wf(),
                i <= self.servers.values().len(),
                out@ == self.servers.values().take(i as int),
            decreases self.servers.values().len() - i,
        {
            out.push(self.servers.value_at(i).clone());
            i += 1;
            assert(out@ =~= self.servers.values().take(i as int));
        }
        assert(out@ =~= self.servers.values());
        out
    }

    /// The servers with the given status.
    pub fn get_servers_by_status(&self, status: ServerStatus) -> (result: Vec<&GameServerInfo>)
        requires
            self.wf(),
        ensures
            referents(result@) == self.servers.values().filter(
                |s: GameServerInfo| s.status == status,
            ),
    {
        let test = |server: &GameServerInfo| -> (yes: bool)
            ensures
                yes == (server.status == status),
        {
            server.status == status
        };
        self.servers.values_where(test, Ghost(|s: GameServerInfo| s.status == status))
    }

    /// Forgets a server.
    pub fn remove_server(&mut self, server_id: &str) -> (result: Result<()>)
        requires
            old(self).wf(),
        ensures
            final(self).wf(),
            final(self).config == old(self).config,
            final(self).servers@ == old(self).servers@.remove(server_id@),
            match result {
                Ok(_) => old(self).servers@.dom().contains(server_id@),
                Err(error) => !old(self).servers@.dom().contains(server_id@) && unknown_server(
                    error,
                    server_id@,
                ),
            },
    {
        match self.servers.remove(server_id) {
            Some(_) => Ok(()),
            None => Err(not_known(server_id)),
        }
    }

    /// Marks the servers as failed whose last heartbeat lies more than the idle time
    /// before `now`.
    pub fn mark_idle_servers(&mut self, now: u64)
        requires
            old(self).wf(),
            forall|k: Seq<char>| #[trigger]
                old(self).servers@.dom().contains(k) ==> old(self).servers@[k].last_heartbeat <= now,
        ensures
            final(self).wf(),
            final(self).config == old(self).config,
            final(self).servers@ == old(self).servers@.map_values(
                |s: GameServerInfo| inspected(s, now, old(self).config.max_idle_time),
            ),
    {
        proof {
            self.servers.lemma_wf();
        }
        let max_idle: u64 = self.config.max_idle_time;
        let count: usize = self.servers.len();
        let mut i: usize = 0;
        while i < count
            invariant
                i <= count,
                self.wf(),
                old(self).wf(),
                self.config == old(self).config,
                max_idle == self.config.max_idle_time,
                count == old(self).servers.values().len(),
                count == self.servers.values().len(),
                count == self.servers.keys().len(),
                self.servers.keys() == old(self).servers.keys(),
                forall|k: Seq<char>| #[trigger]
                    old(self).servers@.dom().contains(k) ==> old(self).servers@[k].last_heartbeat <= now,
                forall|j: int|
                    0 <= j < count ==> #[trigger] self.servers.values()[j] == (if j < i {
                        inspected(old(self).servers.values()[j], now, max_idle)
                    } else {
                        old(self).servers.values()[j]
                    }),
            decreases count - i,
        {
            proof {
                self.servers.lemma_wf();
                old(self).servers.lemma_wf();
                assert(self.servers@.dom().contains(self.servers.keys()[i as int]));
                assert(old(self).servers@.dom().contains(old(self).servers.keys()[i as int]));
                assert(self.servers.values()[i as int] == old(self).servers.values()[i as int]);
            }
            let last: u64 = self.servers.value_at(i).last_heartbeat;
            if now - last > max_idle {
                let server = self.servers.value_at_mut(i);
                server.status = ServerStatus::Failed;
            }
            i += 1;
        }
        proof {
            self.servers.lemma_wf();
            old(self).servers.lemma_wf();
            assert(self.servers@ =~= old(self).servers@.map_values(
                |s: GameServerInfo| inspected(s, now, old(self).config.max_idle_time),
            ));
        }
    }

    /// What is known of a server, where it is running.
    pub fn find_server_by_bounds(&self, server_id: &str) -> (result: Option<GameServerInfo>)
        requires
            self.wf(),
        ensures
            result == (match self.lookup(server_id@) {
                Some(server) => if is_running(server) {
                    Some(server)
                } else {
                    None
                },
                None => None,
            }),
    {
        match self.servers.get(server_id) {
            Some(server) => if matches!(server.status, ServerStatus::Running) {
                Some(server.clone())
            } else {
                None
            },
            None => None,
        }
    }

    /// The running server with the fewest players, the first of them where several
    /// have as few.
    pub fn find_least_loaded_server(&self) -> (result: Option<GameServerInfo>)
        requires
            self.wf(),
        ensures
            match result {
                Some(server) => exists|i: int|
                    is_least_loaded(self.servers.values(), i) && server
                        == #[trigger] self.servers.values()[i],
                None => forall|i: int|
                    0 <= i < self.servers.values().len() ==> !is_running(
                        #[trigger] self.servers.values()[i],
                    ),
            },
    {
        let mut best: Option<usize> = None;
        let ghost servers = self.servers.values();
        let mut i: usize = 0;
        while i < self.servers.len()
            invariant
                self.wf(),
                servers == self.servers.values(),
                i <= servers.len(),
                match best {
                    Some(b) => {
                        &&& b < i
                        &&& is_running(servers[b as int])
                        &&& forall|j: int|
                            0 <= j < i && is_running(#[trigger] servers[j])
                                ==> servers[b as int].player_count <= servers[j].player_count
                        &&& forall|j: int|
                            0 <= j < b && is_running(#[trigger] servers[j])
                                ==> servers[b as int].player_count < servers[j].player_count
                    },
                    None => forall|j: int| 0 <= j < i ==> !is_running(#[trigger] servers[j]),
                },
            decreases servers.len() - i,
        {
            let server = self.servers.value_at(i);
            if matches!(server.status, ServerStatus::Running) {
                let fewer = match best {
                    Some(b) => server.player_count < self.servers.value_at(b).player_count,
                    None => true,
                };
                if fewer {
                    best = Some(i);
                }
            }
            i += 1;
        }
        match best {
            Some(b) => {
                assert(is_least_loaded(servers, b as int));
                Some(self.servers.value_at(b).clone())
            },
            None => None,
        }
    }

    /// How full a server is: its players, and the number that a full server has.
    pub fn get_server_capacity(&self, server_id: &str) -> (result: Option<(usize, usize)>)
        requires
            self.wf(),
        ensures
            result == (match self.lookup(server_id@) {
                Some(server) => Some((server.player_count, MAX_PLAYERS)),
                None => None,
            }),
    {
        match self.servers.get(server_id) {
            Some(server) => Some((server.player_count, MAX_PLAYERS)),
            None => None,
        }
    }

    /// Files a new server under the given identifier, starting at `now`. Ports go round
    /// a thousand numbers.
    pub fn startup_with_id(&mut self, server_id: String, bounds: ServerBounds, now: u64)
        requires
            old(self).wf(),
        ensures
            final(self).wf(),
            final(self).config == old(self).config,
            ({
                let server = final(self).servers@[server_id@];
                &&& final(self).servers@ == old(self).servers@.insert(server_id@, server)
                &&& server.id == server_id
                &&& server.address@ == "127.0.0.1"@
                &&& server.port == FIRST_PORT + old(self).servers@.dom().len() % 1000
                &&& server.bounds == bounds
                &&& server.status is Starting
                &&& server.player_count == 0
                &&& server.last_heartbeat == now
            }),
    {
        let port: u16 = FIRST_PORT + (self.servers.len() % 1000) as u16;
        let server = GameServerInfo {
            id: server_id,
            address: "127.0.0.1".to_owned(),
            port,
            bounds,
            status: ServerStatus::Starting,
            player_count: 0,
            last_heartbeat: now,
        };
        self.register_server(server, now);
    }

    /// Files a new server under a random identifier.
    pub fn request_server_startup(&mut self, bounds: ServerBounds, now: u64) -> (result: String)
        requires
            old(self).wf(),
        ensures
            final(self).wf(),
            final(self).config == old(self).config,
            is_uuid_text(result@),
            ({
                let server = final(self).servers@[result@];
                &&& final(self).servers@ == old(self).servers@.insert(result@, server)
                &&& server.id@ == result@
                &&& server.address@ == "127.0.0.1"@
                &&& server.port == FIRST_PORT + old(self).servers@.dom().len() % 1000
                &&& server.bounds == bounds
                &&& server.status is Starting
                &&& server.player_count == 0
                &&& server.last_heartbeat == now
            }),
    {
        let server_id: String = new_uuid_text();
        self.startup_with_id(server_id.clone(), bounds, now);
        server_id
    }

    /// Notes that a server is to stop.
    pub fn request_server_shutdown(&mut self, server_id: &str) -> (result: Result<()>)
        requires
            old(self).wf(),
        ensures
            final(self).wf(),
            final(self).config == old(self).config,
            match result {
                Ok(_) => old(self).servers@.dom().contains(server_id@) && final(self).servers@
                    == old(self).servers@.insert(
                    server_id@,
                    GameServerInfo {
                        status: ServerStatus::Stopping,
                        ..old(self).servers@[server_id@]
                    },
                ),
                Err(error) => !old(self).servers@.dom().contains(server_id@) && unknown_server(
                    error,
                    server_id@,
                ) && final(self).servers@ == old(self).servers@,
            },
    {
        match self.servers.find(server_id) {
            Some(i) => {
                let server = self.servers.value_at_mut(i);
                server.status = ServerStatus::Stopping;
                Ok(())
            },
            None => Err(not_known(server_id)),
        }
    }
}

/// A server that has just given a sign of life does not fail in a look at the
/// heartbeats within its idle time.
pub proof fn lemma_heartbeat_keeps_server_alive(
    server: GameServerInfo,
    beat: u64,
    now: u64,
    max_idle: u64,
)
    requires
        beat <= now,
        now - beat <= max_idle,
    ensures
        ({
            let alive = GameServerInfo {
                last_heartbeat: beat,
                status: ServerStatus::Running,
                ..server
            };
            inspected(alive, now, max_idle) == alive
        }),
{
}

/// Looking at the heartbeats again at the same time changes nothing.
pub proof fn lemma_inspection_idempotent(server: GameServerInfo, now: u64, max_idle: u64)
    ensures
        inspected(inspected(server, now, max_idle), now, max_idle) == inspected(
            server,
            now,
            max_idle,
        ),
{
}

/// A look at the heartbeats fails a server exactly where its last one is longer ago than it
/// may be idle, whatever its status. Nothing else of a server changes, and no server comes
/// back by it.
pub proof fn lemma_only_silent_servers_fail(server: GameServerInfo, now: u64, max_idle: u64)
    ensures
        ({
            let after = inspected(server, now, max_idle);
            &&& now > server.last_heartbeat + max_idle ==> after.status == ServerStatus::Failed
            &&& now <= server.last_heartbeat + max_idle ==> after == server
            &&& after == GameServerInfo { status: after.status, ..server }
            &&& after.status != server.status ==> after.status == ServerStatus::Failed
        }),
{
}

/// Of the servers that run, the first with the fewest players is the least loaded, so there
/// is never a choice. Servers in any other state do not count.
pub proof fn lemma_least_loaded_is_the_first(servers: Seq<GameServerInfo>, i: int, j: int)
    requires
        is_least_loaded(servers, i),
        0 <= j < servers.len(),
        servers[j].status == ServerStatus::Running,
    ensures
        servers[i].status == ServerStatus::Running,
        servers[i].player_count <= servers[j].player_count,
        servers[i].player_count == servers[j].player_count ==> i <= j,
        is_least_loaded(servers, j) ==> i == j,
{
    assert(is_running(servers[j]));
}

/// A server runs in one state alone.
pub proof fn lemma_one_state_is_running(server: GameServerInfo)
    ensures
        is_running(server) <==> server.status == ServerStatus::Running,
        server.status == ServerStatus::Starting || server.status == ServerStatus::Stopping
            || server.status == ServerStatus::Stopped || server.status == ServerStatus::Failed
            ==> !is_running(server),
{
}

/// A server is found exactly where it is on record, and then as it is there.
pub proof fn lemma_lookup_finds_what_is_on_record(manager: GameServerManager, id: Seq<char>)
    ensures
        manager.lookup(id) is Some <==> manager.servers@.dom().contains(id),
        manager.lookup(id) matches Some(server) ==> server == manager.servers@[id],
        manager.wf() ==> (manager.lookup(id) matches Some(server) ==> server.id@ == id),
{
}

} // verus!
