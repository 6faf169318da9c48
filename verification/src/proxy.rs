//! The proxy: which server a client is sent to, and the numbers it publishes.
use vstd::prelude::*;

use crate::client::{numbered_client, ClientIdCounter, ClientInfo, ClientState};
use crate::config::{ProxyConfig, ServerConfig};
use crate::error::{ProxyError, Result};
use crate::persistence::{is_new_player, PlayerData, PlayerPersistence};
use crate::scalar::Scalar;
use crate::search::{first_index, is_first, lemma_first_found, lemma_none_found};
use crate::server::{
    all_placed, connection_closed, connection_opened, filed_servers, lemma_connections_balance,
    not_known, ServerManager,
};
use crate::skim::DataSkimmer;
use crate::spatial::{MovementData, ServerRegion, WorldCoordinate};
use crate::table::Table;
use crate::text::{decimal, decimal_u64, join3};
use crate::transfer::TransferManager;

verus! {

/// The counters of the proxy as they are handed out.
#[derive(Clone, Copy, Debug, PartialEq, Eq, Structural)]
pub struct ProxyMetricsSnapshot {
    pub active_client_connections: u64,
    pub active_server_connections: u64,
    pub messages_processed: u64,
    pub messages_failed: u64,
    pub bytes_transferred: u64,
    pub connection_errors: u64,
}

/// The identifier that a client has until it tells its own: its address and port.
pub open spec fn temporary_id(ip: Seq<char>, port: u16) -> Seq<char> {
    "temp-"@ + ip + "-"@ + decimal(port as nat)
}

/// The identifier that a client has until it tells its own.
pub fn temporary_client_id(ip: &str, port: u16) -> (result: String)
    ensures
        result@ == temporary_id(ip@, port),
{
    let digits: String = decimal_u64(port as u64);
    let mut id: String = join3("temp-", ip, "-");
    id.append(digits.as_str());
    id
}

/// The server of the first region of a configuration that contains `position`, where it
/// is configured.
pub open spec fn configured_server(config: ProxyConfig, position: WorldCoordinate) -> Option<
    ServerConfig,
> {
    match first_index(config.regions@, |r: ServerRegion| r.spec_contains(position)) {
        Some(i) => server_with_id(config.servers@, config.regions@[i].server_id@),
        None => None,
    }
}

/// The servers with the identifier.
pub open spec fn is_named(id: Seq<char>) -> spec_fn(ServerConfig) -> bool {
    |s: ServerConfig| s.id@ == id
}

/// The first server with the identifier.
pub open spec fn server_with_id(servers: Seq<ServerConfig>, id: Seq<char>) -> Option<ServerConfig> {
    match first_index(servers, is_named(id)) {
        Some(k) => Some(servers[k]),
        None => None,
    }
}

fn find_configured_server<'a>(config: &'a ProxyConfig, position: &WorldCoordinate) -> (result: Option<
    &'a ServerConfig,
>)
    ensures
        match (result, configured_server(*config, *position)) {
            (Some(server), Some(s)) => *server == s,
            (None, None) => true,
            _ => false,
        },
{
    let ghost here = |r: ServerRegion| r.spec_contains(*position);
    match config.find_region_for_position(position) {
        Some(region) => {
            let ghost named = is_named(region.server_id@);
            proof {
                let i = choose|i: int|
                    is_first(config.regions@, here, i) && *region == #[trigger] config.regions@[i];
                lemma_first_found(config.regions@, here, i);
            }
            match config.get_server_by_id(region.server_id.as_str()) {
                Some(server) => {
                    proof {
                        let k = choose|k: int|
                            is_first(config.servers@, named, k) && *server
                                == #[trigger] config.servers@[k];
                        lemma_first_found(config.servers@, named, k);
                    }
                    Some(server)
                },
                None => {
                    proof {
                        lemma_none_found(config.servers@, named);
                    }
                    None
                },
            }
        },
        None => {
            proof {
                lemma_none_found(config.regions@, here);
            }
            None
        },
    }
}

/// The server that a returning client belongs to: that of the region in which it was
/// last.
pub open spec fn returning_server(
    config: ProxyConfig,
    players: Map<Seq<char>, PlayerData>,
    client: Seq<char>,
) -> Option<ServerConfig> {
    if players.dom().contains(client) {
        configured_server(config, players[client].last_position)
    } else {
        None
    }
}

/// The server that a client is sent to: that of the region in which it was last, or else
/// that of the region at the spawn point, or else the first that accepts connections.
pub open spec fn assigned_server(
    config: ProxyConfig,
    players: Map<Seq<char>, PlayerData>,
    client: Seq<char>,
) -> Option<ServerConfig> {
    let back = returning_server(config, players, client);
    let spawn = configured_server(config, WorldCoordinate::spec_origin());
    if back is Some {
        back
    } else if spawn is Some {
        spawn
    } else {
        match first_index(config.servers@, |s: ServerConfig| s.accepts()) {
            Some(i) => Some(config.servers@[i]),
            None => None,
        }
    }
}

/// Whether a client's first visit makes a player of it: it is sent to the spawn region.
pub open spec fn spawns(
    config: ProxyConfig,
    players: Map<Seq<char>, PlayerData>,
    client: Seq<char>,
) -> bool {
    &&& returning_server(config, players, client) is None
    &&& configured_server(config, WorldCoordinate::spec_origin()) is Some
}

/// What sending a client to its server does to the players' data.
pub open spec fn players_updated(
    config: ProxyConfig,
    before: PlayerPersistence,
    after: PlayerPersistence,
    client: Seq<char>,
    now: u64,
) -> bool {
    if spawns(config, before.cache.players@, client) {
        let player = after.cache.players@[client];
        &&& after == (PlayerPersistence { cache: after.cache, ..before })
        &&& after.cache.metadata == before.cache.metadata
        &&& after.cache.players@ == before.cache.players@.insert(client, player)
        &&& player.player_id@ == client
        &&& player.last_server@ == configured_server(
            config,
            WorldCoordinate::spec_origin(),
        )->0.id@
        &&& is_new_player(
            player,
            player.player_id,
            WorldCoordinate::spec_origin(),
            player.last_server,
            now,
        )
    } else {
        after == before
    }
}

/// What a handshake between a client and its server came to: the number of bytes that
/// each sent. A side that sent none has closed the connection.
pub fn check_handshake(from_client: usize, from_server: usize) -> (result: Result<()>)
    ensures
        match result {
            Ok(_) => from_client > 0 && from_server > 0,
            Err(error) => error matches ProxyError::Connection(text) && (if from_client == 0 {
                text@ == "Client closed connection during handshake"@
            } else {
                from_server == 0 && text@ == "Server closed connection during handshake"@
            }),
        },
{
    if from_client == 0 {
        return Err(
            ProxyError::Connection("Client closed connection during handshake".to_owned()),
        );
    }
    if from_server == 0 {
        return Err(
            ProxyError::Connection("Server closed connection during handshake".to_owned()),
        );
    }
    Ok(())
}

/// What happened to data on its way from one side to the other.
#[derive(Clone, Copy, Debug, PartialEq, Eq, Structural)]
pub enum ForwardEvent {
    /// So many bytes came in.
    Read(usize),
    /// The bytes that came in went out.
    Written(usize),
    /// One of the sides could not be read from or written to.
    Broken,
}

/// What is done next with the data of a connection.
#[derive(Clone, Copy, Debug, PartialEq, Eq, Structural)]
pub enum ForwardAction {
    /// Skim the bytes and write them to the other side.
    Pass(usize),
    /// Count the bytes as transferred and read on.
    Count(u64),
    /// Stop: the connection is closed.
    Stop,
}

/// What is done next with the data of a connection: it is passed on as it comes in and
/// counted once it went out, until a side is closed or broken.
pub fn forward_data(event: ForwardEvent) -> (result: ForwardAction)
    ensures
        result == (match event {
            ForwardEvent::Read(count) => if count == 0 {
                ForwardAction::Stop
            } else {
                ForwardAction::Pass(count)
            },
            ForwardEvent::Written(count) => ForwardAction::Count(count as u64),
            ForwardEvent::Broken => ForwardAction::Stop,
        }),
{
    match event {
        ForwardEvent::Read(count) => if count == 0 {
            ForwardAction::Stop
        } else {
            ForwardAction::Pass(count)
        },
        ForwardEvent::Written(count) => ForwardAction::Count(count as u64),
        ForwardEvent::Broken => ForwardAction::Stop,
    }
}

/// Proxy statistics
#[derive(Debug)]
pub struct ProxyStats {
    pub active_connections: usize,
    pub total_servers: usize,
    pub healthy_servers: usize,
    pub server_details: Vec<ServerConfig>,
}

/// How many of the servers are healthy.
pub open spec fn healthy_count(servers: Seq<ServerConfig>) -> nat
    decreases servers.len(),
{
    if servers.len() == 0 {
        0
    } else {
        healthy_count(servers.drop_last()) + (if servers.last().healthy {
            1nat
        } else {
            0nat
        })
    }
}

/// Main proxy server that handles client connections and server transfers
pub struct HorizonProxy {
    pub config: ProxyConfig,
    pub server_manager: ServerManager,
    pub transfer_manager: TransferManager,
    pub data_skimmer: DataSkimmer,
    pub player_persistence: PlayerPersistence,
    pub active_connections: Table<ClientInfo>,
    pub client_ids: ClientIdCounter,
}

impl HorizonProxy {
    /// Every part is in order, and every client is filed under its own identifier.
    pub open spec fn wf(&self) -> bool {
        &&& self.server_manager.wf()
        &&& self.player_persistence.wf()
        &&& self.active_connections.wf()
        &&& forall|k: Seq<char>| #[trigger]
            self.active_connections@.dom().contains(k) ==> self.active_connections@[k].id@ == k
    }

    /// Whether another connection to the server can be counted.
    pub open spec fn can_count(&self, server: Seq<char>) -> bool {
        self.server_manager.servers@.dom().contains(server)
            ==> self.server_manager.servers@[server].active_connections < u32::MAX
    }

    /// Create a new Horizon Atlas proxy, without clients; `now` is in milliseconds
    pub fn new(config: ProxyConfig, now: u64) -> (result: Self)
        ensures
            result.wf(),
            result.config == config,
            result.server_manager.config.same_as(config),
            result.server_manager.servers@ == filed_servers(config.servers@),
            result.server_manager.regions@ == all_placed(config.regions@),
            result.server_manager.player_movements@ == Map::<Seq<char>, MovementData>::empty(),
            result.transfer_manager.next == 0,
            result.transfer_manager.laps@.len() == 0,
            result.data_skimmer.waiting@.len() == 0,
            result.player_persistence.file_path@ == config.spatial_config.player_data_file@,
            result.player_persistence.auto_save_interval
                == config.spatial_config.auto_save_interval,
            result.player_persistence.last_save == 0,
            result.player_persistence.cache.is_new(now),
            result.active_connections@ == Map::<Seq<char>, ClientInfo>::empty(),
            result.client_ids.next == 0,
    {
        let server_manager = ServerManager::new(config.clone());
        let player_persistence = PlayerPersistence::new(
            config.spatial_config.player_data_file.as_str(),
            config.spatial_config.auto_save_interval,
            now,
        );
        HorizonProxy {
            config,
            server_manager,
            transfer_manager: TransferManager::new(),
            data_skimmer: DataSkimmer::new(),
            player_persistence,
            active_connections: Table::new(),
            client_ids: ClientIdCounter::new(),
        }
    }

    /// Find the best server for a new client connection using spatial routing; `now` is
    /// in milliseconds
    pub fn find_server_for_client(&mut self, client_id: &str, now: u64) -> (result: Result<
        ServerConfig,
    >)
        requires
            old(self).wf(),
        ensures
            final(self).wf(),
            *final(self) == (HorizonProxy {
                player_persistence: final(self).player_persistence,
                ..*old(self)
            }),
            players_updated(
                old(self).config,
                old(self).player_persistence,
                final(self).player_persistence,
                client_id@,
                now,
            ),
            match (
                result,
                assigned_server(
                    old(self).config,
                    old(self).player_persistence.cache.players@,
                    client_id@,
                ),
            ) {
                (Ok(server), Some(assigned)) => server == assigned,
                (Err(error), None) => error matches ProxyError::Connection(text) && text@
                    == "No available servers"@,
                _ => false,
            },
    {
        if let Some(player) = self.player_persistence.get_player(client_id) {
            let position = player.last_position;
            if let Some(server) = find_configured_server(&self.config, &position) {
                return Ok(server.clone());
            }
        }
        let origin = WorldCoordinate::origin();
        let spawn: Option<ServerConfig> = match find_configured_server(&self.config, &origin) {
            Some(server) => Some(server.clone()),
            None => None,
        };
        if let Some(server) = spawn {
            let player = PlayerData::new(client_id.to_owned(), origin, server.id.clone(), now);
            self.player_persistence.update_player(player);
            return Ok(server);
        }
        let ghost wanted = |s: ServerConfig| s.accepts();
        let mut i: usize = 0;
        while i < self.config.servers.len()
            invariant
                i <= self.config.servers@.len(),
                self.wf(),
                *self == *old(self),
                wanted == (|s: ServerConfig| s.accepts()),
                returning_server(
                    self.config,
                    self.player_persistence.cache.players@,
                    client_id@,
                ) is None,
                configured_server(self.config, WorldCoordinate::spec_origin()) is None,
                forall|j: int| 0 <= j < i ==> !wanted(#[trigger] self.config.servers@[j]),
            decreases self.config.servers@.len() - i,
        {
            if self.config.servers[i].can_accept_connections() {
                proof {
                    lemma_first_found(self.config.servers@, wanted, i as int);
                }
                return Ok(self.config.servers[i].clone());
            }
            i += 1;
        }
        proof {
            lemma_none_found(self.config.servers@, wanted);
        }
        Err(ProxyError::Connection("No available servers".to_owned()))
    }

    /// Takes up a client that connects from `addr`, known by `visitor` until it tells its
    /// own identifier: it is sent to its server, and counts as a connection of that
    /// server. The client's identifier and the server's come back. `ratio` divides the
    /// connections of a server by its capacity, and `now_ms` is in milliseconds.
    pub fn connect_client<F: Fn(u32, u32) -> Scalar>(
        &mut self,
        visitor: &str,
        addr: String,
        ratio: &F,
        now: i64,
        now_ms: u64,
    ) -> (result: Result<(String, String)>)
        requires
            old(self).wf(),
            forall|a: u32, b: u32| #[trigger] ratio.requires((a, b)),
            assigned_server(
                old(self).config,
                old(self).player_persistence.cache.players@,
                visitor@,
            ) matches Some(server) ==> old(self).can_count(server.id@),
        ensures
            final(self).wf(),
            *final(self) == (HorizonProxy {
                server_manager: final(self).server_manager,
                player_persistence: final(self).player_persistence,
                active_connections: final(self).active_connections,
                client_ids: final(self).client_ids,
                ..*old(self)
            }),
            final(self).server_manager == (ServerManager {
                servers: final(self).server_manager.servers,
                ..old(self).server_manager
            }),
            players_updated(
                old(self).config,
                old(self).player_persistence,
                final(self).player_persistence,
                visitor@,
                now_ms,
            ),
            match assigned_server(
                old(self).config,
                old(self).player_persistence.cache.players@,
                visitor@,
            ) {
                None => {
                    &&& result matches Err(ProxyError::Connection(text)) && text@
                        == "No available servers"@
                    &&& final(self).active_connections == old(self).active_connections
                    &&& final(self).server_manager == old(self).server_manager
                    &&& final(self).client_ids == old(self).client_ids
                },
                Some(server) => {
                    let id = numbered_client(old(self).client_ids.next);
                    let client = final(self).active_connections@[id];
                    let before = old(self).server_manager.servers@;
                    let after = final(self).server_manager.servers@;
                    &&& final(self).client_ids.next == old(self).client_ids.next.wrapping_add(1)
                    &&& final(self).active_connections@ == old(self).active_connections@.insert(
                        id,
                        client,
                    )
                    &&& client.id@ == id
                    &&& client.addr == addr
                    &&& client.current_server == server.id
                    &&& client.connected_at == now
                    &&& client.bytes_transferred == 0
                    &&& client.state is Connecting
                    &&& if before.dom().contains(server.id@) {
                        &&& result matches Ok((client_id, server_id)) && client_id@ == id
                            && server_id == server.id
                        &&& client_taken_up(*old(self), *final(self), id, server.id@, *ratio)
                    } else {
                        &&& result matches Err(error) && not_known(error, "Server "@, server.id@)
                        &&& after == before
                    }
                },
            },
    {
        let server = match self.find_server_for_client(visitor, now_ms) {
            Ok(server) => server,
            Err(error) => {
                return Err(error);
            },
        };
        let client = ClientInfo::new(addr, server.id.clone(), &mut self.client_ids, now);
        let client_id: String = client.id.clone();
        let _ = self.active_connections.insert(client_id.clone(), client);
        match self.server_manager.increment_connections(server.id.as_str(), ratio) {
            Ok(_) => Ok((client_id, server.id)),
            Err(error) => Err(error),
        }
    }

    /// Lets a client go whose connection has ended: it does not count any more for the
    /// server that it is on, and is disconnected. The client comes back as it was last.
    pub fn disconnect_client<F: Fn(u32, u32) -> Scalar>(&mut self, client_id: &str, ratio: &F) -> (result:
        Result<Option<ClientInfo>>)
        requires
            old(self).wf(),
            forall|a: u32, b: u32| #[trigger] ratio.requires((a, b)),
        ensures
            final(self).wf(),
            *final(self) == (HorizonProxy {
                server_manager: final(self).server_manager,
                active_connections: final(self).active_connections,
                ..*old(self)
            }),
            final(self).server_manager == (ServerManager {
                servers: final(self).server_manager.servers,
                ..old(self).server_manager
            }),
            ({
                let clients = old(self).active_connections@;
                let servers = old(self).server_manager.servers@;
                let client = clients[client_id@];
                let server = client.current_server@;
                if !clients.dom().contains(client_id@) {
                    &&& result matches Ok(None)
                    &&& *final(self) == *old(self)
                } else if servers.dom().contains(server) {
                    &&& client_let_go(*old(self), *final(self), client_id@, server, *ratio)
                    &&& result == Ok::<Option<ClientInfo>, ProxyError>(
                        Some(ClientInfo { state: ClientState::Disconnected, ..client }),
                    )
                } else {
                    &&& result matches Err(error) && not_known(error, "Server "@, server)
                    &&& final(self).server_manager.servers@ == servers
                    &&& final(self).active_connections == old(self).active_connections
                }
            }),
    {
        let server_id: String = match self.active_connections.get(client_id) {
            Some(client) => client.current_server.clone(),
            None => {
                return Ok(None);
            },
        };
        if let Err(error) = self.server_manager.decrement_connections(server_id.as_str(), ratio) {
            return Err(error);
        }
        match self.active_connections.remove(client_id) {
            Some(client) => {
                let mut gone = client;
                gone.set_state(ClientState::Disconnected);
                Ok(Some(gone))
            },
            None => Ok(None),
        }
    }

    /// Get current proxy statistics
    pub fn get_stats(&self) -> (result: ProxyStats)
        requires
            self.wf(),
        ensures
            result.active_connections == self.active_connections@.dom().len(),
            result.total_servers == self.server_manager.servers@.dom().len(),
            result.healthy_servers == healthy_count(self.server_manager.servers.values()),
            result.server_details@ == self.server_manager.servers.values(),
            result.healthy_servers <= result.total_servers,
    {
        proof {
            self.server_manager.servers.lemma_wf();
        }
        let details = self.server_manager.get_server_stats();
        let mut healthy: usize = 0;
        let mut i: usize = 0;
        assert(details@.take(0) =~= Seq::<ServerConfig>::empty());
        while i < details.len()
            invariant
                i <= details@.len(),
                healthy <= i,
                healthy == healthy_count(details@.take(i as int)),
            decreases details@.len() - i,
        {
            assert(details@.take(i + 1).drop_last() =~= details@.take(i as int));
            if details[i].healthy {
                healthy = healthy + 1;
            }
            i += 1;
        }
        assert(details@.take(i as int) =~= details@);
        ProxyStats {
            active_connections: self.active_connections.len(),
            total_servers: details.len(),
            healthy_servers: healthy,
            server_details: details,
        }
    }
}

/// Whether a client was filed, and counts as a connection of its server.
pub open spec fn client_taken_up<F: Fn(u32, u32) -> Scalar>(
    before: HorizonProxy,
    after: HorizonProxy,
    client: Seq<char>,
    server: Seq<char>,
    ratio: F,
) -> bool {
    &&& after.active_connections@ == before.active_connections@.insert(
        client,
        after.active_connections@[client],
    )
    &&& connection_opened(
        before.server_manager.servers@,
        after.server_manager.servers@,
        server,
        ratio,
    )
}

/// Whether a client was forgotten, and does not count for its server any more.
pub open spec fn client_let_go<F: Fn(u32, u32) -> Scalar>(
    before: HorizonProxy,
    after: HorizonProxy,
    client: Seq<char>,
    server: Seq<char>,
    ratio: F,
) -> bool {
    &&& after.active_connections@ == before.active_connections@.remove(client)
    &&& connection_closed(
        before.server_manager.servers@,
        after.server_manager.servers@,
        server,
        ratio,
    )
}

/// Taking up a client with a fresh identifier and letting it go again leaves the clients
/// and the servers as they were, but for the load of the client's server, which is that
/// of its connections.
pub proof fn lemma_visit_leaves_no_trace<F: Fn(u32, u32) -> Scalar>(
    first: HorizonProxy,
    between: HorizonProxy,
    last: HorizonProxy,
    client: Seq<char>,
    server: Seq<char>,
    ratio: F,
)
    requires
        client_taken_up(first, between, client, server, ratio),
        client_let_go(between, last, client, server, ratio),
        !first.active_connections@.dom().contains(client),
        first.can_count(server),
    ensures
        last.active_connections@ == first.active_connections@,
        ({
            let before = first.server_manager.servers@;
            let after = last.server_manager.servers@;
            &&& after == before.insert(
                server,
                ServerConfig { load: after[server].load, ..before[server] },
            )
            &&& after[server].has_load(ratio, after[server].load)
        }),
{
    assert(last.active_connections@ =~= first.active_connections@);
    lemma_connections_balance(
        first.server_manager.servers@,
        between.server_manager.servers@,
        last.server_manager.servers@,
        server,
        ratio,
    );
}

/// A client that is sent to the server of the spawn region returns there as long as the
/// configuration stays the same: the player that was made for it was last at the spawn
/// point.
pub proof fn lemma_new_client_returns(
    config: ProxyConfig,
    players: Map<Seq<char>, PlayerData>,
    client: Seq<char>,
    player: PlayerData,
    now: u64,
)
    requires
        is_new_player(
            player,
            player.player_id,
            WorldCoordinate::spec_origin(),
            player.last_server,
            now,
        ),
    ensures
        returning_server(config, players.insert(client, player), client) == configured_server(
            config,
            WorldCoordinate::spec_origin(),
        ),
{
}

/// The server of a position is that of the first configured region that holds it. Where
/// that server is not configured, there is none, even if another region holds the position.
pub proof fn lemma_first_region_decides_on_server(
    config: ProxyConfig,
    position: WorldCoordinate,
    i: int,
)
    requires
        0 <= i < config.regions@.len(),
        config.regions@[i].spec_contains(position),
        forall|j: int| 0 <= j < i ==> !(#[trigger] config.regions@[j]).spec_contains(position),
    ensures
        configured_server(config, position) == server_with_id(
            config.servers@,
            config.regions@[i].server_id@,
        ),
        configured_server(config, position) matches Some(server) ==> server.id@
            == config.regions@[i].server_id@ && config.servers@.contains(server),
        configured_server(config, position) is None ==> forall|k: int|
            0 <= k < config.servers@.len() ==> (#[trigger] config.servers@[k]).id@
                != config.regions@[i].server_id@,
{
    let wanted = |r: ServerRegion| r.spec_contains(position);
    assert(crate::search::is_first(config.regions@, wanted, i));
    crate::search::lemma_first_found(config.regions@, wanted, i);
    let id = config.regions@[i].server_id@;
    let named = is_named(id);
    crate::search::lemma_first_index(config.servers@, named);
    match first_index(config.servers@, named) {
        Some(k) => {
            assert(config.servers@[k].id@ == id);
        },
        None => {
            assert forall|k: int| 0 <= k < config.servers@.len() implies (
            #[trigger] config.servers@[k]).id@ != id by {
                assert(!named(config.servers@[k]));
            }
        },
    }
}

/// A position outside all configured regions has no server.
pub proof fn lemma_no_region_no_server(config: ProxyConfig, position: WorldCoordinate)
    requires
        forall|i: int|
            0 <= i < config.regions@.len() ==> !(#[trigger] config.regions@[i]).spec_contains(
                position,
            ),
    ensures
        configured_server(config, position) is None,
{
    crate::search::lemma_none_found(
        config.regions@,
        |r: ServerRegion| r.spec_contains(position),
    );
}

/// A client goes to the server of its last position, one without such a server to that of
/// the spawn point, and one without either to the first server with room. It goes nowhere
/// only where there is none of these.
pub proof fn lemma_clients_are_assigned_in_turn(
    config: ProxyConfig,
    players: Map<Seq<char>, PlayerData>,
    client: Seq<char>,
)
    ensures
        ({
            let origin = WorldCoordinate {
                x: crate::scalar::Scalar::Number(0),
                y: crate::scalar::Scalar::Number(0),
                z: crate::scalar::Scalar::Number(0),
            };
            let assigned = assigned_server(config, players, client);
            let known = players.dom().contains(client);
            let back = configured_server(config, players[client].last_position);
            let spawn = configured_server(config, origin);
            &&& known && back is Some ==> assigned == back
            &&& (!known || back is None) && spawn is Some ==> assigned == spawn
            &&& (!known || back is None) && spawn is None ==> match assigned {
                Some(server) => exists|i: int|
                    {
                        &&& 0 <= i < config.servers@.len()
                        &&& #[trigger] config.servers@[i] == server
                        &&& server.healthy && server.active_connections < server.capacity
                        &&& forall|j: int|
                            0 <= j < i ==> !((#[trigger] config.servers@[j]).healthy
                                && config.servers@[j].active_connections
                                < config.servers@[j].capacity)
                    },
                None => forall|i: int|
                    0 <= i < config.servers@.len() ==> !((#[trigger] config.servers@[i]).healthy
                        && config.servers@[i].active_connections < config.servers@[i].capacity),
            }
            &&& spawns(config, players, client) <==> (!known || back is None) && spawn is Some
        }),
{
    let wanted = |s: ServerConfig| s.accepts();
    crate::search::lemma_first_index(config.servers@, wanted);
    match first_index(config.servers@, wanted) {
        Some(i) => {
            assert(wanted(config.servers@[i]));
            assert forall|j: int| 0 <= j < i implies !((#[trigger] config.servers@[j]).healthy
                && config.servers@[j].active_connections < config.servers@[j].capacity) by {
                assert(!wanted(config.servers@[j]));
            }
        },
        None => {
            assert forall|i: int| 0 <= i < config.servers@.len() implies !((
            #[trigger] config.servers@[i]).healthy && config.servers@[i].active_connections
                < config.servers@[i].capacity) by {
                assert(!wanted(config.servers@[i]));
            }
        },
    }
}

/// Assigning a server to one client leaves what is known of every other player alone, and
/// a player is made only for a client that spawns.
pub proof fn lemma_other_players_stay(
    config: ProxyConfig,
    before: PlayerPersistence,
    after: PlayerPersistence,
    client: Seq<char>,
    now: u64,
    other: Seq<char>,
)
    requires
        players_updated(config, before, after, client, now),
        other != client,
    ensures
        after.cache.players@.dom().contains(other) <==> before.cache.players@.dom().contains(other),
        before.cache.players@.dom().contains(other) ==> after.cache.players@[other]
            == before.cache.players@[other],
        !spawns(config, before.cache.players@, client) ==> after == before,
        spawns(config, before.cache.players@, client) ==> {
            let player = after.cache.players@[client];
            &&& after.cache.players@.dom().contains(client)
            &&& player.player_id@ == client
            &&& player.last_position == WorldCoordinate::spec_origin()
            &&& player.last_updated == now
            &&& Some(player.last_server@) == (match assigned_server(
                config,
                before.cache.players@,
                client,
            ) {
                Some(server) => Some(server.id@),
                None => None,
            })
        },
{
}

/// The count of healthy servers is their number, and one server more adds one exactly where
/// it is healthy.
pub proof fn lemma_healthy_servers_are_counted(servers: Seq<ServerConfig>)
    ensures
        healthy_count(servers) == servers.filter(|s: ServerConfig| s.healthy).len(),
        healthy_count(servers) <= servers.len(),
        healthy_count(servers) == servers.len() <==> forall|i: int|
            0 <= i < servers.len() ==> (#[trigger] servers[i]).healthy,
    decreases servers.len(),
{
    reveal(Seq::filter);
    if servers.len() > 0 {
        let front = servers.drop_last();
        lemma_healthy_servers_are_counted(front);
        assert(forall|i: int| 0 <= i < front.len() ==> front[i] == #[trigger] servers[i]);
        assert(servers[servers.len() - 1] == servers.last());
        if healthy_count(servers) == servers.len() {
            assert forall|i: int| 0 <= i < servers.len() implies (#[trigger] servers[i]).healthy by {
                if i < front.len() {
                    assert(front[i].healthy);
                }
            }
        }
        if forall|i: int| 0 <= i < servers.len() ==> (#[trigger] servers[i]).healthy {
            assert forall|i: int| 0 <= i < front.len() implies (#[trigger] front[i]).healthy by {
                assert(servers[i].healthy);
            }
        }
    }
}

/// Connections from different ports of an address have different temporary identifiers.
pub proof fn lemma_ports_have_their_own_identifiers(ip: Seq<char>, a: u16, b: u16)
    ensures
        temporary_id(ip, a) == temporary_id(ip, b) ==> a == b,
        crate::text::has_prefix(temporary_id(ip, a), "temp-"@ + ip + "-"@),
{
    let start = "temp-"@ + ip + "-"@;
    let n = start.len() as int;
    assert(temporary_id(ip, a).skip(n) =~= decimal(a as nat));
    assert(temporary_id(ip, b).skip(n) =~= decimal(b as nat));
    assert(temporary_id(ip, a).take(n) =~= start);
    crate::text::lemma_signed_decimal_is_faithful(a as int, b as int);
}

/// Taking up a client counts one connection at its server and no other, and leaves the
/// other clients alone.
pub proof fn lemma_client_counts_at_its_server<F: Fn(u32, u32) -> Scalar>(
    before: HorizonProxy,
    after: HorizonProxy,
    client: Seq<char>,
    server: Seq<char>,
    ratio: F,
    other: Seq<char>,
)
    requires
        client_taken_up(before, after, client, server, ratio),
        before.can_count(server),
    ensures
        after.active_connections@.dom().contains(client),
        other != client ==> (after.active_connections@.dom().contains(other)
            <==> before.active_connections@.dom().contains(other)),
        after.server_manager.servers@[server].active_connections
            == before.server_manager.servers@[server].active_connections + 1,
        other != server && before.server_manager.servers@.dom().contains(other)
            ==> after.server_manager.servers@[other] == before.server_manager.servers@[other],
{
}

} // verus!
