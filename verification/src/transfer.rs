//! Server-to-server client migration system.
use vstd::prelude::*;

use crate::client::{ClientInfo, ClientState};
use crate::config::ServerConfig;
use crate::error::{ProxyError, Result};
use crate::scalar::Scalar;
use crate::server::{
    connect_failure, connect_obstacle, connection_closed, connection_opened, is_connection_error,
    not_known, ServerManager,
};
use crate::spatial::WorldCoordinate;
use crate::text::{
    decimal, decimal_u64, join3, lemma_decimal_digits, lemma_decimal_injective, str_eq,
};

verus! {

/// The bit pattern of 0.8, rounded to 32 bits: the load from which clients are moved
/// away.
pub const OVERLOAD_BITS: u64 = 0x3fe9_9999_a000_0000;

/// The bit pattern of 0.2, rounded to 32 bits: the difference in load that makes a move
/// worthwhile.
pub const WORTHWHILE_BITS: u64 = 0x3fc9_9999_a000_0000;

/// How long a transfer is expected to take, in milliseconds.
pub const ESTIMATED_DOWNTIME_MS: u64 = 100;

/// Server information for transfer notifications
#[derive(Debug, PartialEq, Eq)]
pub struct ServerInfo {
    pub id: String,
    pub addr: String,
    pub load: Scalar,
    pub health_status: String,
}

/// Reasons for client transfer
#[derive(Clone, Copy, Debug, PartialEq, Eq, Structural)]
pub enum TransferReason {
    /// Load balancing - moving from overloaded server
    LoadBalancing,
    /// Server maintenance
    Maintenance,
    /// Server failure
    ServerFailure,
    /// Manual administrative transfer
    Administrative,
    /// Client requested transfer
    ClientRequested,
}

impl TransferReason {
    /// The reason's name.
    pub fn name(self) -> (result: &'static str)
        ensures
            result@ == (match self {
                TransferReason::LoadBalancing => "LoadBalancing"@,
                TransferReason::Maintenance => "Maintenance"@,
                TransferReason::ServerFailure => "ServerFailure"@,
                TransferReason::Administrative => "Administrative"@,
                TransferReason::ClientRequested => "ClientRequested"@,
            }),
    {
        match self {
            TransferReason::LoadBalancing => "LoadBalancing",
            TransferReason::Maintenance => "Maintenance",
            TransferReason::ServerFailure => "ServerFailure",
            TransferReason::Administrative => "Administrative",
            TransferReason::ClientRequested => "ClientRequested",
        }
    }
}

/// Transfer notification message
#[derive(Debug)]
pub struct TransferNotification {
    pub client_id: String,
    pub from_server: ServerInfo,
    pub to_server: ServerInfo,
    pub reason: TransferReason,
    pub estimated_downtime_ms: u64,
    pub transfer_token: String,
}

impl TransferNotification {
    /// What is logged of the transfer: who moves from where to where.
    pub open spec fn spec_line(self) -> Seq<char> {
        self.client_id@ + " from "@ + self.from_server.id@ + " to "@ + self.to_server.id@
    }

    /// What is logged of the transfer: who moves from where to where.
    pub fn line(&self) -> (result: String)
        ensures
            result@ == self.spec_line(),
    {
        let mut text: String = join3(
            self.client_id.as_str(),
            " from ",
            self.from_server.id.as_str(),
        );
        text.append(" to ");
        text.append(self.to_server.id.as_str());
        text
    }
}

/// Whether `info` tells of a server.
pub open spec fn tells_of<F: Fn(u32, u32) -> Scalar>(
    info: ServerInfo,
    server: ServerConfig,
    ratio: F,
) -> bool {
    &&& info.id == server.id
    &&& info.addr == server.addr
    &&& server.has_load(ratio, info.load)
    &&& info.health_status@ == (if server.healthy {
        "healthy"@
    } else {
        "unhealthy"@
    })
}

/// Whether `error` is a transfer error with the given text.
pub open spec fn is_transfer_error(error: ProxyError, text: Seq<char>) -> bool {
    error matches ProxyError::Transfer(detail) && detail@ == text
}

/// Why a client cannot be transferred from its server, if it cannot.
pub open spec fn transfer_obstacle(manager: ServerManager, client: ClientInfo) -> Option<Seq<char>> {
    let current = client.current_server@;
    let known = manager.servers@.dom().contains(current);
    if !(client.state is Connected) {
        Some("Client is not in a transferable state"@)
    } else {
        match manager.host_of(WorldCoordinate::spec_origin()) {
            None => Some("No available servers for transfer"@),
            Some(best) => if best.id@ == current {
                Some("No better server available for transfer"@)
            } else if !known {
                Some("From server "@ + current + " not found"@)
            } else {
                None
            },
        }
    }
}

/// The token of a transfer: the time in milliseconds and a serial number.
pub open spec fn transfer_token(now_ms: u64, serial: Seq<char>) -> Seq<char> {
    "transfer-"@ + decimal(now_ms as nat) + "-"@ + serial
}

/// The text of a serial number: a mark for each time that the numbers have started over,
/// and the number.
pub open spec fn serial_text(laps: Seq<char>, number: u64) -> Seq<char> {
    laps + decimal(number as nat)
}

/// The number that follows `drawn` others.
pub open spec fn number_after(first: u64, drawn: nat) -> u64 {
    ((first + drawn) % 0x1_0000_0000_0000_0000) as u64
}

/// The marks after `drawn` numbers: one more for each time that they start over.
pub open spec fn laps_after(laps: Seq<char>, first: u64, drawn: nat) -> Seq<char> {
    laps + Seq::new(((first + drawn) / 0x1_0000_0000_0000_0000) as nat, |i: int| '~')
}

proof fn lemma_draws_add_up(laps: Seq<char>, first: u64, drawn: nat, more: nat)
    ensures
        number_after(first, 0) == first,
        laps_after(laps, first, 0) == laps,
        number_after(number_after(first, drawn), more) == number_after(first, drawn + more),
        laps_after(laps_after(laps, first, drawn), number_after(first, drawn), more) == laps_after(
            laps,
            first,
            drawn + more,
        ),
{
    assert(laps_after(laps, first, 0) =~= laps);
    assert(laps_after(laps_after(laps, first, drawn), number_after(first, drawn), more)
        =~= laps_after(laps, first, drawn + more));
}

/// Whether `notification` announces a client's transfer from its server to the best one.
pub open spec fn announces<F: Fn(u32, u32) -> Scalar>(
    notification: TransferNotification,
    manager: ServerManager,
    client: ClientInfo,
    reason: TransferReason,
    ratio: F,
    now_ms: u64,
    serial: Seq<char>,
) -> bool {
    let best = manager.host_of(WorldCoordinate::spec_origin())->0;
    &&& notification.client_id == client.id
    &&& tells_of(
        notification.from_server,
        manager.servers@[client.current_server@],
        ratio,
    )
    &&& tells_of(notification.to_server, best, ratio)
    &&& notification.reason == reason
    &&& notification.estimated_downtime_ms == ESTIMATED_DOWNTIME_MS
    &&& notification.transfer_token@ == transfer_token(now_ms, serial)
}

/// Whether a connection of the server `from` has become one of the server `to`: it is
/// taken off the one and then added to the other.
pub open spec fn connection_moved<F: Fn(u32, u32) -> Scalar>(
    before: Map<Seq<char>, ServerConfig>,
    after: Map<Seq<char>, ServerConfig>,
    from: Seq<char>,
    to: Seq<char>,
    ratio: F,
) -> bool {
    exists|between: Map<Seq<char>, ServerConfig>|
        #[trigger] connection_closed(before, between, from, ratio) && connection_opened(
            between,
            after,
            to,
            ratio,
        )
}

/// A transfer between two servers takes one connection off the one and adds it to the
/// other. Every other server stays as it is.
pub proof fn lemma_transfer_moves_one_connection<F: Fn(u32, u32) -> Scalar>(
    before: Map<Seq<char>, ServerConfig>,
    after: Map<Seq<char>, ServerConfig>,
    from: Seq<char>,
    to: Seq<char>,
    ratio: F,
)
    requires
        connection_moved(before, after, from, to, ratio),
        from != to,
        before[from].active_connections > 0,
        before[to].active_connections < u32::MAX,
    ensures
        after[from].active_connections == before[from].active_connections - 1,
        after[to].active_connections == before[to].active_connections + 1,
        after.dom() == before.dom(),
        forall|id: Seq<char>|
            id != from && id != to && #[trigger] before.dom().contains(id) ==> after[id]
                == before[id],
{
    assert(after.dom() =~= before.dom());
}

/// Whether the loads of a client's server and of the best one make a move worthwhile:
/// the client's server is overloaded, and the best has at least so much less to do.
/// `difference` subtracts two loads.
pub open spec fn worth_moving<D: Fn(Scalar, Scalar) -> Scalar>(
    current: Scalar,
    best: Option<Scalar>,
    difference: D,
    result: bool,
) -> bool {
    if !Scalar::spec_from_bits(OVERLOAD_BITS).spec_lt(current) {
        !result
    } else {
        match best {
            None => !result,
            Some(load) => exists|gap: Scalar|
                #[trigger] difference.ensures((current, load), gap) && result
                    == Scalar::spec_from_bits(WORTHWHILE_BITS).spec_le(gap),
        }
    }
}

fn describe<F: Fn(u32, u32) -> Scalar>(server: &ServerConfig, ratio: &F) -> (result: ServerInfo)
    requires
        forall|a: u32, b: u32| #[trigger] ratio.requires((a, b)),
    ensures
        tells_of(result, *server, *ratio),
{
    ServerInfo {
        id: server.id.clone(),
        addr: server.addr.clone(),
        load: server.load_percentage(ratio),
        health_status: if server.healthy {
            "healthy".to_owned()
        } else {
            "unhealthy".to_owned()
        },
    }
}

/// Client transfer manager for moving clients between servers
#[derive(Debug)]
pub struct TransferManager {
    /// The serial number of the next transfer
    pub next: u64,
    /// A mark for each time that the serial numbers have started over
    pub laps: String,
}

impl TransferManager {
    /// The text of the serial number that comes up after `drawn` others.
    pub open spec fn serial(&self, drawn: nat) -> Seq<char> {
        serial_text(laps_after(self.laps@, self.next, drawn), number_after(self.next, drawn))
    }

    /// Whether the serial numbers have moved on by `drawn` since `before`.
    pub open spec fn has_drawn(&self, before: TransferManager, drawn: nat) -> bool {
        &&& self.next == number_after(before.next, drawn)
        &&& self.laps@ == laps_after(before.laps@, before.next, drawn)
    }

    /// A transfer manager that has not transferred any client.
    pub fn new() -> (result: Self)
        ensures
            result.next == 0,
            result.laps@.len() == 0,
    {
        TransferManager { next: 0, laps: String::new() }
    }

    /// Initiate client transfer to a better server: the notification is to be sent to all
    /// parties, and the client is being transferred. `now_ms` is in milliseconds
    pub fn initiate_transfer<F: Fn(u32, u32) -> Scalar>(
        &mut self,
        manager: &ServerManager,
        client: &mut ClientInfo,
        reason: TransferReason,
        ratio: &F,
        now_ms: u64,
    ) -> (result: Result<TransferNotification>)
        requires
            manager.wf(),
            forall|a: u32, b: u32| #[trigger] ratio.requires((a, b)),
        ensures
            match result {
                Ok(notification) => {
                    &&& transfer_obstacle(*manager, *old(client)) is None
                    &&& announces(
                        notification,
                        *manager,
                        *old(client),
                        reason,
                        *ratio,
                        now_ms,
                        old(self).serial(0),
                    )
                    &&& *final(client) == in_transfer(*manager, *old(client))
                    &&& final(self).has_drawn(*old(self), 1)
                },
                Err(error) => {
                    &&& transfer_obstacle(*manager, *old(client)) matches Some(text)
                        && is_transfer_error(error, text)
                    &&& *final(client) == *old(client)
                    &&& *final(self) == *old(self)
                },
            },
    {
        if !client.can_transfer() {
            return Err(ProxyError::Transfer("Client is not in a transferable state".to_owned()));
        }
        let current: String = client.current_server.clone();
        let target = match self.find_best_target_server(manager, current.as_str()) {
            Ok(target) => target,
            Err(error) => {
                return Err(error);
            },
        };
        let notification = match self.create_transfer_notification(
            manager,
            client,
            current.as_str(),
            &target,
            reason,
            ratio,
            now_ms,
        ) {
            Ok(notification) => notification,
            Err(error) => {
                return Err(error);
            },
        };
        client.set_state(ClientState::Transferring { from_server: current, to_server: target.id });
        Ok(notification)
    }

    /// Execute the actual transfer: where the new server can be connected to, and
    /// `connection` says that it was, the connection counts for that server now, and the
    /// client is connected to it. Where it was not, `connection` holds the cause.
    pub fn execute_transfer<F: Fn(u32, u32) -> Scalar>(
        &self,
        manager: &mut ServerManager,
        client: &mut ClientInfo,
        notification: &TransferNotification,
        connection: std::result::Result<(), String>,
        ratio: &F,
    ) -> (result: Result<()>)
        requires
            old(manager).wf(),
            forall|a: u32, b: u32| #[trigger] ratio.requires((a, b)),
            old(manager).servers@.dom().contains(notification.to_server.id@) ==> old(
                manager,
            ).servers@[notification.to_server.id@].active_connections < u32::MAX,
        ensures
            final(manager).wf(),
            *final(manager) == (ServerManager {
                servers: final(manager).servers,
                ..*old(manager)
            }),
            ({
                let from = notification.from_server.id@;
                let to = notification.to_server.id@;
                let before = old(manager).servers@;
                let after = final(manager).servers@;
                match result {
                    Ok(_) => {
                        &&& connect_obstacle(before, to) is None
                        &&& connection is Ok
                        &&& connection_moved(before, after, from, to, *ratio)
                        &&& *final(client) == (ClientInfo {
                            state: ClientState::Connected,
                            current_server: notification.to_server.id,
                            ..*old(client)
                        })
                    },
                    Err(error) => {
                        &&& *final(client) == *old(client)
                        &&& after == before
                        &&& match (connect_obstacle(before, to), connection) {
                            (Some(text), _) => is_connection_error(error, text),
                            (None, Err(cause)) => is_connection_error(
                                error,
                                connect_failure(to, cause@),
                            ),
                            (None, Ok(_)) => !before.dom().contains(from) && not_known(
                                error,
                                "Server "@,
                                from,
                            ),
                        }
                    },
                }
            }),
    {
        let to = notification.to_server.id.as_str();
        if let Err(error) = manager.connect_to_server(to) {
            return Err(error);
        }
        if let Err(cause) = connection {
            return Err(ServerManager::connection_failed(to, cause.as_str()));
        }
        if let Err(error) = manager.decrement_connections(
            notification.from_server.id.as_str(),
            ratio,
        ) {
            return Err(error);
        }
        proof {
            let from = notification.from_server.id@;
            assert(connection_closed(old(manager).servers@, manager.servers@, from, *ratio));
        }
        if let Err(error) = manager.increment_connections(to, ratio) {
            return Err(error);
        }
        client.set_state(ClientState::Connected);
        client.current_server = notification.to_server.id.clone();
        Ok(())
    }

    /// Find the best target server for transfer: the best server, unless it is the one
    /// that the client is on
    pub fn find_best_target_server(&self, manager: &ServerManager, current_server_id: &str) -> (result:
        Result<ServerConfig>)
        requires
            manager.wf(),
        ensures
            match (result, manager.host_of(WorldCoordinate::spec_origin())) {
                (Ok(server), Some(best)) => server == best && best.id@ != current_server_id@,
                (Err(error), Some(best)) => best.id@ == current_server_id@ && is_transfer_error(
                    error,
                    "No better server available for transfer"@,
                ),
                (Err(error), None) => is_transfer_error(
                    error,
                    "No available servers for transfer"@,
                ),
                (Ok(_), None) => false,
            },
    {
        match manager.get_best_server() {
            Some(best) => if str_eq(best.id.as_str(), current_server_id) {
                Err(ProxyError::Transfer("No better server available for transfer".to_owned()))
            } else {
                Ok(best)
            },
            None => Err(ProxyError::Transfer("No available servers for transfer".to_owned())),
        }
    }

    fn create_transfer_notification<F: Fn(u32, u32) -> Scalar>(
        &mut self,
        manager: &ServerManager,
        client: &ClientInfo,
        from_server_id: &str,
        to_server: &ServerConfig,
        reason: TransferReason,
        ratio: &F,
        now_ms: u64,
    ) -> (result: Result<TransferNotification>)
        requires
            manager.wf(),
            forall|a: u32, b: u32| #[trigger] ratio.requires((a, b)),
            manager.servers@.dom().contains(to_server.id@),
            manager.servers@[to_server.id@] == *to_server,
        ensures
            match result {
                Ok(notification) => {
                    &&& manager.servers@.dom().contains(from_server_id@)
                    &&& notification.client_id == client.id
                    &&& tells_of(
                        notification.from_server,
                        manager.servers@[from_server_id@],
                        *ratio,
                    )
                    &&& tells_of(notification.to_server, *to_server, *ratio)
                    &&& notification.reason == reason
                    &&& notification.estimated_downtime_ms == ESTIMATED_DOWNTIME_MS
                    &&& notification.transfer_token@ == transfer_token(now_ms, old(self).serial(0))
                    &&& final(self).has_drawn(*old(self), 1)
                },
                Err(error) => {
                    &&& !manager.servers@.dom().contains(from_server_id@)
                    &&& is_transfer_error(
                        error,
                        "From server "@ + from_server_id@ + " not found"@,
                    )
                    &&& *final(self) == *old(self)
                },
            },
    {
        let from_server = match manager.get_server(from_server_id) {
            Some(server) => server,
            None => {
                return Err(
                    ProxyError::Transfer(join3("From server ", from_server_id, " not found")),
                );
            },
        };
        let target = match manager.get_server(to_server.id.as_str()) {
            Some(server) => server,
            None => {
                return Err(
                    ProxyError::Transfer(
                        join3("To server ", to_server.id.as_str(), " not found"),
                    ),
                );
            },
        };
        Ok(
            TransferNotification {
                client_id: client.id.clone(),
                from_server: describe(&from_server, ratio),
                to_server: describe(&target, ratio),
                reason,
                estimated_downtime_ms: ESTIMATED_DOWNTIME_MS,
                transfer_token: self.generate_transfer_token(now_ms),
            },
        )
    }

    /// Generate a unique transfer token: the time in milliseconds, and a serial number
    pub fn generate_transfer_token(&mut self, now_ms: u64) -> (result: String)
        ensures
            result@ == transfer_token(now_ms, old(self).serial(0)),
            final(self).has_drawn(*old(self), 1),
    {
        let digits: String = decimal_u64(now_ms);
        let number: String = decimal_u64(self.next);
        let mut token: String = join3("transfer-", digits.as_str(), "-");
        token.append(self.laps.as_str());
        token.append(number.as_str());
        proof {
            lemma_draws_add_up(self.laps@, self.next, 0, 1);
            assert(token@ =~= transfer_token(now_ms, self.serial(0)));
        }
        if self.next == u64::MAX {
            self.laps.append("~");
            self.next = 0;
            proof {
                reveal_strlit("~");
            }
        } else {
            self.next = self.next + 1;
        }
        assert(self.laps@ =~= laps_after(old(self).laps@, old(self).next, 1));
        token
    }

    /// Check if a client should be transferred based on server load
    pub fn should_transfer_for_load_balancing<
        F: Fn(u32, u32) -> Scalar,
        D: Fn(Scalar, Scalar) -> Scalar,
    >(&self, manager: &ServerManager, client: &ClientInfo, ratio: &F, difference: &D) -> (result:
        bool)
        requires
            manager.wf(),
            forall|a: u32, b: u32| #[trigger] ratio.requires((a, b)),
            forall|a: Scalar, b: Scalar| #[trigger] difference.requires((a, b)),
        ensures
            decides(*manager, *client, *ratio, *difference, result),
    {
        let current = manager.get_server_load(client.current_server.as_str(), ratio);
        let overloaded = Scalar::from_bits(OVERLOAD_BITS).lt(current);
        if overloaded {
            if let Some(best) = manager.get_best_server() {
                let load = best.load_percentage(ratio);
                let gap = difference(current, load);
                let result = Scalar::from_bits(WORTHWHILE_BITS).le(gap);
                assert(worth_moving(current, Some(load), *difference, result));
                return result;
            }
        }
        assert(worth_moving(current, None, *difference, false));
        false
    }

    /// Automatically transfer clients for load balancing: those that should be and can be
    /// transferred are. The notifications come back in the order of the clients
    pub fn auto_transfer_for_load_balancing<
        F: Fn(u32, u32) -> Scalar,
        D: Fn(Scalar, Scalar) -> Scalar,
    >(
        &mut self,
        manager: &ServerManager,
        clients: &mut Vec<ClientInfo>,
        ratio: &F,
        difference: &D,
        now_ms: u64,
    ) -> (result: Vec<TransferNotification>)
        requires
            manager.wf(),
            forall|a: u32, b: u32| #[trigger] ratio.requires((a, b)),
            forall|a: Scalar, b: Scalar| #[trigger] difference.requires((a, b)),
        ensures
            final(clients)@.len() == old(clients)@.len(),
            final(self).has_drawn(*old(self), result@.len()),
            exists|decisions: Seq<bool>|
                {
                    let moving = moving_clients(*manager, old(clients)@, decisions);
                    &&& #[trigger] decided(
                        *manager,
                        old(clients)@,
                        *ratio,
                        *difference,
                        decisions,
                    )
                    &&& forall|i: int|
                        0 <= i < old(clients)@.len() ==> #[trigger] final(clients)@[i] == (if moves(
                            *manager,
                            old(clients)@[i],
                            decisions[i],
                        ) {
                            in_transfer(*manager, old(clients)@[i])
                        } else {
                            old(clients)@[i]
                        })
                    &&& result@.len() == moving.len()
                    &&& forall|j: int|
                        0 <= j < result@.len() ==> announces(
                            #[trigger] result@[j],
                            *manager,
                            moving[j],
                            TransferReason::LoadBalancing,
                            *ratio,
                            now_ms,
                            old(self).serial(j as nat),
                        )
                },
    {
        let mut out: Vec<TransferNotification> = Vec::new();
        proof {
            lemma_draws_add_up(self.laps@, self.next, 0, 1);
        }
        let ghost before = clients@;
        let ghost mut decisions: Seq<bool> = Seq::empty();
        let mut i: usize = 0;
        assert(before.take(0) =~= Seq::<ClientInfo>::empty());
        while i < clients.len()
            invariant
                manager.wf(),
                forall|a: u32, b: u32| #[trigger] ratio.requires((a, b)),
                forall|a: Scalar, b: Scalar| #[trigger] difference.requires((a, b)),
                before == old(clients)@,
                clients@.len() == before.len(),
                i <= before.len(),
                decisions.len() == i,
                forall|k: int|
                    0 <= k < i ==> decides(
                        *manager,
                        before[k],
                        *ratio,
                        *difference,
                        #[trigger] decisions[k],
                    ),
                forall|k: int|
                    0 <= k < before.len() ==> #[trigger] clients@[k] == (if k < i && moves(
                        *manager,
                        before[k],
                        decisions[k],
                    ) {
                        in_transfer(*manager, before[k])
                    } else {
                        before[k]
                    }),
                out@.len() == moving_clients(*manager, before.take(i as int), decisions).len(),
                forall|j: int|
                    0 <= j < out@.len() ==> announces(
                        #[trigger] out@[j],
                        *manager,
                        moving_clients(*manager, before.take(i as int), decisions)[j],
                        TransferReason::LoadBalancing,
                        *ratio,
                        now_ms,
                        old(self).serial(j as nat),
                    ),
                self.has_drawn(*old(self), out@.len()),
            decreases before.len() - i,
        {
            assert(clients@[i as int] == before[i as int]);
            let should = self.should_transfer_for_load_balancing(
                manager,
                &clients[i],
                ratio,
                difference,
            );
            proof {
                assert(before.take(i + 1).drop_last() =~= before.take(i as int));
                assert(decisions.push(should).drop_last() =~= decisions);
                lemma_draws_add_up(old(self).laps@, old(self).next, out@.len(), 1);
                lemma_draws_add_up(self.laps@, self.next, 0, 1);
            }
            if should {
                let client = &mut clients[i];
                match self.initiate_transfer(
                    manager,
                    client,
                    TransferReason::LoadBalancing,
                    ratio,
                    now_ms,
                ) {
                    Ok(notification) => {
                        out.push(notification);
                    },
                    Err(_) => {},
                }
            }
            proof {
                decisions = decisions.push(should);
            }
            i += 1;
        }
        proof {
            assert(before.take(i as int) =~= before);
            assert(decided(*manager, before, *ratio, *difference, decisions));
        }
        out
    }
}

/// Whether the loads of the servers decide that a client should be moved.
pub open spec fn decides<F: Fn(u32, u32) -> Scalar, D: Fn(Scalar, Scalar) -> Scalar>(
    manager: ServerManager,
    client: ClientInfo,
    ratio: F,
    difference: D,
    result: bool,
) -> bool {
    exists|current: Scalar, best: Option<Scalar>|
        {
            &&& has_current_load(manager, client.current_server@, ratio, current)
            &&& match (manager.host_of(WorldCoordinate::spec_origin()), best) {
                (Some(server), Some(load)) => server.has_load(ratio, load),
                (_, None) => manager.host_of(WorldCoordinate::spec_origin()) is None
                    || !Scalar::spec_from_bits(OVERLOAD_BITS).spec_lt(current),
                _ => false,
            }
            &&& #[trigger] worth_moving(current, best, difference, result)
        }
}

/// Whether `decisions` are what the loads of the servers decide for each client.
pub open spec fn decided<F: Fn(u32, u32) -> Scalar, D: Fn(Scalar, Scalar) -> Scalar>(
    manager: ServerManager,
    clients: Seq<ClientInfo>,
    ratio: F,
    difference: D,
    decisions: Seq<bool>,
) -> bool {
    &&& decisions.len() == clients.len()
    &&& forall|i: int|
        0 <= i < clients.len() ==> decides(
            manager,
            clients[i],
            ratio,
            difference,
            #[trigger] decisions[i],
        )
}

/// Whether a client is moved: it should be, and nothing is in the way.
pub open spec fn moves(manager: ServerManager, client: ClientInfo, should: bool) -> bool {
    should && transfer_obstacle(manager, client) is None
}

/// The client while it is being transferred to the best server.
pub open spec fn in_transfer(manager: ServerManager, client: ClientInfo) -> ClientInfo {
    ClientInfo {
        state: ClientState::Transferring {
            from_server: client.current_server,
            to_server: manager.host_of(WorldCoordinate::spec_origin())->0.id,
        },
        ..client
    }
}

/// The clients that are moved, in order.
pub open spec fn moving_clients(
    manager: ServerManager,
    clients: Seq<ClientInfo>,
    decisions: Seq<bool>,
) -> Seq<ClientInfo>
    decreases clients.len(),
{
    if clients.len() == 0 {
        Seq::empty()
    } else {
        let front = moving_clients(manager, clients.drop_last(), decisions.drop_last());
        if moves(manager, clients.last(), decisions.last()) {
            front.push(clients.last())
        } else {
            front
        }
    }
}

/// Whether `load` is that of a client's server; one that is not known is full.
pub open spec fn has_current_load<F: Fn(u32, u32) -> Scalar>(
    manager: ServerManager,
    server: Seq<char>,
    ratio: F,
    load: Scalar,
) -> bool {
    if manager.servers@.dom().contains(server) {
        manager.servers@[server].has_load(ratio, load)
    } else {
        load == Scalar::spec_from_bits(crate::config::FULL_LOAD_BITS)
    }
}

/// A client is never transferred to the server that it is on, and only to one that
/// accepts connections.
pub proof fn lemma_transfer_goes_elsewhere(manager: ServerManager, client: ClientInfo)
    requires
        transfer_obstacle(manager, client) is None,
    ensures
        client.state is Connected,
        manager.host_of(WorldCoordinate::spec_origin()) matches Some(best) && best.id@
            != client.current_server@ && best.accepts(),
{
    crate::server::lemma_host_accepts(manager, WorldCoordinate::spec_origin());
}

proof fn lemma_split(a: Seq<char>, b: Seq<char>, c: Seq<char>, d: Seq<char>)
    requires
        forall|i: int| 0 <= i < a.len() ==> (#[trigger] a[i]) != '-',
        forall|i: int| 0 <= i < c.len() ==> (#[trigger] c[i]) != '-',
        a + seq!['-'] + b == c + seq!['-'] + d,
    ensures
        a == c,
        b == d,
{
    let x = a + seq!['-'] + b;
    let y = c + seq!['-'] + d;
    assert(x[a.len() as int] == '-');
    assert(y[c.len() as int] == '-');
    if a.len() < c.len() {
        assert(y[a.len() as int] == c[a.len() as int]);
    }
    if c.len() < a.len() {
        assert(x[c.len() as int] == a[c.len() as int]);
    }
    assert(a =~= x.take(a.len() as int));
    assert(c =~= y.take(a.len() as int));
    assert(b =~= x.skip(a.len() as int + 1));
    assert(d =~= y.skip(a.len() as int + 1));
}

/// Tokens that differ in their time or in the text of their serial number are different.
pub proof fn lemma_transfer_tokens_distinct(
    now_a: u64,
    serial_a: Seq<char>,
    now_b: u64,
    serial_b: Seq<char>,
)
    requires
        transfer_token(now_a, serial_a) == transfer_token(now_b, serial_b),
    ensures
        now_a == now_b,
        serial_a == serial_b,
{
    reveal_strlit("-");
    assert("-"@ =~= seq!['-']);
    let a = decimal(now_a as nat);
    let c = decimal(now_b as nat);
    let head = "transfer-"@;
    assert(transfer_token(now_a, serial_a).skip(head.len() as int) =~= a + seq!['-'] + serial_a);
    assert(transfer_token(now_b, serial_b).skip(head.len() as int) =~= c + seq!['-'] + serial_b);
    lemma_decimal_digits(now_a as nat);
    lemma_decimal_digits(now_b as nat);
    lemma_split(a, serial_a, c, serial_b);
    lemma_decimal_injective(now_a as nat, now_b as nat);
}

proof fn lemma_serials_differ(laps: Seq<char>, first: u64, earlier: nat, later: nat)
    requires
        earlier < later,
    ensures
        serial_text(laps_after(laps, first, earlier), number_after(first, earlier)) != serial_text(
            laps_after(laps, first, later),
            number_after(first, later),
        ),
{
    let x = laps_after(laps, first, earlier);
    let y = laps_after(laps, first, later);
    let a = decimal(number_after(first, earlier) as nat);
    let b = decimal(number_after(first, later) as nat);
    let i = x.len() as int;
    lemma_decimal_digits(number_after(first, earlier) as nat);
    assert(a.len() > 0);
    if x.len() == y.len() {
        if x + a == y + b {
            assert(a =~= (x + a).skip(i));
            assert(b =~= (y + b).skip(i));
            lemma_decimal_injective(
                number_after(first, earlier) as nat,
                number_after(first, later) as nat,
            );
        }
    } else {
        assert((x + a)[i] == a[0]);
        assert((y + b)[i] == y[i]);
        assert(y[i] == '~');
    }
}

/// A token differs from every one that the manager has generated before, whatever the
/// time.
pub proof fn lemma_transfer_tokens_unique(
    manager: TransferManager,
    earlier: nat,
    later: nat,
    now_earlier: u64,
    now_later: u64,
)
    requires
        earlier < later,
    ensures
        transfer_token(now_earlier, manager.serial(earlier)) != transfer_token(
            now_later,
            manager.serial(later),
        ),
{
    lemma_serials_differ(manager.laps@, manager.next, earlier, later);
    if transfer_token(now_earlier, manager.serial(earlier)) == transfer_token(
        now_later,
        manager.serial(later),
    ) {
        lemma_transfer_tokens_distinct(
            now_earlier,
            manager.serial(earlier),
            now_later,
            manager.serial(later),
        );
    }
}

/// Serial numbers come up one after the other: once some have been drawn, those that
/// follow are those that would have followed.
pub proof fn lemma_serials_go_on(
    before: TransferManager,
    after: TransferManager,
    drawn: nat,
    more: nat,
)
    requires
        after.has_drawn(before, drawn),
    ensures
        after.serial(more) == before.serial(drawn + more),
{
    lemma_draws_add_up(before.laps@, before.next, drawn, more);
}

/// A client that connects, is transferred and disconnects from its new server leaves every
/// server with as many connections as before.
pub proof fn lemma_transferred_visit_balances<F: Fn(u32, u32) -> Scalar>(
    first: Map<Seq<char>, ServerConfig>,
    connected: Map<Seq<char>, ServerConfig>,
    moved: Map<Seq<char>, ServerConfig>,
    last: Map<Seq<char>, ServerConfig>,
    from: Seq<char>,
    to: Seq<char>,
    ratio: F,
)
    requires
        connection_opened(first, connected, from, ratio),
        connection_moved(connected, moved, from, to, ratio),
        connection_closed(moved, last, to, ratio),
        first[from].active_connections < u32::MAX,
        first[to].active_connections < u32::MAX,
    ensures
        last.dom() == first.dom(),
        forall|id: Seq<char>| #[trigger]
            first.dom().contains(id) ==> last[id].active_connections
                == first[id].active_connections,
{
    assert(last.dom() =~= first.dom());
}

/// A client is moved only while it is connected, to a host of the spawn point that is not
/// its own server, from a server that is known; each of these is needed, and together they
/// are enough.
pub proof fn lemma_what_a_transfer_needs(manager: ServerManager, client: ClientInfo)
    ensures
        ({
            let host = manager.host_of(WorldCoordinate::spec_origin());
            let current = client.current_server@;
            let obstacle = transfer_obstacle(manager, client);
            &&& obstacle is None <==> client.state is Connected && host is Some && host->0.id@
                != current && manager.servers@.dom().contains(current)
            &&& !(client.state is Connected) ==> obstacle == Some(
                "Client is not in a transferable state"@,
            )
            &&& client.state is Connected && host is None ==> obstacle == Some(
                "No available servers for transfer"@,
            )
            &&& client.state is Connected && host is Some && host->0.id@ == current ==> obstacle
                == Some("No better server available for transfer"@)
            &&& client.state is Connected && host is Some && host->0.id@ != current
                && !manager.servers@.dom().contains(current) ==> obstacle == Some(
                "From server "@ + current + " not found"@,
            )
        }),
{
}

/// What a client is told of a server is what is known of it.
pub proof fn lemma_clients_are_told_the_truth<F: Fn(u32, u32) -> Scalar>(
    info: ServerInfo,
    server: ServerConfig,
    ratio: F,
)
    requires
        tells_of(info, server, ratio),
    ensures
        info.id == server.id,
        info.addr == server.addr,
        server.healthy ==> info.health_status@ == "healthy"@,
        !server.healthy ==> info.health_status@ == "unhealthy"@,
        server.capacity > 0 ==> ratio.ensures(
            (server.active_connections, server.capacity),
            info.load,
        ),
{
}

/// A server that is not overloaded is not left, nor is one without an alternative. One that
/// is overloaded is left exactly where the loads differ by enough.
pub proof fn lemma_moving_is_worth_a_difference<D: Fn(Scalar, Scalar) -> Scalar>(
    current: Scalar,
    best: Option<Scalar>,
    difference: D,
    result: bool,
)
    requires
        worth_moving(current, best, difference, result),
    ensures
        result ==> best is Some && (current matches Scalar::Number(load) && load
            > 0x3fe9_9999_a000_0000),
        result ==> exists|gap: Scalar|
            #[trigger] difference.ensures((current, best->0), gap) && (gap matches Scalar::Number(n)
                && n >= 0x3fc9_9999_a000_0000),
        !result && best is Some && (current matches Scalar::Number(load) && load
            > 0x3fe9_9999_a000_0000) ==> exists|gap: Scalar|
            #[trigger] difference.ensures((current, best->0), gap) && !(
            gap matches Scalar::Number(n) && n >= 0x3fc9_9999_a000_0000),
        best is None ==> !result,
        current is NotANumber ==> !result,
{
}

/// A client on a server that is not known counts as one on a full server.
pub proof fn lemma_unknown_server_counts_as_full<F: Fn(u32, u32) -> Scalar>(
    manager: ServerManager,
    server: Seq<char>,
    ratio: F,
    load: Scalar,
)
    requires
        has_current_load(manager, server, ratio, load),
    ensures
        !manager.servers@.dom().contains(server) ==> load == Scalar::Number(0x3ff0_0000_0000_0000),
        manager.servers@.dom().contains(server) && manager.servers@[server].capacity > 0
            ==> ratio.ensures(
            (manager.servers@[server].active_connections, manager.servers@[server].capacity),
            load,
        ),
{
}

/// A client in transfer is on its way from its server to the host of the spawn point, and
/// stays the same client on the same server until it arrives.
pub proof fn lemma_client_in_transfer_is_the_same(manager: ServerManager, client: ClientInfo)
    requires
        transfer_obstacle(manager, client) is None,
    ensures
        ({
            let after = in_transfer(manager, client);
            &&& after.id == client.id
            &&& after.current_server == client.current_server
            &&& after == (ClientInfo { state: after.state, ..client })
            &&& after.state matches ClientState::Transferring { from_server, to_server }
            &&& from_server == client.current_server
            &&& to_server@ != from_server@
            &&& transfer_obstacle(manager, after) is Some
        }),
{
}

/// Of the clients, those move for which it was so decided and nothing stands in the way, in
/// their order.
pub proof fn lemma_only_willing_clients_move(
    manager: ServerManager,
    clients: Seq<ClientInfo>,
    decisions: Seq<bool>,
    client: ClientInfo,
)
    requires
        clients.len() == decisions.len(),
    ensures
        moving_clients(manager, clients, decisions).len() <= clients.len(),
        moving_clients(manager, clients, decisions).contains(client) <==> exists|i: int|
            0 <= i < clients.len() && #[trigger] clients[i] == client && decisions[i]
                && transfer_obstacle(manager, client) is None,
    decreases clients.len(),
{
    if clients.len() > 0 {
        let front = clients.drop_last();
        let rest = decisions.drop_last();
        let last = clients.len() - 1;
        lemma_only_willing_clients_move(manager, front, rest, client);
        let moving = moving_clients(manager, front, rest);
        crate::table::lemma_push_contains(moving, clients.last());
        assert(clients[last] == clients.last() && decisions[last] == decisions.last());
        if exists|i: int|
            0 <= i < clients.len() && #[trigger] clients[i] == client && decisions[i]
                && transfer_obstacle(manager, client) is None {
            let i = choose|i: int|
                0 <= i < clients.len() && #[trigger] clients[i] == client && decisions[i]
                    && transfer_obstacle(manager, client) is None;
            if i < last {
                assert(front[i] == client && rest[i] == decisions[i]);
            }
        }
        if moving.contains(client) {
            let i = choose|i: int|
                0 <= i < front.len() && #[trigger] front[i] == client && rest[i]
                    && transfer_obstacle(manager, client) is None;
            assert(clients[i] == client && rest[i] == decisions[i]);
        }
    }
}

/// A notification names the client, the server it leaves, the host of the spawn point that
/// it goes to, and the reason.
pub proof fn lemma_notification_names_both_servers<F: Fn(u32, u32) -> Scalar>(
    notification: TransferNotification,
    manager: ServerManager,
    client: ClientInfo,
    reason: TransferReason,
    ratio: F,
    now_ms: u64,
    serial: Seq<char>,
)
    requires
        announces(notification, manager, client, reason, ratio, now_ms, serial),
        transfer_obstacle(manager, client) is None,
        manager.wf(),
    ensures
        notification.client_id == client.id,
        notification.from_server.id@ == client.current_server@,
        notification.to_server.id@ != client.current_server@,
        manager.host_of(WorldCoordinate::spec_origin()) matches Some(host)
            && notification.to_server.id == host.id && notification.to_server.addr == host.addr,
        notification.reason == reason,
        notification.estimated_downtime_ms == 100,
{
}

/// The line about a transfer names the client, where it leaves and where it goes, in that
/// order.
pub proof fn lemma_line_names_both_ends(notification: TransferNotification)
    ensures
        ({
            let line = notification.spec_line();
            let start = notification.client_id@ + " from "@ + notification.from_server.id@;
            let end = " to "@ + notification.to_server.id@;
            &&& crate::text::has_prefix(line, start)
            &&& line.skip(start.len() as int) == end
        }),
{
    let line = notification.spec_line();
    let start = notification.client_id@ + " from "@ + notification.from_server.id@;
    let end = " to "@ + notification.to_server.id@;
    assert(line =~= start + end);
    assert(line.take(start.len() as int) =~= start);
    assert(line.skip(start.len() as int) =~= end);
}

} // verus!
