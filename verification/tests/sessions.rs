use horizon_atlas::client::{ClientIdCounter, ClientInfo, ClientState};
use horizon_atlas::config::{ProxyConfig, ServerConfig};
use horizon_atlas::error::ProxyError;
use horizon_atlas::persistence::{
    DatabaseMetadata, LoadOutcome, PlayerData, PlayerDatabase, PlayerPersistence, SaveOutcome,
};
use horizon_atlas::proxy::{
    check_handshake, forward_data, temporary_client_id, ForwardAction, ForwardEvent, HorizonProxy,
};
use horizon_atlas::scalar::Scalar;
use horizon_atlas::server::ServerManager;
use horizon_atlas::skim::{DataDirection, DataSkimmer, SkimData};
use horizon_atlas::spatial::WorldCoordinate;
use horizon_atlas::transfer::{TransferManager, TransferNotification, TransferReason};

fn key(value: f64) -> Scalar {
    Scalar::from_bits(value.to_bits())
}

fn float(value: Scalar) -> f64 {
    f64::from_bits(value.to_bits())
}

fn at(x: f64, y: f64, z: f64) -> WorldCoordinate {
    WorldCoordinate::new(key(x), key(y), key(z))
}

fn distance(a: WorldCoordinate, b: WorldCoordinate) -> Scalar {
    let (dx, dy, dz) = (float(a.x) - float(b.x), float(a.y) - float(b.y), float(a.z) - float(b.z));
    key((dx * dx + dy * dy + dz * dz).sqrt())
}

fn ratio(active: u32, capacity: u32) -> Scalar {
    key((active as f32 / capacity as f32) as f64)
}

fn difference(a: Scalar, b: Scalar) -> Scalar {
    key((float(a) as f32 - float(b) as f32) as f64)
}

fn seen(client: &str, text: &str, seconds: i64) -> SkimData {
    SkimData {
        client_id: client.to_string(),
        data: text.as_bytes().to_vec(),
        direction: DataDirection::ClientToServer,
        timestamp: seconds * 1_000_000_000,
    }
}

#[test]
fn movement_commands_are_logged() {
    let data = seen("client-1", "{\"client\":\"move\",\"x\":123,\"y\":456}", 1234567890);
    assert_eq!(
        DataSkimmer::process_data(&data),
        vec!["[1234567890] Client client-1 movement detected: {\"client\":\"move\",\"x\":123,\"y\":456}"]
    );
}

#[test]
fn movement_commands_have_three_forms() {
    assert!(DataSkimmer::contains_client_move("..\"client\":\"move\".."));
    assert!(DataSkimmer::contains_client_move("\"type\":\"move\""));
    assert!(DataSkimmer::contains_client_move("\"action\":\"move\""));
    assert!(!DataSkimmer::contains_client_move("\"action\": \"move\""));
    assert!(!DataSkimmer::contains_client_move("\"action\":\"mov"));
    assert!(!DataSkimmer::contains_client_move(""));
}

#[test]
fn the_line_with_the_command_is_picked_out() {
    let text = "first\r\n \t {\"type\":\"move\"} \u{3000}\n{\"action\":\"move\"}";
    assert_eq!(DataSkimmer::extract_move_info(text), "{\"type\":\"move\"}");
    assert_eq!(DataSkimmer::extract_move_info("nothing here"), "Movement data");
    assert_eq!(DataSkimmer::extract_move_info("\"client\":\n\"move\""), "Movement data");
}

#[test]
fn game_events_are_logged_in_order() {
    let text = "{\"type\":\"connect\"}{\"event\":\"leave\"}{\"error\":1}";
    assert_eq!(
        DataSkimmer::analyze_game_events(text, "c"),
        vec![
            "[GAME] Client c connected".to_string(),
            "[GAME] Client c disconnected".to_string(),
            format!("[GAME] Error detected for client c: {}", text),
        ]
    );
    assert_eq!(DataSkimmer::analyze_game_events("{\"event\":\"join\"}", "c"), vec!["[GAME] Client c connected"]);
    assert_eq!(
        DataSkimmer::analyze_game_events("{\"type\":\"disconnect\"}", "c"),
        vec!["[GAME] Client c disconnected"]
    );
    assert_eq!(DataSkimmer::analyze_game_events("{\"status\":\"error\"}", "c").len(), 1);
    assert!(DataSkimmer::analyze_game_events("{}", "c").is_empty());
}

#[test]
fn data_waits_until_it_is_looked_at() {
    let mut skimmer = DataSkimmer::new();
    let data = |text: &str| text.as_bytes().to_vec();
    skimmer.skim("a".to_string(), data("{\"event\":\"join\"}"), DataDirection::ClientToServer, 5);
    skimmer.skim("b".to_string(), vec![0xff, 0xfe], DataDirection::ServerToClient, 6);
    skimmer.skim("c".to_string(), data("\"type\":\"move\""), DataDirection::ServerToClient, -7);
    assert_eq!(skimmer.waiting.len(), 3);
    assert_eq!(
        skimmer.skim_worker(),
        vec!["[GAME] Client a connected", "[0] Client c movement detected: \"type\":\"move\""]
    );
    assert!(skimmer.waiting.is_empty());
    assert!(skimmer.skim_worker().is_empty());
}

fn player(id: &str, x: f64, server: &str) -> PlayerData {
    PlayerData::new(id.to_string(), at(x, 0.0, 0.0), server.to_string(), 1000)
}

#[test]
fn player_records() {
    let mut record = player("p", 1.0, "s");
    assert_eq!(record.last_updated, 1000);
    record.update_position(at(2.0, 0.0, 0.0), at(1.0, 0.0, 0.0), 2000);
    assert_eq!(record.last_position, at(2.0, 0.0, 0.0));
    assert_eq!(record.movement_data.position, at(2.0, 0.0, 0.0));
    assert_eq!(record.movement_data.velocity, at(1.0, 0.0, 0.0));
    assert_eq!(record.last_updated, 2000);
    record.update_server("t".to_string(), 3000);
    assert_eq!((record.last_server.as_str(), record.last_updated), ("t", 3000));
    assert_eq!(record.get_session_data("k"), None);
    record.set_session_data("k".to_string(), "[1,2]".to_string(), 4000);
    assert_eq!(record.get_session_data("k"), Some(&"[1,2]".to_string()));
    assert_eq!(record.last_updated, 4000);
}

#[test]
fn players_are_kept_and_found() {
    let mut store = PlayerPersistence::new("file", 30, 500);
    assert_eq!(store.cache.metadata.version, "1.0.0");
    store.update_player(player("a", 0.0, "s"));
    store.update_player(player("b", 5.0, "t"));
    store.update_player(player("c", 9.0, "s"));
    assert_eq!(store.get_player("b").map(|p| p.last_server.clone()), Some("t".to_string()));
    let ids = |players: Vec<&PlayerData>| -> Vec<String> { players.iter().map(|p| p.player_id.clone()).collect() };
    assert_eq!(ids(store.get_players_in_region("s")), vec!["a", "c"]);
    assert_eq!(ids(store.get_players_near(at(7.0, 0.0, 0.0), key(2.0), distance)), vec!["b", "c"]);
    assert_eq!(store.get_all_player_ids(), vec!["a", "b", "c"]);
    assert_eq!(store.update_player_position("a", at(1.0, 0.0, 0.0), at(0.0, 0.0, 0.0), 2000), Ok(()));
    assert_eq!(store.update_player_server("a", "u", 2500), Ok(()));
    assert_eq!(store.get_player("a").map(|p| p.last_updated), Some(2500));
    let unknown = Err(ProxyError::Client("Player x not found".to_string()));
    assert_eq!(store.update_player_position("x", at(1.0, 0.0, 0.0), at(0.0, 0.0, 0.0), 2000), unknown);
    assert_eq!(store.update_player_server("x", "u", 2500), unknown);
    assert_eq!(store.get_stats(), (3, 500, 500));
    assert_eq!(store.remove_player("a").map(|p| p.player_id), Some("a".to_string()));
    assert!(store.remove_player("a").is_none());
    assert_eq!(store.get_stats(), (2, 500, 500));
}

#[test]
fn saving_notes_the_time_and_the_count() {
    let mut store = PlayerPersistence::new("file", 30, 500);
    store.update_player(player("a", 0.0, "s"));
    assert!(store.should_auto_save(30));
    assert!(!store.should_auto_save(29));
    store.prepare_save(7000);
    assert_eq!((store.cache.metadata.last_saved, store.cache.metadata.player_count), (7000, 1));
    let config = |text: &str| Err(ProxyError::Config(text.to_string()));
    let cause = || "no".to_string();
    assert_eq!(
        store.finish_save(SaveOutcome::NotCreated(cause()), 9),
        config("Failed to create player data file: no")
    );
    assert_eq!(store.finish_save(SaveOutcome::NotWritten(cause()), 9), config("Failed to write player data: no"));
    assert_eq!(store.last_save, 0);
    assert_eq!(store.finish_save(SaveOutcome::Written, 9), Ok(()));
    assert_eq!(store.last_save, 9);
    assert!(!store.should_auto_save(38));
    assert!(store.should_auto_save(39));
}

#[test]
fn saved_players_load() {
    let mut store = PlayerPersistence::new("file", 30, 500);
    store.update_player(player("kept", 0.0, "s"));
    assert_eq!(store.load(LoadOutcome::Missing), Ok(()));
    let config = |text: &str| Err(ProxyError::Config(text.to_string()));
    assert_eq!(
        store.load(LoadOutcome::NotOpened("no".to_string())),
        config("Failed to open player data file: no")
    );
    assert_eq!(
        store.load(LoadOutcome::NotParsed("no".to_string())),
        config("Failed to parse player data: no")
    );
    assert_eq!(store.get_all_player_ids(), vec!["kept"]);
    let metadata =
        DatabaseMetadata { version: "1.0.0".to_string(), last_saved: 1, player_count: 2, created: 0 };
    let filed = |key: &str, record: PlayerData| (key.to_string(), record);
    let records = vec![
        filed("a", player("a", 0.0, "s")),
        filed("b", player("b", 0.0, "s")),
        filed("a", player("renamed", 3.0, "t")),
    ];
    let database = PlayerDatabase::from_records(records, metadata);
    assert_eq!(store.load(LoadOutcome::Read(database)), Ok(()));
    assert_eq!(store.get_all_player_ids(), vec!["a", "b"]);
    assert_eq!(store.get_player("a").map(|p| p.last_server.clone()), Some("t".to_string()));
    assert_eq!(store.get_player("a").map(|p| p.player_id.clone()), Some("renamed".to_string()));
    assert_eq!(store.get_stats(), (2, 0, 1));
}

fn client_on(server: &str) -> ClientInfo {
    let mut client =
        ClientInfo::new("127.0.0.1:5".to_string(), server.to_string(), &mut ClientIdCounter::new(), 0);
    client.set_state(ClientState::Connected);
    client
}

fn transfer_error(text: &str) -> ProxyError {
    ProxyError::Transfer(text.to_string())
}

#[test]
fn transfers_are_announced_and_carried_out() {
    let mut manager = ServerManager::new(ProxyConfig::default());
    assert_eq!(manager.increment_connections("game-server-2", &ratio), Ok(()));
    let mut transfers = TransferManager::new();
    let mut client = client_on("game-server-2");
    let note = transfers
        .initiate_transfer(&manager, &mut client, TransferReason::ClientRequested, &ratio, 1234)
        .unwrap();
    assert_eq!(note.client_id, "client-0");
    assert_eq!(note.from_server.id, "game-server-2");
    assert_eq!(note.from_server.addr, "127.0.0.1:8081");
    assert_eq!(note.from_server.health_status, "healthy");
    assert_eq!(note.from_server.load, ratio(1, 1000));
    assert_eq!(note.to_server.id, "game-server-1");
    assert_eq!(note.reason, TransferReason::ClientRequested);
    assert_eq!(note.estimated_downtime_ms, 100);
    assert_eq!(note.transfer_token, "transfer-1234-0");
    assert_eq!(
        client.state,
        ClientState::Transferring {
            from_server: "game-server-2".to_string(),
            to_server: "game-server-1".to_string()
        }
    );
    assert_eq!(transfers.execute_transfer(&mut manager, &mut client, &note, Ok(()), &ratio), Ok(()));
    assert_eq!(client.state, ClientState::Connected);
    assert_eq!(client.current_server, "game-server-1");
    assert_eq!(note.line(), "client-0 from game-server-2 to game-server-1");
    assert_eq!(manager.get_server("game-server-1").unwrap().active_connections, 1);
    assert_eq!(manager.get_server("game-server-2").unwrap().active_connections, 0);
    assert_eq!(manager.get_server("game-server-3").unwrap().active_connections, 0);
}

#[test]
fn transfers_that_cannot_be_made() {
    let mut manager = ServerManager::new(ProxyConfig::default());
    let mut transfers = TransferManager::new();
    let mut attempt = |manager: &ServerManager, client: &mut ClientInfo| {
        transfers.initiate_transfer(manager, client, TransferReason::Maintenance, &ratio, 0).unwrap_err()
    };
    let mut connecting = client_on("game-server-2");
    connecting.set_state(ClientState::Connecting);
    assert_eq!(attempt(&manager, &mut connecting), transfer_error("Client is not in a transferable state"));
    let mut settled = client_on("game-server-1");
    assert_eq!(attempt(&manager, &mut settled), transfer_error("No better server available for transfer"));
    assert_eq!(settled.state, ClientState::Connected);
    let mut stray = client_on("x");
    assert_eq!(attempt(&manager, &mut stray), transfer_error("From server x not found"));
    assert_eq!(manager.update_server_health("game-server-1", false), Ok(()));
    let mut stuck = client_on("game-server-2");
    assert_eq!(attempt(&manager, &mut stuck), transfer_error("No available servers for transfer"));
}

#[test]
fn transfers_to_servers_that_are_gone() {
    let mut manager = ServerManager::new(ProxyConfig::default());
    let mut transfers = TransferManager::new();
    let mut client = client_on("game-server-2");
    let mut note = transfers
        .initiate_transfer(&manager, &mut client, TransferReason::ServerFailure, &ratio, 0)
        .unwrap();
    assert_eq!(manager.increment_connections("game-server-2", &ratio), Ok(()));
    note.to_server.id = "gone".to_string();
    let gone = |id: &str| Err(ProxyError::Connection(format!("Server {} not found", id)));
    let mut attempt = |manager: &mut ServerManager, note: &TransferNotification, reached: bool| {
        let connection = if reached { Ok(()) } else { Err("refused".to_string()) };
        transfers.execute_transfer(manager, &mut client, note, connection, &ratio)
    };
    assert_eq!(attempt(&mut manager, &note, true), gone("gone"));
    note.to_server.id = "game-server-1".to_string();
    let refused = ProxyError::Connection("Failed to connect to server game-server-1: refused".to_string());
    assert_eq!(attempt(&mut manager, &note, false), Err(refused));
    assert_eq!(manager.update_server_health("game-server-1", false), Ok(()));
    let unhealthy = ProxyError::Connection("Server game-server-1 is unhealthy".to_string());
    assert_eq!(attempt(&mut manager, &note, true), Err(unhealthy));
    assert_eq!(manager.update_server_health("game-server-1", true), Ok(()));
    assert_eq!(manager.get_server("game-server-2").unwrap().active_connections, 1);
    note.from_server.id = "lost".to_string();
    assert_eq!(attempt(&mut manager, &note, true), gone("lost"));
    assert_eq!(manager.get_server("game-server-1").unwrap().active_connections, 0);
    assert!(matches!(client.state, ClientState::Transferring { .. }));
}

fn loaded(active: u32, best: u32) -> ServerManager {
    let mut config = ProxyConfig::default();
    config.servers[1].active_connections = active;
    config.servers[0].active_connections = best;
    ServerManager::new(config)
}

#[test]
fn overloaded_servers_give_clients_away() {
    let transfers = TransferManager::new();
    let should = |manager: &ServerManager, server: &str| {
        transfers.should_transfer_for_load_balancing(manager, &client_on(server), &ratio, &difference)
    };
    assert!(should(&loaded(900, 100), "game-server-2"));
    assert!(!should(&loaded(800, 100), "game-server-2"));
    assert!(should(&loaded(801, 100), "game-server-2"));
    assert!(!should(&loaded(900, 700), "game-server-2"));
    assert!(should(&loaded(900, 699), "game-server-2"));
    assert!(should(&loaded(0, 0), "unknown"));
    let fifth = |_: Scalar, _: Scalar| Scalar::from_bits(f64::from(0.2f32).to_bits());
    let busy = client_on("game-server-2");
    assert!(transfers.should_transfer_for_load_balancing(&loaded(900, 100), &busy, &ratio, &fifth));
    let mut alone = loaded(900, 100);
    assert_eq!(alone.update_server_health("game-server-1", false), Ok(()));
    assert!(!should(&alone, "game-server-2"));
}

#[test]
fn clients_are_balanced_in_order() {
    let mut transfers = TransferManager::new();
    let manager = loaded(900, 100);
    let mut busy = client_on("game-server-2");
    busy.set_state(ClientState::Connecting);
    let mut clients = vec![client_on("game-server-2"), client_on("game-server-3"), busy, client_on("game-server-2")];
    clients[3].id = "last".to_string();
    let notes =
        transfers.auto_transfer_for_load_balancing(&manager, &mut clients, &ratio, &difference, 77);
    let ids: Vec<&str> = notes.iter().map(|n| n.client_id.as_str()).collect();
    assert_eq!(ids, vec!["client-0", "last"]);
    assert_eq!(notes[0].reason, TransferReason::LoadBalancing);
    let tokens: Vec<&str> = notes.iter().map(|n| n.transfer_token.as_str()).collect();
    assert_eq!(tokens, vec!["transfer-77-0", "transfer-77-1"]);
    assert_eq!(transfers.generate_transfer_token(77), "transfer-77-2");
    assert!(matches!(clients[0].state, ClientState::Transferring { .. }));
    assert_eq!(clients[1].state, ClientState::Connected);
    assert_eq!(clients[2].state, ClientState::Connecting);
    assert!(matches!(clients[3].state, ClientState::Transferring { .. }));
}

#[test]
fn tokens_stay_unique_when_numbers_start_over() {
    let mut transfers = TransferManager { next: u64::MAX, laps: String::new() };
    assert_eq!(transfers.generate_transfer_token(1), "transfer-1-18446744073709551615");
    assert_eq!(transfers.generate_transfer_token(1), "transfer-1-~0");
    assert_eq!(transfers.generate_transfer_token(1), "transfer-1-~1");
}

#[test]
fn reasons_for_transfers_have_names() {
    assert_eq!(TransferReason::LoadBalancing.name(), "LoadBalancing");
    assert_eq!(TransferReason::Maintenance.name(), "Maintenance");
    assert_eq!(TransferReason::ServerFailure.name(), "ServerFailure");
    assert_eq!(TransferReason::Administrative.name(), "Administrative");
    assert_eq!(TransferReason::ClientRequested.name(), "ClientRequested");
}

#[test]
fn handshakes_need_both_sides() {
    let closed = |side: &str| {
        Err(ProxyError::Connection(format!("{} closed connection during handshake", side)))
    };
    assert_eq!(check_handshake(10, 10), Ok(()));
    assert_eq!(check_handshake(0, 0), closed("Client"));
    assert_eq!(check_handshake(5, 0), closed("Server"));
    assert_eq!(temporary_client_id("127.0.0.1", 4242), "temp-127.0.0.1-4242");
}

#[test]
fn new_clients_spawn_and_return() {
    let mut proxy = HorizonProxy::new(ProxyConfig::default(), 100);
    assert_eq!(proxy.player_persistence.file_path, "player_positions.json");
    assert_eq!(proxy.find_server_for_client("c", 200).unwrap().id, "game-server-1");
    let record = proxy.player_persistence.get_player("c").unwrap();
    assert_eq!(record.last_server, "game-server-1");
    assert_eq!(record.last_position, WorldCoordinate::origin());
    assert_eq!(record.last_updated, 200);
    assert_eq!(proxy.find_server_for_client("c", 300).unwrap().id, "game-server-1");
    assert_eq!(proxy.player_persistence.get_player("c").unwrap().last_updated, 200);
    let moved = at(1500.0, 0.0, 0.0);
    assert_eq!(proxy.player_persistence.update_player_position("c", moved, moved, 400), Ok(()));
    assert_eq!(proxy.find_server_for_client("c", 500).unwrap().id, "game-server-2");
    let lost = at(99999.0, 0.0, 0.0);
    assert_eq!(proxy.player_persistence.update_player_position("c", lost, lost, 600), Ok(()));
    assert_eq!(proxy.find_server_for_client("c", 700).unwrap().id, "game-server-1");
    assert_eq!(proxy.player_persistence.get_player("c").unwrap().last_position, WorldCoordinate::origin());
}

#[test]
fn clients_without_regions_get_any_server_with_room() {
    let mut config = ProxyConfig::default();
    config.regions.clear();
    config.servers[0].capacity = 0;
    let mut proxy = HorizonProxy::new(config, 0);
    assert_eq!(proxy.find_server_for_client("c", 1).unwrap().id, "game-server-2");
    assert!(proxy.player_persistence.get_player("c").is_none());
    proxy.config.servers[1].healthy = false;
    proxy.config.servers[2].healthy = false;
    let none = ProxyError::Connection("No available servers".to_string());
    assert_eq!(proxy.find_server_for_client("c", 2).unwrap_err(), none);
    assert_eq!(proxy.connect_client("c", "a".to_string(), &ratio, 0, 0).unwrap_err(), none);
    assert_eq!(proxy.get_stats().active_connections, 0);
}

#[test]
fn a_visit_leaves_no_trace() {
    let mut proxy = HorizonProxy::new(ProxyConfig::default(), 0);
    let visitor = temporary_client_id("10.0.0.1", 7);
    let (client, server) = proxy.connect_client(&visitor, "10.0.0.1:7".to_string(), &ratio, 11, 22).unwrap();
    assert_eq!((client.as_str(), server.as_str()), ("client-0", "game-server-1"));
    let info = proxy.active_connections.get("client-0").unwrap();
    assert_eq!((info.addr.as_str(), info.connected_at), ("10.0.0.1:7", 11));
    assert_eq!(info.state, ClientState::Connecting);
    let stats = proxy.get_stats();
    assert_eq!((stats.active_connections, stats.total_servers, stats.healthy_servers), (1, 3, 3));
    assert_eq!(stats.server_details[0].active_connections, 1);
    let gone = proxy.disconnect_client(&client, &ratio).unwrap().unwrap();
    assert_eq!(gone.state, ClientState::Disconnected);
    let stats = proxy.get_stats();
    assert_eq!(stats.active_connections, 0);
    assert_eq!(stats.server_details[0].active_connections, 0);
    assert!(proxy.disconnect_client("nobody", &ratio).unwrap().is_none());
}

#[test]
fn transferred_clients_leave_their_new_server() {
    let mut proxy = HorizonProxy::new(ProxyConfig::default(), 0);
    assert_eq!(proxy.server_manager.regions.len(), 3);
    let (client, _) = proxy.connect_client("v", "a".to_string(), &ratio, 0, 0).unwrap();
    let at_home = proxy.active_connections.find(&client).unwrap();
    proxy.active_connections.value_at_mut(at_home).current_server = "game-server-2".to_string();
    let count = |proxy: &HorizonProxy, id: &str| proxy.server_manager.get_server(id).unwrap().active_connections;
    assert_eq!(proxy.server_manager.decrement_connections("game-server-1", &ratio), Ok(()));
    assert_eq!(proxy.server_manager.increment_connections("game-server-2", &ratio), Ok(()));
    let info = proxy.active_connections.value_at_mut(at_home);
    info.set_state(ClientState::Connected);
    let note = proxy
        .transfer_manager
        .initiate_transfer(&proxy.server_manager, info, TransferReason::Administrative, &ratio, 5)
        .unwrap();
    let moved = proxy.transfer_manager.execute_transfer(&mut proxy.server_manager, info, &note, Ok(()), &ratio);
    assert_eq!(moved, Ok(()));
    assert_eq!((count(&proxy, "game-server-1"), count(&proxy, "game-server-2")), (1, 0));
    let gone = proxy.disconnect_client(&client, &ratio).unwrap().unwrap();
    assert_eq!(gone.current_server, "game-server-1");
    assert_eq!((count(&proxy, "game-server-1"), count(&proxy, "game-server-2")), (0, 0));
}

#[test]
fn data_is_passed_on_until_a_side_is_closed() {
    assert_eq!(forward_data(ForwardEvent::Read(7)), ForwardAction::Pass(7));
    assert_eq!(forward_data(ForwardEvent::Written(7)), ForwardAction::Count(7));
    assert_eq!(forward_data(ForwardEvent::Read(0)), ForwardAction::Stop);
    assert_eq!(forward_data(ForwardEvent::Broken), ForwardAction::Stop);
}

#[test]
fn clients_of_servers_that_are_not_managed() {
    let mut proxy = HorizonProxy::new(ProxyConfig::default(), 0);
    let mut other = ServerConfig::new("127.0.0.1:9".to_string(), "other".to_string());
    other.healthy = false;
    proxy.config.regions[0].server_id = "other".to_string();
    proxy.config.servers.push(other);
    assert_eq!(
        proxy.connect_client("v", "a".to_string(), &ratio, 0, 0).unwrap_err(),
        ProxyError::Connection("Server other not found".to_string())
    );
    assert_eq!(proxy.get_stats().active_connections, 1);
    assert_eq!(
        proxy.disconnect_client("client-0", &ratio).unwrap_err(),
        ProxyError::Connection("Server other not found".to_string())
    );
    let _ = proxy.server_manager.update_server_health("game-server-3", false);
    assert_eq!(proxy.get_stats().healthy_servers, 2);
}
