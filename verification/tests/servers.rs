use horizon_atlas::config::GameServerConfig;
use horizon_atlas::errors::AtlasError;
use horizon_atlas::game_server::GameServerManager;
use horizon_atlas::regions::{RegionManager, RegionTransition};
use horizon_atlas::scalar::Scalar;
use horizon_atlas::server_manager::{ServerManager, ServerTransition};
use horizon_atlas::state::{GameServerInfo, RegionBounds, ServerBounds, ServerStatus, Vector3};

fn key(value: f64) -> Scalar {
    Scalar::from_bits(value.to_bits())
}

fn float(value: Scalar) -> f64 {
    f64::from_bits(value.to_bits())
}

fn at(x: f64) -> Vector3 {
    Vector3::new(key(x), key(0.0), key(0.0))
}

fn span(low: f64, high: f64) -> ServerBounds {
    ServerBounds {
        min: Vector3::new(key(low), key(-10.0), key(-10.0)),
        max: Vector3::new(key(high), key(10.0), key(10.0)),
    }
}

fn distance(bounds: ServerBounds, position: Vector3) -> Scalar {
    let gap = |low: Scalar, high: Scalar, p: Scalar| (float(low) + float(high)) / 2.0 - float(p);
    let (dx, dy, dz) = (
        gap(bounds.min.x, bounds.max.x, position.x),
        gap(bounds.min.y, bounds.max.y, position.y),
        gap(bounds.min.z, bounds.max.z, position.z),
    );
    key((dx * dx + dy * dy + dz * dz).sqrt())
}

fn server(id: &str, low: f64, high: f64) -> GameServerInfo {
    GameServerInfo {
        id: id.to_string(),
        address: "127.0.0.1".to_string(),
        port: 1,
        bounds: span(low, high),
        status: ServerStatus::Running,
        player_count: 0,
        last_heartbeat: 0,
    }
}

fn servers() -> ServerManager {
    let mut manager = ServerManager::new(key(50.0), key(20.0));
    manager.register_server(server("a", 0.0, 10.0));
    manager.register_server(server("b", 10.0, 20.0));
    manager.register_server(server("c", 20.0, 30.0));
    manager
}

#[test]
fn boxes_with_named_corners() {
    assert!(span(0.0, 10.0).contains(&at(10.0)));
    assert!(!span(0.0, 10.0).contains(&at(10.5)));
    assert!(!span(0.0, 10.0).contains(&at(f64::NAN)));
    let region = region("r", 0.0, 10.0);
    assert!(region.contains(&at(0.0)));
    assert!(!region.contains(&at(-0.5)));
}

#[test]
fn positions_are_owned_by_the_first_server() {
    let manager = servers();
    assert_eq!(manager.find_server_for_position(&at(5.0)), Some("a".to_string()));
    assert_eq!(manager.find_server_for_position(&at(10.0)), Some("a".to_string()));
    assert_eq!(manager.find_server_for_position(&at(25.0)), Some("c".to_string()));
    assert_eq!(manager.find_server_for_position(&at(99.0)), None);
    assert_eq!(manager.get_server_info("b"), Some(server("b", 10.0, 20.0)));
    assert_eq!(manager.get_server_info("x"), None);
    assert_eq!(manager.get_all_servers().len(), 3);
}

#[test]
fn players_go_to_the_nearest_other_server() {
    let manager = servers();
    let target = |x: f64, current: &str| manager.should_transfer_player(&at(x), current, distance);
    assert_eq!(target(14.0, "b"), Some("a".to_string()));
    assert_eq!(target(16.0, "b"), Some("c".to_string()));
    assert_eq!(target(15.0, "b"), Some("a".to_string()));
    assert_eq!(target(15.0, "x"), Some("b".to_string()));
    assert_eq!(target(45.0, "x"), Some("c".to_string()));
    assert_eq!(target(45.5, "x"), None);
}

#[test]
fn servers_near_a_position() {
    let manager = servers();
    assert_eq!(manager.get_nearby_servers(&at(15.0), key(5.0), distance), vec!["b"]);
    assert_eq!(manager.get_nearby_servers(&at(15.0), key(10.0), distance), vec!["a", "b", "c"]);
    assert!(manager.should_preload_server(&at(55.0), "a", distance));
    assert!(!manager.should_preload_server(&at(55.5), "a", distance));
    assert!(!manager.should_preload_server(&at(5.0), "x", distance));
}

#[test]
fn transfer_paths_have_two_ends() {
    let manager = servers();
    assert_eq!(manager.calculate_transfer_path(&at(5.0), &at(25.0)), vec!["a", "c"]);
    assert!(manager.calculate_transfer_path(&at(5.0), &at(6.0)).is_empty());
    assert!(manager.calculate_transfer_path(&at(5.0), &at(99.0)).is_empty());
    assert!(manager.calculate_transfer_path(&at(99.0), &at(5.0)).is_empty());
}

#[test]
fn servers_leave_with_their_players() {
    let mut manager = servers();
    manager.update_player_position("p".to_string(), at(1.0), "a".to_string());
    manager.update_player_position("q".to_string(), at(11.0), "b".to_string());
    assert!(manager.unregister_server("a"));
    assert!(!manager.unregister_server("a"));
    assert_eq!(manager.player_servers.get("p"), None);
    assert_eq!(manager.player_servers.get("q"), Some(&"b".to_string()));
    assert_eq!(manager.player_positions.get("p"), Some(&at(1.0)));
    assert_eq!(manager.find_server_for_position(&at(5.0)), None);
}

fn region(id: &str, low: f64, high: f64) -> RegionBounds {
    let extent = span(low, high);
    RegionBounds { min: extent.min, max: extent.max, region_id: id.to_string() }
}

fn regions() -> RegionManager {
    let mut manager = RegionManager::new(key(50.0), key(20.0));
    manager.register_region(region("r1", 0.0, 10.0), "a".to_string());
    manager.register_region(region("r2", 10.0, 20.0), "b".to_string());
    manager.register_region(region("r3", 20.0, 30.0), "c".to_string());
    manager
}

#[test]
fn regions_have_servers() {
    let mut manager = regions();
    assert_eq!(manager.find_region_for_position(&at(10.0)), Some("r1".to_string()));
    assert_eq!(manager.find_server_for_position(&at(10.0)), Some("a".to_string()));
    assert_eq!(manager.find_server_for_position(&at(99.0)), None);
    manager.register_region(region("r9", 90.0, 99.0), "a".to_string());
    assert_eq!(manager.find_server_for_position(&at(5.0)), None);
    assert_eq!(manager.find_server_for_position(&at(95.0)), Some("a".to_string()));
    assert_eq!(manager.get_region_bounds("r2"), Some(region("r2", 10.0, 20.0)));
    assert_eq!(manager.get_region_bounds("x"), None);
    assert_eq!(manager.get_all_regions().len(), 4);
}

#[test]
fn dropped_regions_have_no_servers() {
    let mut manager = regions();
    manager.unregister_region("r1");
    assert_eq!(manager.find_region_for_position(&at(5.0)), None);
    assert_eq!(manager.server_assignments.get("a"), None);
    assert_eq!(manager.server_assignments.get("b"), Some(&"r2".to_string()));
    manager.update_player_position("p".to_string(), at(1.0));
    assert_eq!(manager.player_positions.get("p"), Some(&at(1.0)));
}

#[test]
fn players_move_between_regions() {
    let manager = regions();
    assert_eq!(manager.should_transfer_player(&at(16.0), "r2", distance), Some("r3".to_string()));
    assert_eq!(manager.should_transfer_player(&at(99.0), "r2", distance), None);
    assert!(manager.should_preload_region(&at(55.0), "r1", distance));
    assert!(!manager.should_preload_region(&at(56.0), "r1", distance));
    assert!(!manager.should_preload_region(&at(5.0), "x", distance));
    assert_eq!(manager.get_nearby_regions(&at(5.0), key(10.0), distance), vec!["r1", "r2"]);
    assert_eq!(manager.calculate_migration_path(&at(5.0), &at(25.0)), vec!["r1", "r3"]);
    assert!(manager.calculate_migration_path(&at(5.0), &at(5.5)).is_empty());
}

#[test]
fn hand_overs_are_completed() {
    let text = |s: &str| s.to_string();
    let mut between = ServerTransition::new(text("p"), text("a"), text("b"), 5);
    assert!(!between.is_completed() && !between.state_transferred);
    between.complete(9);
    assert_eq!((between.initiated_at, between.completed_at), (5, Some(9)));
    let mut across = RegionTransition::new(text("p"), text("r1"), text("r2"), text("a"), text("b"), 5);
    assert!(!across.is_completed());
    across.complete(9);
    assert!(across.is_completed());
}

fn games() -> GameServerManager {
    GameServerManager::new(GameServerConfig { max_idle_time: 60, startup_timeout: 5 })
}

fn unknown<T>(id: &str) -> Result<T, AtlasError> {
    Err(AtlasError::ServerNotFound { server_id: id.to_string() })
}

#[test]
fn game_servers_start_run_and_stop() {
    let mut games = games();
    games.register_server(server("a", 0.0, 1.0), 100);
    assert_eq!(games.get_server("a").unwrap().status, ServerStatus::Starting);
    assert_eq!(games.get_server("a").unwrap().last_heartbeat, 100);
    assert_eq!(games.find_server_by_bounds("a"), None);
    assert_eq!(games.update_server_heartbeat("a", 110), Ok(()));
    assert_eq!(games.find_server_by_bounds("a").unwrap().last_heartbeat, 110);
    assert_eq!(games.update_player_count("a", 250), Ok(()));
    assert_eq!(games.get_server_capacity("a"), Some((250, 1000)));
    assert_eq!(games.request_server_shutdown("a"), Ok(()));
    assert_eq!(games.get_servers_by_status(ServerStatus::Stopping).len(), 1);
    assert!(games.get_servers_by_status(ServerStatus::Running).is_empty());
    assert_eq!(games.remove_server("a"), Ok(()));
    assert_eq!(games.remove_server("a"), unknown("a"));
    assert_eq!(games.update_server_heartbeat("a", 1), unknown("a"));
    assert_eq!(games.update_player_count("a", 1), unknown("a"));
    assert_eq!(games.request_server_shutdown("a"), unknown("a"));
    assert_eq!(games.get_server_capacity("a"), None);
    assert_eq!(games.get_server("a"), None);
}

#[test]
fn silent_servers_fail() {
    let mut games = games();
    games.register_server(server("a", 0.0, 1.0), 100);
    games.register_server(server("b", 0.0, 1.0), 101);
    games.mark_idle_servers(160);
    assert!(games.get_servers_by_status(ServerStatus::Failed).is_empty());
    games.mark_idle_servers(161);
    let failed: Vec<&str> = games.get_servers_by_status(ServerStatus::Failed).iter().map(|s| s.id.as_str()).collect();
    assert_eq!(failed, vec!["a"]);
}

#[test]
fn the_least_loaded_server_is_running() {
    let mut games = games();
    assert_eq!(games.find_least_loaded_server(), None);
    for (id, players) in [("a", 5), ("b", 3), ("c", 3), ("d", 0)] {
        games.register_server(server(id, 0.0, 1.0), 0);
        assert_eq!(games.update_player_count(id, players), Ok(()));
        if id != "d" {
            assert_eq!(games.update_server_heartbeat(id, 0), Ok(()));
        }
    }
    assert_eq!(games.find_least_loaded_server().unwrap().id, "b");
}

#[test]
fn new_servers_get_ports_in_turn() {
    let mut games = games();
    let first = games.request_server_startup(span(0.0, 1.0), 7);
    let second = games.request_server_startup(span(1.0, 2.0), 8);
    assert_ne!(first, second);
    let made = games.get_server(&first).unwrap();
    assert_eq!((made.port, made.address.as_str(), made.last_heartbeat), (7000, "127.0.0.1", 7));
    assert_eq!((made.status, made.player_count, made.bounds), (ServerStatus::Starting, 0, span(0.0, 1.0)));
    assert_eq!(games.get_server(&second).unwrap().port, 7001);
    assert_eq!(games.get_all_servers().len(), 2);
}

#[test]
fn servers_are_found_by_identifiers_in_any_form() {
    let mut games = games();
    let id = games.request_server_startup(span(0.0, 1.0), 7);
    assert_eq!(games.get_server_by_string(&id).unwrap().id, id);
    let bare: String = id.chars().filter(|c| *c != '-').collect();
    assert_eq!(games.get_server_by_string(&bare).unwrap().id, id);
    assert_eq!(games.get_server_by_string(&format!("urn:uuid:{}", id.to_uppercase())).unwrap().id, id);
    games.startup_with_id("plain".to_string(), span(0.0, 1.0), 7);
    assert_eq!(games.get_server_by_string("plain").unwrap().id, "plain");
    assert_eq!(games.get_server_by_string("x"), None);
    assert_eq!(games.get_server_by_form(&bare, Some(id.clone())).unwrap().id, id);
    assert_eq!(games.get_server_by_form(&bare, None), None);
}
