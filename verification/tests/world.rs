use horizon_atlas::config::{LoadBalanceAlgorithm, ProxyConfig, ServerConfig, SpatialConfig};
use horizon_atlas::error::ProxyError;
use horizon_atlas::scalar::Scalar;
use horizon_atlas::server::ServerManager;
use horizon_atlas::spatial::{MovementData, RegionCoordinate, ServerRegion, WorldCoordinate};

fn key(value: f64) -> Scalar {
    Scalar::from_bits(value.to_bits())
}

fn float(value: Scalar) -> f64 {
    f64::from_bits(value.to_bits())
}

fn at(x: f64, y: f64, z: f64) -> WorldCoordinate {
    WorldCoordinate::new(key(x), key(y), key(z))
}

fn distance(a: WorldCoordinate, b: WorldCoordinate) -> Scalar {
    let (dx, dy, dz) = (float(a.x) - float(b.x), float(a.y) - float(b.y), float(a.z) - float(b.z));
    key((dx * dx + dy * dy + dz * dz).sqrt())
}

fn ratio(active: u32, capacity: u32) -> Scalar {
    key(active as f64 / capacity as f64)
}

fn predict(position: WorldCoordinate, velocity: WorldCoordinate, seconds: Scalar) -> WorldCoordinate {
    let step = |p: Scalar, v: Scalar| float(p) + float(v) * float(seconds);
    at(step(position.x, velocity.x), step(position.y, velocity.y), step(position.z, velocity.z))
}

fn to_boundary(center: WorldCoordinate, bounds: Scalar, point: WorldCoordinate) -> Scalar {
    let gap = |c: Scalar, p: Scalar| float(bounds) - (float(p) - float(c)).abs();
    key(gap(center.x, point.x).min(gap(center.y, point.y)).min(gap(center.z, point.z)).abs())
}

#[test]
fn grid_distances() {
    let a = RegionCoordinate::new(1, -2, 3);
    assert_eq!(RegionCoordinate::center().manhattan_distance(&a), 6);
    assert_eq!(a.manhattan_distance(&RegionCoordinate::center()), 6);
    assert_eq!(a.manhattan_distance(&a), 0);
    let far = RegionCoordinate::new(i64::MAX, 0, 0);
    assert_eq!(far.manhattan_distance(&RegionCoordinate::center()), i64::MAX);
}

#[test]
fn six_neighbours_one_step_away() {
    let a = RegionCoordinate::new(5, 0, -5);
    let neighbours = a.adjacent_regions();
    assert_eq!(
        neighbours,
        vec![
            RegionCoordinate::new(6, 0, -5),
            RegionCoordinate::new(4, 0, -5),
            RegionCoordinate::new(5, 1, -5),
            RegionCoordinate::new(5, -1, -5),
            RegionCoordinate::new(5, 0, -4),
            RegionCoordinate::new(5, 0, -6),
        ]
    );
    for neighbour in neighbours {
        assert_eq!(a.manhattan_distance(&neighbour), 1);
    }
}

#[test]
fn regions_contain_their_boundary() {
    let region = ServerRegion::new(
        "s".to_string(),
        RegionCoordinate::center(),
        at(10.0, 0.0, 0.0),
        key(5.0),
        at(5.0, -5.0, -5.0),
        at(15.0, 5.0, 5.0),
    );
    assert!(region.healthy);
    assert_eq!(region.load, key(0.0));
    assert!(region.contains_point(&at(5.0, 5.0, -5.0)));
    assert!(!region.contains_point(&at(4.999, 0.0, 0.0)));
    assert!(!region.contains_point(&at(10.0, f64::NAN, 0.0)));
    let beyond = |center: WorldCoordinate, bounds: Scalar, point: WorldCoordinate| {
        key(float(point.x) - float(center.x) - float(bounds))
    };
    assert!(region.is_approaching_boundary(&at(115.0, 0.0, 0.0), key(100.0), beyond));
    assert!(!region.is_approaching_boundary(&at(115.5, 0.0, 0.0), key(100.0), beyond));
    assert!(!region.is_approaching_boundary(&at(f64::NAN, 0.0, 0.0), key(100.0), beyond));
}

#[test]
fn movement_keeps_ten_positions() {
    let mut movement = MovementData::new(at(0.0, 0.0, 0.0), 1000);
    assert_eq!(movement.position_history.len(), 1);
    for i in 1..=12u64 {
        movement.update_position(at(i as f64, 0.0, 0.0), 1000 + 100 * i, at(10.0, 0.0, 0.0));
    }
    assert_eq!(movement.position_history.len(), 10);
    assert_eq!(movement.position_history[0], (at(3.0, 0.0, 0.0), 1300));
    assert_eq!(movement.position_history[9], (at(12.0, 0.0, 0.0), 2200));
    assert_eq!(movement.previous_position, at(11.0, 0.0, 0.0));
    assert_eq!(movement.velocity, at(10.0, 0.0, 0.0));
}

#[test]
fn movement_at_the_same_time_keeps_the_velocity() {
    let mut movement = MovementData::new(at(0.0, 0.0, 0.0), 1000);
    movement.update_position(at(1.0, 0.0, 0.0), 1000, at(99.0, 0.0, 0.0));
    assert_eq!(movement.position, at(1.0, 0.0, 0.0));
    assert_eq!(movement.previous_position, at(0.0, 0.0, 0.0));
    assert_eq!(movement.velocity, WorldCoordinate::origin());
    assert_eq!(movement.average_span(1000), None);
}

#[test]
fn averages_span_the_recent_positions() {
    let mut movement = MovementData::new(at(0.0, 0.0, 0.0), 10_000);
    assert_eq!(movement.average_span(5000), None);
    movement.update_position(at(1.0, 0.0, 0.0), 12_000, at(0.5, 0.0, 0.0));
    movement.update_position(at(5.0, 0.0, 0.0), 14_000, at(2.0, 0.0, 0.0));
    assert_eq!(movement.average_span(2000), Some((at(1.0, 0.0, 0.0), at(5.0, 0.0, 0.0), 2000)));
    assert_eq!(movement.average_span(1999), None);
    assert_eq!(movement.average_span(5000), Some((at(0.0, 0.0, 0.0), at(5.0, 0.0, 0.0), 4000)));
    let velocity = |a: WorldCoordinate, b: WorldCoordinate, millis: u64| {
        at((float(b.x) - float(a.x)) * 1000.0 / millis as f64, 0.0, 0.0)
    };
    assert_eq!(movement.get_average_velocity(5000, velocity), at(1.25, 0.0, 0.0));
    assert_eq!(movement.get_average_velocity(1999, velocity), at(2.0, 0.0, 0.0));
}

#[test]
fn the_default_configuration() {
    let config = ProxyConfig::default();
    assert_eq!(config.listen_addr, "0.0.0.0:9000");
    let servers: Vec<(&str, &str)> = config.servers.iter().map(|s| (s.id.as_str(), s.addr.as_str())).collect();
    assert_eq!(
        servers,
        vec![
            ("game-server-1", "127.0.0.1:8080"),
            ("game-server-2", "127.0.0.1:8081"),
            ("game-server-3", "127.0.0.1:8082"),
        ]
    );
    assert_eq!(config.buffer_size, 4096);
    assert_eq!(config.max_connections, 10000);
    let spatial = SpatialConfig::default();
    assert_eq!(float(spatial.default_region_size), 1000.0);
    assert_eq!(float(spatial.prediction_time), 5.0);
    assert_eq!(float(spatial.boundary_threshold), 100.0);
    assert_eq!(spatial.player_data_file, "player_positions.json");
    assert_eq!(spatial.auto_save_interval, 30);
    let region = |p| config.find_region_for_position(&p).map(|r| r.server_id.clone());
    assert_eq!(region(at(0.0, 0.0, 0.0)), Some("game-server-1".to_string()));
    assert_eq!(region(at(1500.0, 0.0, 0.0)), Some("game-server-2".to_string()));
    assert_eq!(region(at(-2999.0, 1000.0, 0.0)), Some("game-server-3".to_string()));
    assert_eq!(region(at(1000.0, 0.0, 0.0)), Some("game-server-1".to_string()));
    assert_eq!(region(at(3000.5, 0.0, 0.0)), None);
    for (i, center) in [0.0, 2000.0, -2000.0].iter().enumerate() {
        assert_eq!(float(config.regions[i].center.x), *center);
        assert_eq!(float(config.regions[i].low.x), center - 1000.0);
        assert_eq!(float(config.regions[i].high.x), center + 1000.0);
        assert_eq!(float(config.regions[i].high.y), 1000.0);
        assert_eq!(float(config.regions[i].low.z), -1000.0);
    }
}

#[test]
fn configurations_need_addresses_and_servers() {
    let ok = |s: &str| Ok(s.to_string());
    let config = ProxyConfig::new(ok("0.0.0.0:1"), vec![(ok("127.0.0.1:2"), "a".to_string())]).unwrap();
    assert_eq!(config.listen_addr, "0.0.0.0:1");
    assert_eq!(config.servers, vec![ServerConfig::new("127.0.0.1:2".to_string(), "a".to_string())]);
    assert_eq!(config.get_server_by_id("a").map(|s| s.addr.as_str()), Some("127.0.0.1:2"));
    assert_eq!(config.get_server_by_id("b"), None);
    let error = ProxyConfig::new(ok("0.0.0.0:1"), vec![]).unwrap_err();
    assert_eq!(error, ProxyError::Config("At least one server must be configured".to_string()));
    let error = ProxyConfig::new(Err("first".to_string()), vec![(Err("second".to_string()), "a".to_string())]);
    assert_eq!(error.unwrap_err(), ProxyError::AddrParse("first".to_string()));
    let error = ProxyConfig::new(
        ok("0.0.0.0:1"),
        vec![(ok("127.0.0.1:2"), "a".to_string()), (Err("second".to_string()), "b".to_string())],
    );
    assert_eq!(error.unwrap_err(), ProxyError::AddrParse("second".to_string()));
}

fn three_servers() -> ProxyConfig {
    let mut config = ProxyConfig::default();
    config.servers[0].active_connections = 5;
    config.servers[1].active_connections = 2;
    config.servers[2].active_connections = 2;
    config
}

#[test]
fn least_connections_picks_the_first_of_the_emptiest() {
    let mut config = three_servers();
    assert_eq!(config.get_best_server(0).unwrap().id, "game-server-2");
    config.servers[1].healthy = false;
    assert_eq!(config.get_best_server(0).unwrap().id, "game-server-3");
    config.servers[2].capacity = 2;
    assert_eq!(config.get_best_server(0).unwrap().id, "game-server-1");
    config.servers[0].healthy = false;
    assert_eq!(config.get_best_server(0), None);
}

#[test]
fn round_robin_cycles_through_the_servers() {
    let mut config = three_servers();
    config.load_balance_algorithm = LoadBalanceAlgorithm::RoundRobin;
    let ids: Vec<String> = (0..4).map(|_| config.get_best_server(9).unwrap().id.clone()).collect();
    assert_eq!(ids, vec!["game-server-1", "game-server-2", "game-server-3", "game-server-1"]);
    assert_eq!(config.turn, 1);
    config.load_balance_algorithm = LoadBalanceAlgorithm::Random;
    assert_eq!(config.get_best_server(5).unwrap().id, "game-server-3");
    config.servers[1].healthy = false;
    assert_eq!(config.get_best_server(5).unwrap().id, "game-server-3");
    assert_eq!(config.get_best_server(6).unwrap().id, "game-server-1");
}

#[test]
fn loads_are_shares_of_the_capacity() {
    let mut server = ServerConfig::new("a".to_string(), "s".to_string());
    assert!(server.can_accept_connections());
    server.active_connections = 250;
    assert_eq!(float(server.load_percentage(&ratio)), 0.25);
    server.capacity = 0;
    assert_eq!(float(server.load_percentage(&ratio)), 1.0);
    assert!(!server.can_accept_connections());
}

#[test]
fn connections_are_counted() {
    let mut manager = ServerManager::new(ProxyConfig::default());
    assert_eq!(manager.increment_connections("game-server-1", &ratio), Ok(()));
    assert_eq!(manager.get_server("game-server-1").unwrap().active_connections, 1);
    assert_eq!(float(manager.get_server("game-server-1").unwrap().load), 0.001);
    assert_eq!(manager.decrement_connections("game-server-1", &ratio), Ok(()));
    assert_eq!(manager.decrement_connections("game-server-1", &ratio), Ok(()));
    assert_eq!(manager.get_server("game-server-1").unwrap().active_connections, 0);
    let unknown = Err(ProxyError::Connection("Server x not found".to_string()));
    assert_eq!(manager.increment_connections("x", &ratio), unknown);
    assert_eq!(manager.decrement_connections("x", &ratio), unknown);
    assert_eq!(float(manager.get_server_load("x", &ratio)), 1.0);
    assert_eq!(float(manager.get_server_load("game-server-1", &ratio)), 0.0);
    assert_eq!(manager.get_server("x"), None);
}

#[test]
fn only_known_healthy_servers_are_connected_to() {
    let mut manager = ServerManager::new(ProxyConfig::default());
    assert_eq!(manager.connect_to_server("game-server-2").unwrap().addr, "127.0.0.1:8081");
    assert_eq!(
        manager.connect_to_server("x").unwrap_err(),
        ProxyError::Connection("Server x not found".to_string())
    );
    assert!(!manager.health_check("game-server-2", false));
    assert!(!manager.can_accept_connections("game-server-2"));
    assert_eq!(
        manager.connect_to_server("game-server-2").unwrap_err(),
        ProxyError::Connection("Server game-server-2 is unhealthy".to_string())
    );
    assert!(manager.health_check("game-server-2", true));
    assert!(manager.can_accept_connections("game-server-2"));
    assert!(!manager.health_check("x", true));
    assert!(!manager.can_accept_connections("x"));
    assert_eq!(
        manager.update_server_health("x", true),
        Err(ProxyError::Connection("Server x not found".to_string()))
    );
    assert_eq!(
        ServerManager::connection_failed("s", "refused"),
        ProxyError::Connection("Failed to connect to server s: refused".to_string())
    );
    assert_eq!(manager.get_server_stats().len(), 3);
}

#[test]
fn positions_are_hosted_by_healthy_regions() {
    let mut manager = ServerManager::new(ProxyConfig::default());
    let host = |m: &ServerManager, x: f64| m.get_server_for_position(&at(x, 0.0, 0.0)).map(|s| s.id);
    assert_eq!(manager.get_spawn_server().unwrap().id, "game-server-1");
    assert_eq!(manager.get_best_server().unwrap().id, "game-server-1");
    assert_eq!(host(&manager, 1000.0), Some("game-server-1".to_string()));
    assert_eq!(manager.update_server_health("game-server-1", false), Ok(()));
    assert_eq!(host(&manager, 1000.0), Some("game-server-2".to_string()));
    assert_eq!(manager.get_spawn_server(), None);
    manager.regions[1].healthy = false;
    assert_eq!(host(&manager, 1000.0), None);
    assert_eq!(host(&manager, 5000.0), None);
}

#[test]
fn regions_at_the_same_place_replace_each_other() {
    let mut config = ProxyConfig::default();
    let mut other = config.regions[1].clone();
    other.server_id = "game-server-3".to_string();
    config.regions.push(other);
    let manager = ServerManager::new(config);
    assert_eq!(manager.regions.len(), 3);
    assert_eq!(manager.regions[1].server_id, "game-server-3");
    let bare = ServerManager::from_servers(vec![ServerConfig::new("a".to_string(), "s".to_string())]);
    assert_eq!(bare.regions.len(), 0);
    assert_eq!(bare.get_region_for_position(&at(0.0, 0.0, 0.0), &distance), None);
}

#[test]
fn moving_into_another_region_asks_for_a_transfer() {
    let mut manager = ServerManager::new(ProxyConfig::default());
    let still = WorldCoordinate::origin();
    manager.initialize_player("p", 100);
    assert_eq!(manager.get_player_position("p"), Some(still));
    assert_eq!(manager.update_player_position("p", at(10.0, 0.0, 0.0), still, distance, 200), Ok(None));
    assert_eq!(
        manager.update_player_position("p", at(1500.0, 0.0, 0.0), still, distance, 300),
        Ok(Some("game-server-2".to_string()))
    );
    assert_eq!(
        manager.update_player_position("p", at(-9000.0, 0.0, 0.0), still, distance, 400),
        Ok(Some("game-server-3".to_string()))
    );
    let (position, region) = manager.get_relative_position("p", &distance).unwrap();
    assert_eq!(position, at(-9000.0, 0.0, 0.0));
    assert_eq!(region.server_id, "game-server-3");
    manager.remove_player("p");
    assert_eq!(manager.get_player_position("p"), None);
    assert!(manager.get_relative_position("p", &distance).is_none());
    assert_eq!(
        manager.update_player_position("p", still, still, distance, 500),
        Err(ProxyError::Connection("Player p not found".to_string()))
    );
}

#[test]
fn regions_ahead_of_a_player() {
    let mut manager = ServerManager::new(ProxyConfig::default());
    manager.initialize_player("p", 0);
    assert_eq!(
        manager.update_player_position("p", at(700.0, 0.0, 0.0), at(50.0, 0.0, 0.0), distance, 100),
        Ok(None)
    );
    let ids = |m: &ServerManager| -> Vec<String> {
        m.get_approaching_regions("p", predict, to_boundary).into_iter().map(|r| r.server_id).collect()
    };
    assert_eq!(ids(&manager), vec!["game-server-1", "game-server-2"]);
    assert_eq!(
        manager.update_player_position("p", at(0.0, 0.0, 0.0), at(1.0, 0.0, 0.0), distance, 200),
        Ok(None)
    );
    assert!(ids(&manager).is_empty());
    assert!(manager.get_approaching_regions("x", predict, to_boundary).is_empty());
}

#[test]
fn servers_cannot_be_deployed() {
    let manager = ServerManager::new(ProxyConfig::default());
    assert_eq!(
        manager.request_server_deployment("(0, 0, 0)"),
        Err(ProxyError::Connection(
            "Server deployment not yet implemented for position (0, 0, 0)".to_string()
        ))
    );
}
