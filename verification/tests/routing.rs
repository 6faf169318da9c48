use horizon_atlas::config::{DiscoveryBackend, DiscoveryConfig, RoutingConfig, StaticServer};
use horizon_atlas::discovery::{
    create_discovery_backend, read_consul_members, server_is_healthy, BackendChoice, ConsulDiscovery,
    DiscoveryManager, ServerLookup, StaticDiscovery,
};
use horizon_atlas::errors::AtlasError;
use horizon_atlas::routing::{find_server_for_position, is_server_healthy, RoutingManager};
use horizon_atlas::scalar::Scalar;
use horizon_atlas::types::{
    ClientId, GameServer, Message, MessageDestination, MessageSource, Position, RegionBounds, RegionId, ServerId,
    ServerStatus,
};

const SECOND: i64 = 1_000_000_000;

fn key(value: f64) -> Scalar {
    Scalar::from_bits(value.to_bits())
}

fn at(x: f64) -> Position {
    Position { x: key(x), y: key(0.0), z: key(0.0) }
}

fn bounds(low: f64, high: f64) -> RegionBounds {
    RegionBounds {
        min_x: key(low),
        max_x: key(high),
        min_y: key(-1.0),
        max_y: key(1.0),
        min_z: key(-1.0),
        max_z: key(1.0),
    }
}

fn server(id: &str, low: f64, high: f64) -> GameServer {
    GameServer {
        id: ServerId::from_string(id.to_string()),
        address: "127.0.0.1:1".to_string(),
        regions: vec![],
        status: ServerStatus::Ready,
        load: key(0.0),
        max_capacity: 10,
        current_players: 0,
        last_heartbeat: 0,
        metadata: vec![],
        gameworld_bounds: bounds(low, high),
    }
}

fn id(text: &str) -> ServerId {
    ServerId::from_string(text.to_string())
}

fn config(backend: DiscoveryBackend) -> DiscoveryConfig {
    DiscoveryConfig {
        backend,
        discovery_interval: 1000,
        health_check_interval: 250,
        service_name: "game".to_string(),
    }
}

fn discovered(servers: Vec<GameServer>) -> DiscoveryManager {
    let mut discovery = DiscoveryManager::new(config(DiscoveryBackend::Static { servers: vec![] }));
    discovery.update_server_cache(servers);
    discovery
}

#[test]
fn heartbeats_count_for_half_a_minute() {
    let mut one = server("a", 0.0, 1.0);
    assert!(server_is_healthy(&one, 29 * SECOND + SECOND - 1));
    assert!(!server_is_healthy(&one, 30 * SECOND));
    assert!(server_is_healthy(&one, -29 * SECOND));
    assert!(!server_is_healthy(&one, -30 * SECOND));
    one.status = ServerStatus::Draining;
    assert!(!server_is_healthy(&one, 0));
}

#[test]
fn discovered_servers_are_cached() {
    let mut discovery = discovered(vec![server("a", 0.0, 10.0), server("b", 5.0, 20.0), server("a", 30.0, 40.0)]);
    assert_eq!(discovery.get_all_servers().len(), 2);
    let named = |found: Option<&GameServer>| found.map(|s| s.id.0.clone());
    assert_eq!(named(discovery.get_server_for_position(&at(35.0))), Some("a".to_string()));
    assert_eq!(named(discovery.get_server_for_position(&at(7.0))), Some("b".to_string()));
    assert_eq!(named(discovery.get_server_for_position(&at(25.0))), None);
    discovery.update_server_status(&id("b"), ServerStatus::Failed);
    discovery.update_server_status(&id("nobody"), ServerStatus::Failed);
    assert_eq!(named(discovery.get_server_for_position(&at(7.0))), Some("b".to_string()));
    assert_eq!(named(discovery.find_ready_server(&at(7.0))), None);
    discovery.register_server(server("c", 6.0, 8.0));
    assert_eq!(named(discovery.find_ready_server(&at(7.0))), Some("c".to_string()));
    assert!(matches!(discovery.get_server(&id("c")), ServerLookup::Cached(found) if found.id == id("c")));
    discovery.deregister_server(&id("c"));
    assert!(matches!(discovery.get_server(&id("c")), ServerLookup::AskBackend));
    discovery.update_server_cache(vec![]);
    assert_eq!(discovery.get_all_servers().len(), 0);
}

#[test]
fn configurations_choose_a_backend() {
    let etcd = DiscoveryBackend::Etcd { endpoints: vec!["e".to_string()] };
    assert!(matches!(create_discovery_backend(etcd, 0), BackendChoice::Static(list) if list.servers.is_empty()));
    let consul = DiscoveryBackend::Consul { endpoint: "http://c".to_string() };
    assert!(matches!(create_discovery_backend(consul, 0), BackendChoice::Consul(e) if e == "http://c"));
    let configured =
        StaticServer { id: "a".to_string(), address: "127.0.0.1:9".to_string(), gameworld_bounds: bounds(0.0, 1.0) };
    let fixed = DiscoveryBackend::Static { servers: vec![configured] };
    match create_discovery_backend(fixed, 77) {
        BackendChoice::Static(list) => {
            let one = list.get_server(&id("a")).unwrap();
            assert_eq!(one.address, "127.0.0.1:9");
            assert_eq!(one.status, ServerStatus::Ready);
            assert_eq!((one.max_capacity, one.current_players, one.last_heartbeat), (1000, 0, 77));
            assert_eq!(one.load, key(0.0));
        }
        BackendChoice::Consul(_) => panic!("not a fixed list"),
    }
}

#[test]
fn fixed_lists_of_servers() {
    let mut list = StaticDiscovery { servers: vec![server("a", 0.0, 1.0), server("b", 0.0, 1.0)] };
    assert!(list.health_check());
    let mut newer = server("a", 0.0, 1.0);
    newer.max_capacity = 99;
    list.register_server(newer);
    list.register_server(server("c", 0.0, 1.0));
    let ids: Vec<String> = list.discover_servers().into_iter().map(|s| s.id.0).collect();
    assert_eq!(ids, vec!["a", "b", "c"]);
    assert_eq!(list.get_server(&id("a")).unwrap().max_capacity, 99);
    list.update_server_status(&id("b"), ServerStatus::Stopping);
    assert_eq!(list.get_server(&id("b")).unwrap().status, ServerStatus::Stopping);
    list.update_server_status(&id("x"), ServerStatus::Stopping);
    list.deregister_server(&id("a"));
    assert!(list.get_server(&id("a")).is_none());
    assert_eq!(list.servers.len(), 2);
}

fn consul() -> ConsulDiscovery {
    ConsulDiscovery {
        endpoint: "http://consul:8500".to_string(),
        service_name: "game".to_string(),
        health_check_interval: 250,
    }
}

fn missing(what: &str) -> AtlasError {
    AtlasError::Discovery(format!("Missing service {}", what))
}

#[test]
fn consul_records_are_read() {
    let record = "{\"ID\":\"s1\",\"Address\":\"10.0.0.1\",\"Port\":8080,\"Meta\":{\"load\":\"0.5\",\
        \"capacity\":\"7\",\"max_capacity\":\"x\",\"status\":\"\\\"Ready\\\"\",\"gameworld_bounds\":3}}";
    let service = consul().parse_consul_service(record).unwrap();
    assert_eq!(service.id, "s1");
    assert_eq!(service.address, "10.0.0.1:8080");
    assert_eq!(service.load, Some("0.5".to_string()));
    assert_eq!(service.status, Some("\"Ready\"".to_string()));
    assert_eq!(service.gameworld_bounds, None);
    assert_eq!((service.current_players, service.max_capacity), (7, 1000));
    let bare = consul().parse_consul_service("{\"ID\":\"s\",\"Address\":\"h\",\"Port\":1}").unwrap();
    assert_eq!((bare.current_players, bare.max_capacity), (0, 1000));
    assert_eq!((bare.load, bare.status, bare.gameworld_bounds), (None, None, None));
}

#[test]
fn consul_records_need_an_identifier_a_host_and_a_port() {
    let parse = |text: &str| consul().parse_consul_service(text).unwrap_err();
    assert_eq!(parse("{\"ID\":1,\"Address\":\"h\",\"Port\":1}"), missing("ID"));
    assert_eq!(parse("{\"ID\":\"s\",\"Port\":1}"), missing("address"));
    assert_eq!(parse("{\"ID\":\"s\",\"Address\":\"h\",\"Port\":\"1\"}"), missing("port"));
    assert_eq!(parse("nonsense"), missing("ID"));
    let text = |s: &str| Some(s.to_string());
    let read = read_consul_members(text("s"), text("h"), Some(5), None, None, None, text("+3"), text("4294967296"));
    let service = read.unwrap();
    assert_eq!((service.current_players, service.max_capacity), (3, 1000));
    assert_eq!(service.address, "h:5");
}

#[test]
fn consul_records_become_servers() {
    let service = || consul().parse_consul_service("{\"ID\":\"s\",\"Address\":\"h\",\"Port\":1}").unwrap();
    let plain = service().into_server(Ok("1.2.3.4:1".to_string()), None, None, None, 9).unwrap();
    assert_eq!(plain.id, id("s"));
    assert_eq!(plain.address, "1.2.3.4:1");
    assert_eq!(plain.status, ServerStatus::Ready);
    assert_eq!(plain.last_heartbeat, 9);
    assert_eq!(plain.gameworld_bounds.max_z, key(1000.0));
    assert_eq!(plain.gameworld_bounds.min_y, key(0.0));
    let full = service()
        .into_server(Ok("a".to_string()), Some(bounds(1.0, 2.0)), Some(ServerStatus::Failed), Some(key(0.5)), 9)
        .unwrap();
    assert_eq!((full.gameworld_bounds, full.status, full.load), (bounds(1.0, 2.0), ServerStatus::Failed, key(0.5)));
    assert_eq!(
        service().into_server(Err("bad".to_string()), None, None, None, 9).unwrap_err(),
        AtlasError::Discovery("Invalid address: bad".to_string())
    );
}

#[test]
fn consul_answers_hold_services() {
    let body = "[{\"Service\":{\"ID\":\"a\"}},{\"Node\":1},{\"Service\":{\"ID\":\"b\"}}]";
    assert_eq!(consul().service_records(body), vec!["{\"ID\":\"a\"}", "{\"ID\":\"b\"}"]);
    assert!(consul().service_records("{\"Service\":{}}").is_empty());
    assert!(consul().service_records("oops").is_empty());
    let readings = vec![Ok(server("a", 0.0, 1.0)), Err(missing("ID")), Ok(server("b", 0.0, 1.0))];
    let ids: Vec<String> = consul().readable_servers(readings).into_iter().map(|s| s.id.0).collect();
    assert_eq!(ids, vec!["a", "b"]);
}

#[test]
fn consul_addresses() {
    let consul = consul();
    assert_eq!(consul.register_url(), "http://consul:8500/v1/agent/service/register");
    assert_eq!(consul.deregister_url(&id("s")), "http://consul:8500/v1/agent/service/deregister/s");
    assert_eq!(consul.discover_url(), "http://consul:8500/v1/health/service/game");
    assert_eq!(consul.health_url(), "http://consul:8500/v1/agent/self");
    assert_eq!(consul.check_url("1.2.3.4:5"), "http://1.2.3.4:5/health");
    assert_eq!(consul.check_interval(), "250ms");
    assert_eq!(consul.accept_answer(true, "register server", "200 OK"), Ok(()));
    assert_eq!(
        consul.accept_answer(false, "register server", "500 Internal Server Error"),
        Err(AtlasError::Discovery("Failed to register server: 500 Internal Server Error".to_string()))
    );
}

fn client(name: &str) -> ClientId {
    ClientId(name.to_string())
}

fn route(
    routing: &mut RoutingManager,
    discovery: &DiscoveryManager,
    name: &str,
    x: f64,
    now: i64,
) -> Result<ServerId, AtlasError> {
    routing.route_client(discovery, &client(name), &at(x), &format!("({}, 0, 0)", x), Ok(None), now)
}

#[test]
fn clients_go_to_the_owner_of_their_position() {
    let discovery = discovered(vec![server("a", 0.0, 10.0), server("b", 10.5, 20.0)]);
    let mut routing = RoutingManager::new(RoutingConfig { session_affinity: false });
    assert_eq!(route(&mut routing, &discovery, "c", 5.0, 0), Ok(id("a")));
    assert_eq!(route(&mut routing, &discovery, "c", 15.0, 0), Ok(id("b")));
    assert_eq!(
        route(&mut routing, &discovery, "c", 99.0, 0),
        Err(AtlasError::Routing("No server found for position (99, 0, 0)".to_string()))
    );
    assert_eq!(find_server_for_position(&discovery, &at(15.0), ""), Ok(id("b")));
    let metrics = routing.get_routing_metrics();
    assert_eq!((metrics.routes_calculated, metrics.cache_hits, metrics.cache_misses), (3, 0, 3));
    assert_eq!((metrics.position_lookups, metrics.routing_errors), (3, 0));
    assert_eq!((metrics.active_client_sessions, metrics.cached_routes), (1, 2));
}

#[test]
fn routes_are_cached_by_whole_position_for_half_a_minute() {
    let mut discovery = discovered(vec![server("a", 0.0, 10.0)]);
    let mut routing = RoutingManager::new(RoutingConfig { session_affinity: false });
    assert_eq!(route(&mut routing, &discovery, "c", 5.2, 0), Ok(id("a")));
    assert!(routing.routing_cache.contains_key("c:5:0:0"));
    discovery.update_server_cache(vec![server("b", 0.0, 10.0)]);
    assert_eq!(route(&mut routing, &discovery, "c", 5.9, 30 * SECOND - 1), Ok(id("a")));
    assert_eq!(routing.get_routing_metrics().cache_hits, 1);
    assert_eq!(route(&mut routing, &discovery, "c", 5.9, 30 * SECOND), Ok(id("b")));
    assert_eq!(route(&mut routing, &discovery, "d", 5.9, 30 * SECOND), Ok(id("b")));
    routing.cleanup_cache(59 * SECOND);
    assert_eq!(routing.get_routing_metrics().cached_routes, 2);
    routing.cleanup_cache(60 * SECOND);
    assert_eq!(routing.get_routing_metrics().cached_routes, 0);
}

#[test]
fn sticky_servers_keep_their_clients() {
    let mut discovery = discovered(vec![server("a", 0.0, 10.0), server("b", 5.0, 20.0)]);
    let mut routing = RoutingManager::new(RoutingConfig { session_affinity: true });
    assert_eq!(route(&mut routing, &discovery, "c", 12.0, 0), Ok(id("b")));
    assert_eq!(route(&mut routing, &discovery, "c", 7.0, 0), Ok(id("b")));
    assert_eq!(route(&mut routing, &discovery, "c", 2.0, 0), Ok(id("a")));
    assert_eq!(route(&mut routing, &discovery, "c", 7.0, 0), Ok(id("a")));
    discovery.update_server_status(&id("a"), ServerStatus::Draining);
    assert_eq!(route(&mut routing, &discovery, "c", 8.0, 0), Ok(id("b")));
    assert_eq!(routing.client_sessions.get("c").unwrap().sticky_server, Some(id("b")));
    assert_eq!(routing.get_routing_metrics().cache_hits, 0);
}

#[test]
fn the_backend_is_asked_for_sticky_servers_that_are_not_cached() {
    let mut discovery = discovered(vec![server("a", 0.0, 10.0)]);
    let mut routing = RoutingManager::new(RoutingConfig { session_affinity: true });
    assert_eq!(routing.server_to_fetch(&discovery, &client("c")), None);
    assert_eq!(route(&mut routing, &discovery, "c", 5.0, 0), Ok(id("a")));
    assert_eq!(routing.server_to_fetch(&discovery, &client("c")), None);
    discovery.update_server_cache(vec![server("b", 0.0, 10.0)]);
    assert_eq!(routing.server_to_fetch(&discovery, &client("c")), Some(id("a")));
    let asked = |routing: &mut RoutingManager, answer| {
        routing.route_client(&discovery, &client("c"), &at(6.0), "", answer, 0)
    };
    let down = AtlasError::Discovery("down".to_string());
    assert_eq!(asked(&mut routing, Err(AtlasError::Discovery("down".to_string()))), Err(down));
    assert_eq!(asked(&mut routing, Ok(Some(server("a", 0.0, 10.0)))), Ok(id("a")));
    assert_eq!(asked(&mut routing, Ok(None)), Ok(id("b")));
    assert_eq!(routing.server_to_fetch(&discovery, &client("c")), None);
}

fn message(to: MessageDestination) -> Message {
    Message {
        id: "m".to_string(),
        from: MessageSource::Atlas("x".to_string()),
        to,
        message_type: "t".to_string(),
        payload: vec![],
        timestamp: 0,
        encrypted: false,
        compressed: false,
    }
}

fn routing_failure<T>(text: &str) -> Result<T, AtlasError> {
    Err(AtlasError::Routing(text.to_string()))
}

#[test]
fn messages_find_their_servers() {
    let mut discovery = discovered(vec![server("a", 0.0, 10.0), server("b", 0.0, 10.0)]);
    let mut routing = RoutingManager::new(RoutingConfig { session_affinity: false });
    let sent = |routing: &RoutingManager, discovery: &DiscoveryManager, to| {
        routing.route_message(discovery, &message(to), Ok(None), 0)
    };
    let to_client = || MessageDestination::Client(client("c"));
    assert_eq!(sent(&routing, &discovery, MessageDestination::Server(id("a"))), Ok(vec![id("a")]));
    assert_eq!(sent(&routing, &discovery, to_client()), routing_failure("Client c not found"));
    assert_eq!(route(&mut routing, &discovery, "c", 5.0, 0), Ok(id("a")));
    assert_eq!(sent(&routing, &discovery, to_client()), Ok(vec![id("a")]));
    routing.remove_server(&id("a"));
    assert_eq!(sent(&routing, &discovery, to_client()), routing_failure("Client c has no assigned server"));
    assert_eq!(sent(&routing, &discovery, MessageDestination::Broadcast), Ok(vec![id("a"), id("b")]));
    discovery.update_server_status(&id("a"), ServerStatus::Starting);
    assert_eq!(sent(&routing, &discovery, MessageDestination::Broadcast), Ok(vec![id("b")]));
    assert_eq!(
        sent(&routing, &discovery, MessageDestination::Server(id("a"))),
        routing_failure("Target server a is not healthy")
    );
    assert_eq!(
        sent(&routing, &discovery, MessageDestination::Server(id("x"))),
        routing_failure("Target server x is not healthy")
    );
    assert_eq!(sent(&routing, &discovery, MessageDestination::Atlas("n".to_string())), Ok(vec![]));
    assert_eq!(
        sent(&routing, &discovery, MessageDestination::Region(RegionId::new("r".to_string()))),
        routing_failure("Region-based routing not supported in position-based system")
    );
    let direct = message(MessageDestination::Server(id("x")));
    assert_eq!(routing.route_message(&discovery, &direct, down(), 0).unwrap_err(), down::<()>().unwrap_err());
    assert_eq!(is_server_healthy(&discovery, &id("x"), Ok(Some(server("x", 0.0, 1.0))), 0), Ok(true));
    assert_eq!(is_server_healthy(&discovery, &id("x"), Ok(None), 0), Ok(false));
    assert_eq!(is_server_healthy(&discovery, &id("b"), down(), 0), Ok(true));
}

fn down<T>() -> Result<T, AtlasError> {
    Err(AtlasError::Discovery("down".to_string()))
}

#[test]
fn clients_move_on_when_they_leave_their_server() {
    let mut discovery = discovered(vec![server("a", 0.0, 10.0), server("b", 10.5, 20.0)]);
    let mut routing = RoutingManager::new(RoutingConfig { session_affinity: false });
    let should = |routing: &RoutingManager, discovery: &DiscoveryManager, x: f64, answer| {
        routing.should_transition_client(discovery, &client("c"), &at(x), "there", answer)
    };
    assert_eq!(should(&routing, &discovery, 5.0, Ok(None)), routing_failure("Client c not found"));
    assert_eq!(route(&mut routing, &discovery, "c", 5.0, 0), Ok(id("a")));
    assert_eq!(should(&routing, &discovery, 6.0, Ok(None)), Ok(None));
    assert_eq!(should(&routing, &discovery, 15.0, Ok(None)), Ok(Some(id("b"))));
    assert_eq!(
        should(&routing, &discovery, 99.0, Ok(None)),
        routing_failure("No server found for position there")
    );
    discovery.deregister_server(&id("a"));
    assert_eq!(should(&routing, &discovery, 15.0, down()), down());
    assert_eq!(should(&routing, &discovery, 15.0, Ok(Some(server("a", 0.0, 16.0)))), Ok(None));
    assert_eq!(should(&routing, &discovery, 15.0, Ok(None)), Ok(Some(id("b"))));
    routing.remove_server(&id("a"));
    assert_eq!(should(&routing, &discovery, 15.0, Ok(None)), Ok(None));
}

#[test]
fn forgotten_clients_have_no_routes() {
    let discovery = discovered(vec![server("a", 0.0, 10.0)]);
    let mut routing = RoutingManager::new(RoutingConfig { session_affinity: false });
    for (name, x) in [("c", 1.0), ("c", 2.0), ("cc", 1.0)] {
        assert_eq!(route(&mut routing, &discovery, name, x, 0), Ok(id("a")));
    }
    routing.remove_client(&client("c"));
    let metrics = routing.get_routing_metrics();
    assert_eq!((metrics.active_client_sessions, metrics.cached_routes), (1, 1));
    assert!(routing.routing_cache.contains_key("cc:1:0:0"));
}
