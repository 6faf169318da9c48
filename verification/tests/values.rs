use horizon_atlas::bytes::read_u32;
use horizon_atlas::client::{ClientIdCounter, ClientInfo, ClientState};
use horizon_atlas::clock::{elapsed_nanos, seconds_since_epoch, span_in, NANOS_PER_MINUTE, NANOS_PER_SECOND};
use horizon_atlas::error::ProxyError;
use horizon_atlas::errors::AtlasError;
use horizon_atlas::game_server::current_timestamp;
use horizon_atlas::json::{read_member_string, read_member_unsigned};
use horizon_atlas::scalar::Scalar;
use horizon_atlas::search::{nearest_index, smallest_index};
use horizon_atlas::table::Table;
use horizon_atlas::text::{
    bytes_eq, decimal_i64, decimal_u64, join, join3, list_contains, parse_u32, starts_with, str_eq, to_chars,
};
use horizon_atlas::types::{ClientId, MessageDestination, MessageSource, Position, RegionBounds, RegionId, ServerId};

fn key(value: f64) -> Scalar {
    Scalar::from_bits(value.to_bits())
}

#[test]
fn scalars_compare_as_floats_do() {
    let values = [f64::NEG_INFINITY, -2.5, -1.0, -0.0, 0.0, 1e-300, 0.5, 1.0, 1e300, f64::INFINITY, f64::NAN];
    for a in values {
        for b in values {
            assert_eq!(key(a).lt(key(b)), a < b, "{} < {}", a, b);
            assert_eq!(key(a).le(key(b)), a <= b, "{} <= {}", a, b);
        }
    }
}

#[test]
fn scalars_give_their_bits_back() {
    for value in [-2.5f64, 0.0, 1.0, 1e-300, f64::INFINITY, f64::NEG_INFINITY] {
        assert_eq!(f64::from_bits(key(value).to_bits()), value);
    }
    assert_eq!(key(-0.0), key(0.0));
    assert!(f64::from_bits(key(f64::NAN).to_bits()).is_nan());
}

#[test]
fn scalars_truncate_as_casts_do() {
    let values = [
        0.0f64, -0.0, 0.999, -0.999, 1.0, -1.0, 1.5, -1.5, 1234.75, -1234.75, 2147483646.5, 2147483647.0, 2147483648.0,
        -2147483647.5, -2147483648.0, -2147483649.0, 1e300, -1e300, f64::INFINITY, f64::NEG_INFINITY, f64::NAN,
        1e-310,
    ];
    for value in values {
        assert_eq!(key(value).truncated(), value as i32, "{}", value);
    }
}

#[test]
fn decimal_numerals() {
    assert_eq!(decimal_u64(0), "0");
    assert_eq!(decimal_u64(9), "9");
    assert_eq!(decimal_u64(10), "10");
    assert_eq!(decimal_u64(1234567890), "1234567890");
    assert_eq!(decimal_u64(u64::MAX), u64::MAX.to_string());
    assert_eq!(decimal_i64(-1), "-1");
    assert_eq!(decimal_i64(i64::MIN), i64::MIN.to_string());
    assert_eq!(decimal_i64(i64::MAX), i64::MAX.to_string());
}

#[test]
fn numbers_are_parsed_as_the_standard_library_does() {
    for text in ["0", "7", "+7", "007", "4294967295", "4294967296", "", "+", "-1", "1a", " 1", "99999999999999999999"] {
        assert_eq!(parse_u32(text), text.parse::<u32>().ok(), "{:?}", text);
    }
    for n in [0u32, 5, 10, 99, 100, 4294967295] {
        assert_eq!(parse_u32(&decimal_u64(n as u64)), Some(n));
    }
}

#[test]
fn texts_are_compared_and_joined() {
    assert!(str_eq("región", "región"));
    assert!(!str_eq("region", "región"));
    assert!(bytes_eq(&[1, 2], &[1, 2]));
    assert!(!bytes_eq(&[1, 2], &[1, 3]));
    assert!(!bytes_eq(&[1, 2], &[1]));
    assert_eq!(join("a", "b"), "ab");
    assert_eq!(join3("a", "b", "c"), "abc");
    assert!(starts_with("client:1:2:3", "client:"));
    assert!(!starts_with("clients:1", "client:"));
    assert!(!starts_with("cl", "client:"));
    assert!(list_contains(&vec!["a".to_string(), "b".to_string()], "b"));
    assert!(!list_contains(&vec!["a".to_string()], "b"));
    assert_eq!(to_chars("aé"), vec!['a', 'é']);
}

#[test]
fn little_endian_numbers() {
    assert_eq!(read_u32(&[0x78, 0x56, 0x34, 0x12, 0xff]), 0x12345678);
    assert_eq!(read_u32(&[0xff, 0xff, 0xff, 0xff]), u32::MAX);
}

#[test]
fn spans_are_cut_off_towards_zero() {
    assert_eq!(span_in(0, 5_999_999_999, NANOS_PER_SECOND), 5);
    assert_eq!(span_in(5_999_999_999, 0, NANOS_PER_SECOND), -5);
    assert_eq!(span_in(i64::MIN, i64::MAX, NANOS_PER_MINUTE), 307445734);
    assert_eq!(elapsed_nanos(3, 10), 7);
    assert_eq!(elapsed_nanos(10, 3), 0);
    assert_eq!(elapsed_nanos(i64::MIN, i64::MAX), u64::MAX);
}

#[test]
fn the_clock_runs() {
    assert_eq!(seconds_since_epoch(-5), 0);
    assert_eq!(seconds_since_epoch(5999), 5);
    assert_eq!(seconds_since_epoch(6000), 6);
    assert!(current_timestamp() > 1_600_000_000);
}

#[test]
fn the_smallest_key_is_the_first_of_its_kind() {
    assert_eq!(smallest_index(&vec![key(3.0), key(1.0), key(2.0), key(1.0)]), 1);
    assert_eq!(smallest_index(&vec![key(f64::NAN), key(1.0)]), 0);
    assert_eq!(smallest_index(&vec![key(2.0), key(f64::NAN), key(1.0)]), 2);
}

#[test]
fn the_nearest_within_reach() {
    let distances = vec![key(5.0), key(2.0), key(9.0), key(2.0), key(f64::NAN)];
    assert_eq!(nearest_index(&distances, None, key(10.0)), Some(1));
    assert_eq!(nearest_index(&distances, Some(1), key(10.0)), Some(3));
    assert_eq!(nearest_index(&distances, None, key(1.0)), None);
    assert_eq!(nearest_index(&distances, None, key(2.0)), Some(1));
}

#[test]
fn tables_file_find_and_drop_entries() {
    let mut table: Table<u32> = Table::new();
    assert_eq!(table.len(), 0);
    assert_eq!(table.insert("a".to_string(), 1), None);
    assert_eq!(table.insert("b".to_string(), 2), None);
    assert_eq!(table.insert("c".to_string(), 3), None);
    assert_eq!(table.insert("a".to_string(), 4), Some(1));
    assert_eq!(table.len(), 3);
    assert_eq!(table.find("a"), Some(0));
    assert_eq!(table.get("a"), Some(&4));
    assert_eq!(table.get("x"), None);
    assert!(table.contains_key("b"));
    *table.value_at_mut(1) = 7;
    assert_eq!(table.get("b"), Some(&7));
    assert_eq!(table.key_at(2), "c");
    assert_eq!(*table.value_at(2), 3);
    assert_eq!(table.remove("a"), Some(4));
    assert_eq!(table.remove("a"), None);
    assert_eq!(table.find("c"), Some(0));
    assert_eq!(table.get("c"), Some(&3));
    assert_eq!(table.key_list(), vec!["c".to_string(), "b".to_string()]);
    table.remove_all(&vec!["b".to_string(), "nobody".to_string()]);
    assert_eq!(table.len(), 1);
    table.clear();
    assert_eq!(table.len(), 0);
    assert_eq!(table.get("c"), None);
}

#[test]
fn json_members_are_read() {
    let text = "{\"ID\": \"a\\u0062c\", \"Port\": 8080, \"Neg\": -1, \"List\": [1]}";
    assert_eq!(read_member_string(text, "ID"), Some("abc".to_string()));
    assert_eq!(read_member_string(text, "Port"), None);
    assert_eq!(read_member_unsigned(text, "Port"), Some(8080));
    assert_eq!(read_member_unsigned(text, "Neg"), None);
    assert_eq!(read_member_unsigned(text, "ID"), None);
    assert_eq!(read_member_string(text, "Nothing"), None);
    assert_eq!(read_member_string("not json", "ID"), None);
}

fn is_uuid(text: &str) -> bool {
    text.len() == 36
        && text.chars().enumerate().all(|(i, c)| match i {
            8 | 13 | 18 | 23 => c == '-',
            _ => c.is_ascii_digit() || ('a'..='f').contains(&c),
        })
}

#[test]
fn identifiers() {
    let server = ServerId::new();
    assert!(is_uuid(&server.0));
    assert_ne!(server, ServerId::new());
    assert!(is_uuid(&ServerId::default().0));
    assert!(is_uuid(&ClientId::new().0));
    assert!(is_uuid(&ClientId::default().0));
    assert_eq!(ServerId::from_string("s".to_string()).0, "s");
    assert_eq!(RegionId::new("r".to_string()).0, "r");
    assert_eq!(server.clone(), server);
    let source = MessageSource::Atlas("x".to_string());
    assert_eq!(source.clone(), source);
    let target = MessageDestination::Region(RegionId::new("r".to_string()));
    assert_eq!(target.clone(), target);
}

#[test]
fn boxes_contain_their_faces_and_nothing_that_is_not_a_number() {
    let bounds = RegionBounds {
        min_x: key(0.0),
        max_x: key(10.0),
        min_y: key(0.0),
        max_y: key(10.0),
        min_z: key(0.0),
        max_z: key(10.0),
    };
    let at = |x: f64, y: f64, z: f64| Position { x: key(x), y: key(y), z: key(z) };
    assert!(bounds.contains(&at(0.0, 10.0, 5.0)));
    assert!(bounds.contains(&at(-0.0, 0.0, 0.0)));
    assert!(!bounds.contains(&at(10.000001, 0.0, 0.0)));
    assert!(!bounds.contains(&at(5.0, -1.0, 0.0)));
    assert!(!bounds.contains(&at(5.0, 1.0, f64::NAN)));
}

#[test]
fn errors_of_the_services_have_messages() {
    let text = |s: &str| s.to_string();
    let cases = vec![
        (AtlasError::Config(text("a")), "Configuration error: a"),
        (AtlasError::Network(text("a")), "Network error: a"),
        (AtlasError::WebSocket(text("a")), "WebSocket error: a"),
        (AtlasError::Serialization(text("a")), "Serialization error: a"),
        (AtlasError::Json(text("a")), "JSON error: a"),
        (AtlasError::Crypto(text("a")), "Crypto error: a"),
        (AtlasError::ServerNotFound { server_id: text("a") }, "Server not found: a"),
        (AtlasError::RegionNotFound { region_id: text("a") }, "Region not found: a"),
        (AtlasError::ClientConnection(text("a")), "Client connection error: a"),
        (AtlasError::ServerConnection(text("a")), "Server connection error: a"),
        (AtlasError::Routing(text("a")), "Routing error: a"),
        (AtlasError::Cluster(text("a")), "Cluster error: a"),
        (AtlasError::Discovery(text("a")), "Discovery error: a"),
        (AtlasError::HealthCheck(text("a")), "Health check error: a"),
        (AtlasError::Transition(text("a")), "Transition error: a"),
        (AtlasError::Authentication(text("a")), "Authentication error: a"),
        (AtlasError::Authorization(text("a")), "Authorization error: a"),
        (AtlasError::RateLimit, "Rate limit exceeded"),
        (AtlasError::ServiceUnavailable, "Service unavailable"),
        (AtlasError::Internal(text("a")), "Internal error: a"),
    ];
    for (error, message) in cases {
        assert_eq!(error.message(), message);
    }
    assert_eq!(AtlasError::from_http(text("x")), AtlasError::Network(text("x")));
    assert_eq!(AtlasError::from_prometheus("x"), AtlasError::Internal(text("Prometheus error: x")));
}

#[test]
fn errors_of_the_proxy_have_messages() {
    let text = || "a".to_string();
    assert_eq!(ProxyError::Io(text()).message(), "I/O error: a");
    assert_eq!(ProxyError::AddrParse(text()).message(), "Address parse error: a");
    assert_eq!(ProxyError::Connection(text()).message(), "Connection error: a");
    assert_eq!(ProxyError::Transfer(text()).message(), "Transfer error: a");
    assert_eq!(ProxyError::Config(text()).message(), "Configuration error: a");
    assert_eq!(ProxyError::Client(text()).message(), "Client error: a");
}

#[test]
fn clients_are_numbered() {
    let mut ids = ClientIdCounter::new();
    let first = ClientInfo::new("127.0.0.1:5".to_string(), "s1".to_string(), &mut ids, 100);
    let second = ClientInfo::new("127.0.0.1:6".to_string(), "s1".to_string(), &mut ids, 200);
    assert_eq!(first.id, "client-0");
    assert_eq!(second.id, "client-1");
    assert_eq!(first.state, ClientState::Connecting);
    assert_eq!(first.connection_duration(350), 250);
    assert_eq!(first.connection_duration(50), 0);
    assert_eq!(first.addr, "127.0.0.1:5");
    assert_eq!(first.current_server, "s1");
}

#[test]
fn only_connected_clients_can_be_transferred() {
    let mut ids = ClientIdCounter::new();
    let mut client = ClientInfo::new("a".to_string(), "s1".to_string(), &mut ids, 0);
    assert!(!client.can_transfer());
    client.set_state(ClientState::Connected);
    assert!(client.can_transfer());
    client.set_state(ClientState::Transferring { from_server: "s1".to_string(), to_server: "s2".to_string() });
    assert!(!client.can_transfer());
    client.set_state(ClientState::Error("x".to_string()));
    assert!(!client.can_transfer());
    client.add_bytes_transferred(10);
    client.add_bytes_transferred(5);
    assert_eq!(client.bytes_transferred, 15);
}
