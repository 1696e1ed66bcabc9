use monoio_http::client::connection::{body_step, capacity_step, reusable_after, BodyStep, CapacityStep, HttpConnection};
use monoio_http::client::connector::{ConnectionProto, HttpConnector};
use monoio_http::client::key::{Key, ServerName};
use monoio_http::client::pool::{retain_fresh, Checkout, SharedInner};
use monoio_http::client::unified::UnifiedTransportAddr;
use monoio_http::client::{Builder, ConnectionConfig, Proto};
use monoio_http::common::body::StreamHint;
use monoio_http::common::header::{HeaderMap, Version};
use monoio_http::common::uri::UriParts;
use bytes::Bytes;

fn key_of(uri: &str) -> Key {
    let parts = UriParts::parse(uri.as_bytes()).expect("a URI");
    Key::try_from_uri(&parts).expect("unable to convert to Key")
}

#[test]
fn key_default_port() {
    let key = Key::try_from_parts("bytedance.com", Some("bytedance.com"), 80).expect("unable to convert to Key");
    assert_eq!(key.port, 80);
    assert_eq!(key.host, "bytedance.com");
}

#[test]
fn key_specify_port() {
    let key = key_of("https://bytedance.com:12345");
    assert_eq!(key.port, 12345);
    assert_eq!(key.host, "bytedance.com");
}

#[test]
fn key_ip_http() {
    let key = key_of("http://1.1.1.1:443");
    assert_eq!(key.port, 443);
    assert_eq!(key.host, "1.1.1.1");
    assert_eq!(key.server_name, None);
}

#[test]
fn key_uri() {
    let key = key_of("https://bytedance.com");
    assert_eq!(key.port, 443);
    assert_eq!(key.host, "bytedance.com");
    assert_eq!(key.server_name, Some(ServerName("bytedance.com".to_string())));
}

#[test]
fn key_ipv6_and_defaults() {
    let key = key_of("http://[::1]/x");
    assert_eq!(key.host, "::1");
    assert_eq!(key.port, 80);
    assert_eq!(key.version, Version::Http11);
    let key = key_of("ftp://files.example/");
    assert_eq!(key.port, 0);
    assert_eq!(key.server_name, None);
}

#[test]
fn key_without_authority() {
    let parts = UriParts::parse(b"/only/a/path").unwrap();
    assert!(Key::try_from_uri(&parts).is_err());
}

#[test]
fn key_invalid_server_name() {
    assert!(Key::try_from_parts("bad name", Some("bad name!"), 443).is_err());
}

#[test]
fn key_transport_address() {
    match key_of("https://example.com").param() {
        UnifiedTransportAddr::TcpTls(h, p, n) => {
            assert_eq!(h, "example.com");
            assert_eq!(p, 443);
            assert_eq!(n, ServerName("example.com".to_string()));
        }
        _ => panic!("expected TLS"),
    }
    assert!(matches!(key_of("http://example.com").param(), UnifiedTransportAddr::Tcp(_, 80)));
}

#[test]
fn builder_settings() {
    let b = Builder::new().http2_client().max_idle_connections(7).http2_max_frame_size(16384);
    let cfg = b.client_config();
    assert_eq!(cfg.connection_config.proto, Proto::Http2);
    assert_eq!(cfg.max_idle_connections, 7);
    assert_eq!(cfg.connection_config.h2_builder.max_frame_size, Some(16384));
    let b = Builder::new().http2_max_concurrent_reset_streams(5).http_auto();
    assert_eq!(b.client_config().connection_config.h2_builder.max_send_buffer_size, Some(5));
    assert_eq!(b.client_config().connection_config.proto, Proto::Auto);
}

#[test]
fn connector_protocol() {
    let auto = HttpConnector::new(ConnectionConfig { proto: Proto::Auto, ..ConnectionConfig::default() });
    assert_eq!(auto.protocol(Version::Http2), ConnectionProto::Http2);
    assert_eq!(auto.protocol(Version::Http11), ConnectionProto::Http1);
    let h1 = HttpConnector::new(ConnectionConfig::default());
    assert_eq!(h1.protocol(Version::Http2), ConnectionProto::Http1);
}

#[test]
fn connection_close_header() {
    let mut headers = HeaderMap::new();
    assert!(reusable_after(&headers, true));
    assert!(!reusable_after(&headers, false));
    headers.insert(b"connection".to_vec(), b"Close".to_vec());
    assert!(!reusable_after(&headers, true));
    headers.insert(b"connection".to_vec(), b"keep-alive".to_vec());
    assert!(reusable_after(&headers, false));
}

#[test]
fn h2_body_steps() {
    assert!(matches!(capacity_step::<()>(Some(Ok(0))), CapacityStep::Retry));
    assert!(matches!(capacity_step::<()>(Some(Ok(3))), CapacityStep::Proceed));
    assert!(matches!(capacity_step::<()>(None), CapacityStep::Stop));
    match body_step::<()>(StreamHint::Empty, None) {
        BodyStep::Send(b, true) => assert!(b.is_empty()),
        _ => panic!("expected end of stream"),
    }
    match body_step::<()>(StreamHint::Stream, Some(Ok(Bytes::from_static(b"x")))) {
        BodyStep::Send(b, false) => assert_eq!(b, Bytes::from_static(b"x")),
        _ => panic!("expected data"),
    }
    assert!(matches!(body_step::<()>(StreamHint::Stream, None), BodyStep::Send(_, true)));
    assert!(matches!(body_step::<()>(StreamHint::Fixed, None), BodyStep::Again));
}

#[test]
fn pool_reuses_http1_connections() {
    let mut pool: SharedInner<u32, u32> = SharedInner::new(None);
    let key = key_of("http://example.com");
    assert!(pool.get(&key).is_none());
    pool.give_back(key.clone(), HttpConnection::H1(Some(1)), true, false);
    pool.give_back(key.clone(), HttpConnection::H1(Some(2)), true, false);
    match pool.get(&key) {
        Some(Checkout { conn: HttpConnection::H1(Some(1)), reusable: true }) => {}
        _ => panic!("expected the oldest connection"),
    }
    match pool.get(&key) {
        Some(Checkout { conn: HttpConnection::H1(Some(2)), reusable: true }) => {}
        _ => panic!("expected the second connection"),
    }
    assert!(pool.get(&key).is_none());
}

#[test]
fn pool_shares_http2_connections() {
    let mut pool: SharedInner<u32, u32> = SharedInner::new(Some(4));
    let key = key_of("https://example.com");
    pool.give_back(key.clone(), HttpConnection::H2(9), true, false);
    for _ in 0..3 {
        match pool.get(&key) {
            Some(Checkout { conn: HttpConnection::H2(9), reusable: false }) => {}
            _ => panic!("expected a shared handle"),
        }
    }
    pool.give_back(key.clone(), HttpConnection::H2(9), false, true);
    assert!(pool.get(&key).is_none());
}

#[test]
fn pool_drops_unreusable_and_caps_queue() {
    let mut pool: SharedInner<u32, u32> = SharedInner::new(Some(1));
    let key = key_of("http://example.com");
    pool.give_back(key.clone(), HttpConnection::H1(Some(1)), false, false);
    assert!(pool.get(&key).is_none());
    pool.give_back(key.clone(), HttpConnection::H1(Some(1)), true, false);
    pool.give_back(key.clone(), HttpConnection::H1(Some(2)), true, false);
    pool.give_back(key.clone(), HttpConnection::H1(Some(3)), true, false);
    match pool.get(&key) {
        Some(Checkout { conn: HttpConnection::H1(Some(2)), .. }) => {}
        _ => panic!("the oldest connection should have left"),
    }
}

#[test]
fn pool_clear_expired() {
    let mut pool: SharedInner<u32, u32> = SharedInner::new(None);
    let key = key_of("http://example.com");
    pool.give_back(key.clone(), HttpConnection::H1(Some(1)), true, false);
    pool.clear_expired(std::time::Duration::from_secs(3600));
    assert!(pool.get(&key).is_some());
    pool.give_back(key.clone(), HttpConnection::H1(Some(1)), true, false);
    let start = std::time::Instant::now();
    while start.elapsed() < std::time::Duration::from_millis(5) {}
    pool.clear_expired(std::time::Duration::from_millis(1));
    assert!(pool.get(&key).is_none());
}

#[test]
fn builder_h2_window_settings() {
    let b = Builder::new()
        .http2_client()
        .http2_max_send_buf_size(1024)
        .http2_initial_stream_window_size(65535)
        .http2_initial_connection_window_size(1 << 20)
        .http2_max_concurrent_streams(100)
        .http1_client();
    let h2 = b.client_config().connection_config.h2_builder;
    assert_eq!(h2.max_send_buffer_size, Some(1024));
    assert_eq!(h2.initial_window_size, Some(65535));
    assert_eq!(h2.initial_connection_window_size, Some(1 << 20));
    assert_eq!(h2.max_concurrent_streams, Some(100));
    assert_eq!(h2.max_frame_size, None);
    assert_eq!(b.client_config().connection_config.proto, Proto::Http1);
}

#[test]
fn server_name_from_string() {
    let n = ServerName::from("example.com".to_string());
    assert_eq!(n.0, "example.com");
}

#[test]
fn pool_retain_fresh_keeps_fresh_in_order() {
    let queue: std::collections::VecDeque<u32> = vec![1, 2, 3, 4].into_iter().collect();
    let kept = retain_fresh(queue, &[5, 11, 10, 0], 10);
    assert_eq!(kept.into_iter().collect::<Vec<u32>>(), vec![1, 3, 4]);
}

#[test]
fn pool_retain_fresh_all_expired() {
    let queue: std::collections::VecDeque<u32> = vec![7, 8].into_iter().collect();
    let kept = retain_fresh(queue, &[100, 200], 99);
    assert!(kept.is_empty());
}

#[test]
fn pool_sweep_expired_by_idle_times() {
    let mut pool: SharedInner<u32, u32> = SharedInner::new(None);
    let a = key_of("http://a.example.com");
    let b = key_of("http://b.example.com");
    pool.give_back(a.clone(), HttpConnection::H1(Some(1)), true, false);
    pool.give_back(a.clone(), HttpConnection::H1(Some(2)), true, false);
    pool.give_back(a.clone(), HttpConnection::H1(Some(3)), true, false);
    pool.give_back(b.clone(), HttpConnection::H1(Some(9)), true, false);
    pool.sweep_expired(&vec![vec![5, 50, 10], vec![11]], 10);
    match pool.get(&a) {
        Some(Checkout { conn: HttpConnection::H1(Some(1)), .. }) => {}
        _ => panic!("the first connection is fresh"),
    }
    match pool.get(&a) {
        Some(Checkout { conn: HttpConnection::H1(Some(3)), .. }) => {}
        _ => panic!("the second connection had expired"),
    }
    assert!(pool.get(&a).is_none());
    assert!(pool.get(&b).is_none());
}
