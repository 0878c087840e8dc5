use couscous::config::{
    default_log_level, select_mode, ClientConfig, ClientRoute, Config, ConfigError, LogLevel,
    Mode, RouteType, ServerConfig, ServerRoute, SockAddr, TimeUnit,
};
use couscous::flow::{handle_datagram, on_forward_outcome, on_open_outcome, FlowTable, UdpAction};
use couscous::handshake::{ClientHandshake, ServerHandshake};
use couscous::namemap::NameMap;
use couscous::codec::decode_frame;
use couscous::proto::{
    decode_auth, decode_res, decode_routes, Auth, RegisterRoute, RegisterRouteError,
    RegisterRouteRes, StreamStart,
};
use couscous::routes::{
    build_registration, classify_bind, dispatch_substream, effective_udp_buffer, route_lookup,
    substream_preamble, BindOutcome, Dispatch, Registrar,
};
use couscous::supervisor::{on_engine_error, on_handshake_complete, RetryDecision};
use couscous::{CODE_AUTH_FAILED, CODE_AUTH_SUCCESS, CODE_SHUTDOWN};

fn addr(ip: u128, port: u16) -> SockAddr {
    SockAddr { ip, port }
}

fn server_routes() -> NameMap<ServerRoute> {
    let mut m = NameMap::new();
    assert!(m.insert(
        String::from("web"),
        ServerRoute { bind: addr(0, 8080), _type: RouteType::Tcp, udp_buffer: None },
    ));
    assert!(m.insert(
        String::from("dns"),
        ServerRoute { bind: addr(0, 5300), _type: RouteType::Udp, udp_buffer: None },
    ));
    m
}

fn client_routes() -> NameMap<ClientRoute> {
    let mut m = NameMap::new();
    assert!(m.insert(
        String::from("web"),
        ClientRoute { to: addr(0x7F000001, 9000), _type: RouteType::Tcp, udp_buffer: None },
    ));
    assert!(m.insert(
        String::from("dns"),
        ClientRoute { to: addr(0x7F000001, 53), _type: RouteType::Udp, udp_buffer: None },
    ));
    m
}

#[test]
fn close_codes() {
    assert_eq!(CODE_SHUTDOWN, 0);
    assert_eq!(CODE_AUTH_FAILED, 10);
    assert_eq!(CODE_AUTH_SUCCESS, 11);
}

#[test]
fn server_auth_success_writes_single_ack_byte() {
    let mut h = ServerHandshake::new();
    let token = String::from("s3cret");
    let ack = h.on_auth(&Auth { token: String::from("s3cret") }, &token);
    assert_eq!(ack, Some(vec![CODE_AUTH_SUCCESS]));
}

#[test]
fn server_auth_failure_writes_nothing() {
    let mut h = ServerHandshake::new();
    let token = String::from("s3cret");
    let ack = h.on_auth(&Auth { token: String::from("wrong") }, &token);
    assert_eq!(ack, None);
    assert_eq!(h.auth_failure_code(), CODE_AUTH_FAILED);
}

#[test]
fn server_registration_answer_is_framed() {
    let mut h = ServerHandshake::new();
    let token = String::from("t");
    h.on_auth(&Auth { token: String::from("t") }, &token).unwrap();
    let bytes = h.on_registration_result(&RegisterRouteRes::Accepted);
    assert_eq!(bytes, vec![1, 0]);
}

#[test]
fn client_handshake_happy_path() {
    let mut h = ClientHandshake::new();
    let first = h.start(&Auth { token: String::from("t") });
    // one frame: payload is the one-character token string
    assert_eq!(first, vec![2, 1, b't']);
    assert!(h.on_ack(CODE_AUTH_SUCCESS));
    let routes = vec![RegisterRoute { name: String::from("web"), _type: RouteType::Tcp }];
    let frame = h.send_routes(&routes);
    assert_eq!(frame, vec![6, 1, 3, b'w', b'e', b'b', 0]);
    assert_eq!(h.on_result(RegisterRouteRes::Accepted), Ok(()));
}

#[test]
fn client_refuses_wrong_ack_byte() {
    let mut h = ClientHandshake::new();
    h.start(&Auth { token: String::from("t") });
    assert!(!h.on_ack(0));
}

#[test]
fn client_reports_unknown_route() {
    let mut h = ClientHandshake::new();
    h.start(&Auth { token: String::from("t") });
    assert!(h.on_ack(CODE_AUTH_SUCCESS));
    let api = RegisterRoute { name: String::from("api"), _type: RouteType::Tcp };
    h.send_routes(&vec![api.clone()]);
    let res = h.on_result(RegisterRouteRes::Rejected(RegisterRouteError::RouteNotFound(
        api.clone(),
    )));
    assert_eq!(res, Err(RegisterRouteError::RouteNotFound(api)));
}

#[test]
fn lookup_requires_name_and_type_to_match() {
    let routes = server_routes();
    let web = RegisterRoute { name: String::from("web"), _type: RouteType::Tcp };
    let found = route_lookup(&routes, &web).unwrap();
    assert_eq!(found.bind, addr(0, 8080));

    // unknown name
    let api = RegisterRoute { name: String::from("api"), _type: RouteType::Tcp };
    assert!(route_lookup(&routes, &api).is_none());

    // right name, wrong transport
    let web_udp = RegisterRoute { name: String::from("web"), _type: RouteType::Udp };
    assert!(route_lookup(&routes, &web_udp).is_none());
}

#[test]
fn duplicate_bind_reports_repeated() {
    let web = RegisterRoute { name: String::from("web"), _type: RouteType::Tcp };
    let res = classify_bind(web.clone(), BindOutcome::AddrInUse);
    assert_eq!(
        res,
        RegisterRouteRes::Rejected(RegisterRouteError::Repeated(web))
    );
}

#[test]
fn other_bind_failure_reports_reason() {
    let web = RegisterRoute { name: String::from("web"), _type: RouteType::Tcp };
    let res = classify_bind(web.clone(), BindOutcome::OtherFailure(String::from("denied")));
    assert_eq!(
        res,
        RegisterRouteRes::Rejected(RegisterRouteError::Other(String::from("denied"), web))
    );
    assert_eq!(
        classify_bind(web_clone_helper(), BindOutcome::Bound),
        RegisterRouteRes::Accepted
    );
}

fn web_clone_helper() -> RegisterRoute {
    RegisterRoute { name: String::from("web"), _type: RouteType::Tcp }
}

#[test]
fn registrar_keeps_only_first_refusal() {
    let mut reg = Registrar::new();
    assert!(reg.in_progress());
    assert!(reg.record_started(String::from("web"), 1));
    // a second listener for the same name is refused
    assert!(!reg.record_started(String::from("web"), 2));
    let api = RegisterRoute { name: String::from("api"), _type: RouteType::Tcp };
    let first = RegisterRouteRes::Rejected(RegisterRouteError::RouteNotFound(api));
    assert!(reg.record_refusal(first.clone()));
    assert!(!reg.in_progress());
    let web = RegisterRoute { name: String::from("web"), _type: RouteType::Tcp };
    let second = RegisterRouteRes::Rejected(RegisterRouteError::Repeated(web));
    assert!(!reg.record_refusal(second));
    assert_eq!(reg.result(), first);
}

#[test]
fn registrar_accepts_when_all_bound() {
    let mut reg = Registrar::new();
    assert!(reg.record_started(String::from("web"), 1));
    assert!(reg.record_started(String::from("dns"), 2));
    assert_eq!(reg.result(), RegisterRouteRes::Accepted);
}

#[test]
fn dispatch_by_preamble() {
    let routes = client_routes();
    let web = dispatch_substream(&routes, &StreamStart { route_name: String::from("web") });
    assert!(matches!(web, Some(Dispatch::Tcp { to }) if to == addr(0x7F000001, 9000)));
    let dns = dispatch_substream(&routes, &StreamStart { route_name: String::from("dns") });
    assert!(
        matches!(dns, Some(Dispatch::Udp { to, buffer }) if to == addr(0x7F000001, 53) && buffer == 2048)
    );
    // unknown route name: the substream is dropped
    let api = dispatch_substream(&routes, &StreamStart { route_name: String::from("api") });
    assert!(api.is_none());
}

#[test]
fn registration_list_covers_configured_routes() {
    let routes = client_routes();
    let reg = build_registration(&routes);
    assert_eq!(reg.len(), 2);
    let mut names: Vec<&str> = reg.iter().map(|r| r.name.as_str()).collect();
    names.sort();
    assert_eq!(names, vec!["dns", "web"]);
}

#[test]
fn preamble_is_framed_stream_start() {
    let bytes = substream_preamble(&StreamStart { route_name: String::from("web") });
    assert_eq!(bytes, vec![4, 3, b'w', b'e', b'b']);
}

#[test]
fn udp_two_sources_two_flows() {
    let mut table = FlowTable::new();
    let start = StreamStart { route_name: String::from("dns") };
    let a = addr(0x0A000001, 40000);
    let b = addr(0x0A000002, 40000);
    let datagram = vec![7u8; 40];

    let act_a = handle_datagram(&table, a, &start, &datagram);
    match act_a {
        UdpAction::OpenFlow { initial } => {
            // preamble frame, then the framed 40-byte datagram
            let mut expect = vec![4, 3, b'd', b'n', b's', 40];
            expect.extend_from_slice(&datagram);
            assert_eq!(initial, expect);
        },
        UdpAction::Forward { .. } => panic!("expected a fresh flow"),
    }
    assert!(on_open_outcome(&mut table, a, Some(1)));
    let act_b = handle_datagram(&table, b, &start, &datagram);
    assert!(matches!(act_b, UdpAction::OpenFlow { .. }));
    assert!(on_open_outcome(&mut table, b, Some(2)));

    assert_eq!(table.len(), 2);
    assert_eq!(table.get(a), Some(1));
    assert_eq!(table.get(b), Some(2));
}

#[test]
fn udp_existing_flow_forwards_framed_datagram() {
    let mut table = FlowTable::new();
    let start = StreamStart { route_name: String::from("dns") };
    let a = addr(0x0A000001, 40000);
    assert!(on_open_outcome(&mut table, a, Some(9)));
    let act = handle_datagram(&table, a, &start, &vec![1, 2, 3]);
    match act {
        UdpAction::Forward { stream, frame } => {
            assert_eq!(stream, 9);
            assert_eq!(frame, vec![3, 1, 2, 3]);
        },
        UdpAction::OpenFlow { .. } => panic!("flow already exists"),
    }
}

#[test]
fn udp_failed_open_records_nothing() {
    let mut table = FlowTable::new();
    let a = addr(1, 1);
    assert!(!on_open_outcome(&mut table, a, None));
    assert_eq!(table.len(), 0);
}

#[test]
fn udp_failed_forward_evicts() {
    let mut table = FlowTable::new();
    let a = addr(1, 1);
    assert!(on_open_outcome(&mut table, a, Some(4)));
    on_forward_outcome(&mut table, a, true);
    assert_eq!(table.get(a), Some(4));
    on_forward_outcome(&mut table, a, false);
    assert_eq!(table.get(a), None);
}

#[test]
fn eviction_of_absent_key_is_noop() {
    let mut table = FlowTable::new();
    let a = addr(1, 1);
    let b = addr(2, 2);
    assert!(on_open_outcome(&mut table, a, Some(4)));
    table.evict(b);
    assert_eq!(table.len(), 1);
    assert_eq!(table.get(a), Some(4));
    table.evict(b);
    assert_eq!(table.len(), 1);
}

#[test]
fn udp_flow_recovery_after_eviction() {
    let mut table = FlowTable::new();
    let start = StreamStart { route_name: String::from("dns") };
    let a = addr(0x0A000001, 40000);
    assert!(on_open_outcome(&mut table, a, Some(1)));
    // the inbound half fails and asks for its own eviction
    table.evict(a);
    assert_eq!(table.get(a), None);
    // the next datagram from the same source opens a fresh substream
    let act = handle_datagram(&table, a, &start, &vec![5, 5]);
    assert!(matches!(act, UdpAction::OpenFlow { .. }));
    assert!(on_open_outcome(&mut table, a, Some(2)));
    assert_eq!(table.get(a), Some(2));
}

#[test]
fn at_most_one_flow_per_source() {
    let mut table = FlowTable::new();
    let a = addr(1, 1);
    assert!(on_open_outcome(&mut table, a, Some(1)));
    assert!(!on_open_outcome(&mut table, a, Some(2)));
    assert_eq!(table.get(a), Some(1));
    assert_eq!(table.len(), 1);
}

#[test]
fn supervisor_stops_without_interval() {
    let mut n: usize = 3;
    let d = on_engine_error(&mut n, &None, &Some(5));
    assert!(matches!(d, RetryDecision::Stop));
    assert_eq!(n, 3);
}

#[test]
fn supervisor_retries_and_counts() {
    let mut n: usize = 0;
    let t = TimeUnit { secs: 2, nanos: 0 };
    let d = on_engine_error(&mut n, &Some(t), &None);
    assert!(matches!(d, RetryDecision::RetryAfter(u) if u == t));
    assert_eq!(n, 1);
}

#[test]
fn supervisor_stops_past_maximum() {
    let t = TimeUnit { secs: 1, nanos: 0 };
    let mut n: usize = 2;
    let d = on_engine_error(&mut n, &Some(t), &Some(2));
    assert!(matches!(d, RetryDecision::Stop));
    assert_eq!(n, 3);

    let mut m: usize = 1;
    let d2 = on_engine_error(&mut m, &Some(t), &Some(2));
    assert!(matches!(d2, RetryDecision::RetryAfter(_)));
    assert_eq!(m, 2);
}

#[test]
fn supervisor_resets_after_handshake() {
    let mut n: usize = 7;
    on_handshake_complete(&mut n);
    assert_eq!(n, 0);
}

#[test]
fn config_selects_exactly_one_side() {
    let neither = Config { server: None, client: None, log_level: LogLevel::Info };
    assert!(matches!(select_mode(neither), Err(ConfigError::NeitherSide)));

    let server = ServerConfig {
        bind: addr(0, 7000),
        route: server_routes(),
        token: String::from("t"),
        max_concurrent_bidi_streams: None,
    };
    let client = ClientConfig {
        remote: String::from("example.net:7000"),
        route: client_routes(),
        token: String::from("t"),
        retry_interval: None,
        max_retry: None,
        max_concurrent_bidi_streams: None,
    };
    let both = Config {
        server: Some(server),
        client: Some(client),
        log_level: LogLevel::Info,
    };
    assert!(matches!(select_mode(both), Err(ConfigError::BothSides)));

    let server2 = ServerConfig {
        bind: addr(0, 7000),
        route: server_routes(),
        token: String::from("t"),
        max_concurrent_bidi_streams: None,
    };
    let only = Config { server: Some(server2), client: None, log_level: LogLevel::Warn };
    assert!(matches!(select_mode(only), Ok(Mode::Server(_))));
}

#[test]
fn defaults() {
    assert_eq!(default_log_level(), LogLevel::Info);
    assert_eq!(effective_udp_buffer(None), 2048);
    assert_eq!(effective_udp_buffer(Some(4096)), 4096);
    let t = TimeUnit { secs: 3, nanos: 500 };
    assert_eq!(t.duration(), (3, 500));
}

#[test]
fn name_map_basics() {
    let mut m: NameMap<u64> = NameMap::new();
    assert_eq!(m.len(), 0);
    assert!(m.insert(String::from("web"), 7));
    assert!(!m.insert(String::from("web"), 8));
    assert_eq!(m.len(), 1);
    assert_eq!(m.get(&String::from("web")), Some(&7));
    assert!(m.get(&String::from("api")).is_none());
    assert!(m.contains_name(&String::from("web")));
    let entries = m.entries();
    assert_eq!(entries.len(), 1);
    assert_eq!(entries[0].0, "web");
    assert_eq!(entries[0].1, 7);
}

#[test]
fn wire_interop_full_handshake() {
    // client side prepares, server side decodes, and back
    let mut client = ClientHandshake::new();
    let mut server = ServerHandshake::new();
    let token = String::from("shared-token");

    // auth frame travels client -> server
    let auth_bytes = client.start(&Auth { token: token.clone() });
    let (auth_payload, used) = decode_frame(&auth_bytes, 0).unwrap();
    assert_eq!(used, auth_bytes.len());
    let (auth, _) = decode_auth(&auth_payload, 0).unwrap();
    assert_eq!(auth.token, token);

    // ack byte travels server -> client, before anything else
    let ack = server.on_auth(&auth, &token).unwrap();
    assert_eq!(ack, vec![CODE_AUTH_SUCCESS]);
    assert!(client.on_ack(ack[0]));

    // registration frame travels client -> server
    let registration = build_registration(&client_routes());
    let reg_bytes = client.send_routes(&registration);
    let (reg_payload, _) = decode_frame(&reg_bytes, 0).unwrap();
    let (routes_back, _) = decode_routes(&reg_payload, 0).unwrap();
    assert_eq!(routes_back, registration);

    // the answer travels server -> client
    let res_bytes = server.on_registration_result(&RegisterRouteRes::Accepted);
    let (res_payload, _) = decode_frame(&res_bytes, 0).unwrap();
    let (res, _) = decode_res(&res_payload, 0).unwrap();
    assert_eq!(client.on_result(res), Ok(()));
}

#[test]
fn wire_interop_refusal() {
    let mut server = ServerHandshake::new();
    let token = String::from("t");
    server.on_auth(&Auth { token: String::from("t") }, &token).unwrap();

    let api = RegisterRoute { name: String::from("api"), _type: RouteType::Tcp };
    let refusal = RegisterRouteRes::Rejected(RegisterRouteError::RouteNotFound(api.clone()));
    let res_bytes = server.on_registration_result(&refusal);
    let (res_payload, _) = decode_frame(&res_bytes, 0).unwrap();
    let (res, _) = decode_res(&res_payload, 0).unwrap();
    assert_eq!(res, refusal);

    let mut client = ClientHandshake::new();
    client.start(&Auth { token: String::from("t") });
    assert!(client.on_ack(CODE_AUTH_SUCCESS));
    client.send_routes(&vec![api.clone()]);
    assert_eq!(client.on_result(res), Err(RegisterRouteError::RouteNotFound(api)));
}
