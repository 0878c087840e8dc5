use couscous::config::RouteType;
use couscous::proto::{
    decode_auth, decode_err, decode_register_route, decode_res, decode_route_type,
    decode_routes, decode_stream_start, encode_auth, encode_err, encode_register_route,
    encode_res, encode_route_type, encode_routes, encode_stream_start, Auth, RegisterRoute,
    RegisterRouteError, RegisterRouteRes, StreamStart,
};

fn web_tcp() -> RegisterRoute {
    RegisterRoute { name: String::from("web"), _type: RouteType::Tcp }
}

#[test]
fn auth_round_trip() {
    let m = Auth { token: String::from("secret-token") };
    let mut enc = Vec::new();
    encode_auth(&m, &mut enc);
    let (back, end) = decode_auth(&enc, 0).unwrap();
    assert_eq!(back, m);
    assert_eq!(end, enc.len());
}

#[test]
fn stream_start_round_trip() {
    let m = StreamStart { route_name: String::from("dns") };
    let mut enc = Vec::new();
    encode_stream_start(&m, &mut enc);
    assert_eq!(enc, vec![3, b'd', b'n', b's']);
    let (back, end) = decode_stream_start(&enc, 0).unwrap();
    assert_eq!(back, m);
    assert_eq!(end, 4);
}

#[test]
fn route_type_bytes() {
    let mut enc = Vec::new();
    encode_route_type(RouteType::Tcp, &mut enc);
    encode_route_type(RouteType::Udp, &mut enc);
    assert_eq!(enc, vec![0, 1]);
    assert_eq!(decode_route_type(&enc, 0), Some((RouteType::Tcp, 1)));
    assert_eq!(decode_route_type(&enc, 1), Some((RouteType::Udp, 2)));
}

#[test]
fn route_type_invalid_refused() {
    assert_eq!(decode_route_type(&[7], 0), None);
    assert_eq!(decode_route_type(&[], 0), None);
}

#[test]
fn register_route_round_trip() {
    let m = web_tcp();
    let mut enc = Vec::new();
    encode_register_route(&m, &mut enc);
    assert_eq!(enc, vec![3, b'w', b'e', b'b', 0]);
    let (back, end) = decode_register_route(&enc, 0).unwrap();
    assert_eq!(back, m);
    assert_eq!(end, 5);
}

#[test]
fn res_accepted_round_trip() {
    let m = RegisterRouteRes::Accepted;
    let mut enc = Vec::new();
    encode_res(&m, &mut enc);
    assert_eq!(enc, vec![0]);
    let (back, end) = decode_res(&enc, 0).unwrap();
    assert_eq!(back, m);
    assert_eq!(end, 1);
}

#[test]
fn res_repeated_round_trip() {
    let m = RegisterRouteRes::Rejected(RegisterRouteError::Repeated(web_tcp()));
    let mut enc = Vec::new();
    encode_res(&m, &mut enc);
    assert_eq!(enc, vec![1, 0, 3, b'w', b'e', b'b', 0]);
    let (back, end) = decode_res(&enc, 0).unwrap();
    assert_eq!(back, m);
    assert_eq!(end, enc.len());
}

#[test]
fn res_not_found_round_trip() {
    let api = RegisterRoute { name: String::from("api"), _type: RouteType::Tcp };
    let m = RegisterRouteRes::Rejected(RegisterRouteError::RouteNotFound(api));
    let mut enc = Vec::new();
    encode_res(&m, &mut enc);
    assert_eq!(enc, vec![1, 1, 3, b'a', b'p', b'i', 0]);
    let (back, _) = decode_res(&enc, 0).unwrap();
    assert_eq!(back, m);
}

#[test]
fn res_other_round_trip() {
    let m = RegisterRouteRes::Rejected(RegisterRouteError::Other(
        String::from("permission denied"),
        web_tcp(),
    ));
    let mut enc = Vec::new();
    encode_res(&m, &mut enc);
    let (back, end) = decode_res(&enc, 0).unwrap();
    assert_eq!(back, m);
    assert_eq!(end, enc.len());
}

#[test]
fn err_round_trip_alone() {
    let e = RegisterRouteError::Repeated(web_tcp());
    let mut enc = Vec::new();
    encode_err(&e, &mut enc);
    let (back, end) = decode_err(&enc, 0).unwrap();
    assert_eq!(back, e);
    assert_eq!(end, enc.len());
}

#[test]
fn err_bad_tag_refused() {
    assert_eq!(decode_err(&[9], 0), None);
    assert_eq!(decode_res(&[7], 0), None);
}

#[test]
fn routes_round_trip() {
    let routes = vec![
        web_tcp(),
        RegisterRoute { name: String::from("dns"), _type: RouteType::Udp },
    ];
    let mut enc = Vec::new();
    encode_routes(&routes, &mut enc);
    assert_eq!(
        enc,
        vec![2, 3, b'w', b'e', b'b', 0, 3, b'd', b'n', b's', 1]
    );
    let (back, end) = decode_routes(&enc, 0).unwrap();
    assert_eq!(back, routes);
    assert_eq!(end, enc.len());
}

#[test]
fn routes_empty_round_trip() {
    let routes: Vec<RegisterRoute> = Vec::new();
    let mut enc = Vec::new();
    encode_routes(&routes, &mut enc);
    assert_eq!(enc, vec![0]);
    let (back, end) = decode_routes(&enc, 0).unwrap();
    assert!(back.is_empty());
    assert_eq!(end, 1);
}

#[test]
fn routes_truncated_refused() {
    // announces two routes, carries one
    let bytes = vec![2, 3, b'w', b'e', b'b', 0];
    assert_eq!(decode_routes(&bytes, 0), None);
}
