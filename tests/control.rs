use spirc_web::codec::{decode, encode, TrackId};
use spirc_web::error::ControlError;
use spirc_web::handler::{
    devices_response, error_response, parse_command, plan, queue_response, submitted_response,
    Command, Device, QueueRead, Step, TrackQueue, TransportCommand,
};
use spirc_web::http::{enable_cors, Method, Response};
use spirc_web::router::{decode_segment, route, same_text, Route};

fn header<'a>(r: &'a Response, name: &str) -> Option<&'a str> {
    r.headers.iter().find(|(n, _)| n == name).map(|(_, v)| v.as_str())
}

fn assert_cors(r: &Response) {
    assert_eq!(header(r, "Access-Control-Allow-Origin"), Some("*"));
    assert_eq!(
        header(r, "Access-Control-Allow-Headers"),
        Some("Origin X-Requested-With Content-Type Accept")
    );
}

fn ids(v: &[&str]) -> Option<Vec<String>> {
    Some(v.iter().map(|s| s.to_string()).collect())
}

#[test]
fn codec_known_vectors() {
    let t = TrackId { id: 238762092608182713602505436543891614649 };
    assert_eq!(encode(t), "5sWHDYs0csV6RS48xBl0tH");
    assert_eq!(decode("5sWHDYs0csV6RS48xBl0tH"), Ok(t));
    assert_eq!(encode(TrackId { id: 0 }), "0000000000000000000000");
    assert_eq!(decode("4GNcXTGWmnZ3ySrqvol3o4"), Ok(TrackId { id: 204841891221366092811751085145916697048 }));
}

#[test]
fn codec_round_trip() {
    for id in [0u128, 1, 61, 62, 125, 39134, u64::MAX as u128, u128::MAX - 1, u128::MAX] {
        let t = TrackId { id };
        let text = encode(t);
        assert_eq!(text.len(), 22);
        assert_eq!(decode(&text), Ok(t));
    }
    for s in ["0000000000000000000000", "5sWHDYs0csV6RS48xBl0tH", "000000000000000000000z"] {
        assert_eq!(encode(decode(s).unwrap()), s);
    }
}

#[test]
fn codec_rejects_symbols() {
    assert_eq!(decode("!@#"), Err(ControlError::MalformedIdentifier));
    assert_eq!(decode("!!!!!Ys0csV6RS48xBl0tH"), Err(ControlError::MalformedIdentifier));
    assert_eq!(decode("a-b"), Err(ControlError::MalformedIdentifier));
}

#[test]
fn codec_rejects_values_out_of_range() {
    assert_eq!(decode("ZZZZZZZZZZZZZZZZZZZZZZ"), Err(ControlError::MalformedIdentifier));
    assert_eq!(decode("10000000000000000000000"), Err(ControlError::MalformedIdentifier));
    assert_eq!(decode("7N42dgm5tFLK9N8MT7fHC7"), Ok(TrackId { id: u128::MAX }));
    assert_eq!(decode("7N42dgm5tFLK9N8MT7fHC8"), Err(ControlError::MalformedIdentifier));
}

#[test]
fn codec_short_and_padded_texts() {
    assert_eq!(decode("21"), Ok(TrackId { id: 125 }));
    assert_eq!(decode("abc"), Ok(TrackId { id: 39134 }));
    assert_eq!(decode(""), Ok(TrackId { id: 0 }));
    assert_eq!(decode("00005sWHDYs0csV6RS48xBl0tH"), decode("5sWHDYs0csV6RS48xBl0tH"));
    assert_eq!(encode(TrackId { id: 125 }), "0000000000000000000021");
}

#[test]
fn devices_on_empty_controller() {
    assert!(matches!(route(Method::Get, "/devices"), Route::ListDevices));
    assert!(matches!(plan(&route(Method::Get, "/devices"), &None), Step::FetchDevices));
    let r = devices_response(&vec![]);
    assert_eq!(r.status, 200);
    assert_eq!(r.body, "[]");
    assert_cors(&r);
}

#[test]
fn devices_as_json_objects() {
    let devs = vec![
        Device { id: "d1".to_string(), name: "Kitchen".to_string() },
        Device { id: "d2".to_string(), name: "Say \"hi\"".to_string() },
    ];
    let r = devices_response(&devs);
    assert_eq!(r.status, 200);
    assert_eq!(
        r.body,
        "[{\"id\":\"d1\",\"name\":\"Kitchen\"},{\"id\":\"d2\",\"name\":\"Say \\\"hi\\\"\"}]"
    );
    assert_cors(&r);
}

#[test]
fn unknown_device_tracks() {
    let rt = route(Method::Get, "/unknown-device/tracks");
    assert!(matches!(&rt, Route::DeviceTracks(d) if d == "unknown-device"));
    match plan(&rt, &None) {
        Step::FetchQueue(d, QueueRead::AllTracks) => assert_eq!(d, "unknown-device"),
        other => panic!("unexpected step {:?}", other),
    }
    let r = queue_response(QueueRead::AllTracks, &None);
    assert_eq!(r.status, 404);
    assert_eq!(r.body, "No tracks for that device id.");
    assert_cors(&r);
}

#[test]
fn device_tracks_listed_in_order() {
    let q = TrackQueue { ids: vec![TrackId { id: 125 }, TrackId { id: 0 }], index: 1 };
    let r = queue_response(QueueRead::AllTracks, &Some(q));
    assert_eq!(r.status, 200);
    assert_eq!(r.body, "[\"0000000000000000000021\",\"0000000000000000000000\"]");
    assert_cors(&r);
    let empty = TrackQueue { ids: vec![], index: 0 };
    assert_eq!(queue_response(QueueRead::AllTracks, &Some(empty)).body, "[]");
}

#[test]
fn current_track() {
    let rt = route(Method::Get, "/device1/track");
    assert!(matches!(&rt, Route::CurrentTrack(d) if d == "device1"));
    assert!(matches!(plan(&rt, &None), Step::FetchQueue(_, QueueRead::CurrentTrack)));
    let q = TrackQueue { ids: vec![TrackId { id: 0 }, TrackId { id: 125 }], index: 1 };
    let r = queue_response(QueueRead::CurrentTrack, &Some(q));
    assert_eq!(r.status, 200);
    assert_eq!(r.body, "0000000000000000000021");
    assert_cors(&r);
}

#[test]
fn current_track_missing() {
    let r = queue_response(QueueRead::CurrentTrack, &None);
    assert_eq!(r.status, 404);
    assert_eq!(r.body, "No track for that device id.");
    assert_cors(&r);
    let empty = TrackQueue { ids: vec![], index: 0 };
    let r = queue_response(QueueRead::CurrentTrack, &Some(empty));
    assert_eq!(r.status, 404);
    assert_eq!(r.body, "No track for that device id.");
    let past = TrackQueue { ids: vec![TrackId { id: 3 }], index: 1 };
    assert_eq!(queue_response(QueueRead::CurrentTrack, &Some(past)).status, 404);
}

#[test]
fn put_tracks_without_id() {
    let rt = route(Method::Put, "/device1/tracks");
    assert!(matches!(&rt, Route::ReplaceQueue(d) if d == "device1"));
    match plan(&rt, &None) {
        Step::Respond(r) => {
            assert_eq!(r.status, 400);
            assert_cors(&r);
        }
        other => panic!("unexpected step {:?}", other),
    }
    assert!(matches!(plan(&rt, &Some(vec![])), Step::Respond(r) if r.status == 400));
}

#[test]
fn put_tracks_submits_replace_in_order() {
    let rt = route(Method::Put, "/device1/tracks");
    match plan(&rt, &ids(&["21", "abc"])) {
        Step::Submit(d, Command::ReplaceQueue(v)) => {
            assert_eq!(d, "device1");
            assert_eq!(v, vec![TrackId { id: 125 }, TrackId { id: 39134 }]);
        }
        other => panic!("unexpected step {:?}", other),
    }
    let r = submitted_response();
    assert_eq!(r.status, 200);
    assert_eq!(r.body, "");
    assert_cors(&r);
}

#[test]
fn post_tracks_submits_append_in_order() {
    let rt = route(Method::Post, "/device1/tracks");
    assert!(matches!(&rt, Route::AppendQueue(d) if d == "device1"));
    match plan(&rt, &ids(&["abc", "21", "abc"])) {
        Step::Submit(d, Command::AppendQueue(v)) => {
            assert_eq!(d, "device1");
            assert_eq!(v, vec![TrackId { id: 39134 }, TrackId { id: 125 }, TrackId { id: 39134 }]);
        }
        other => panic!("unexpected step {:?}", other),
    }
    assert!(matches!(plan(&rt, &None), Step::Respond(r) if r.status == 400));
}

#[test]
fn malformed_track_id_rejects_request() {
    let rt = route(Method::Put, "/device1/tracks");
    match plan(&rt, &ids(&["21", "!@#"])) {
        Step::Respond(r) => {
            assert_eq!(r.status, 400);
            assert_cors(&r);
        }
        other => panic!("unexpected step {:?}", other),
    }
}

#[test]
fn transport_pause_and_unknown() {
    let rt = route(Method::Put, "/device1/pause");
    assert!(matches!(&rt, Route::Transport(d, c) if d == "device1" && c == "pause"));
    match plan(&rt, &None) {
        Step::Submit(d, Command::Pause) => assert_eq!(d, "device1"),
        other => panic!("unexpected step {:?}", other),
    }
    match plan(&route(Method::Put, "/device1/blorp"), &None) {
        Step::Respond(r) => {
            assert_eq!(r.status, 404);
            assert_cors(&r);
        }
        other => panic!("unexpected step {:?}", other),
    }
}

#[test]
fn transport_commands() {
    assert_eq!(parse_command("pause"), Some(TransportCommand::Pause));
    assert_eq!(parse_command("play"), Some(TransportCommand::Play));
    assert_eq!(parse_command("next"), Some(TransportCommand::Next));
    assert_eq!(parse_command("prev"), Some(TransportCommand::Prev));
    assert_eq!(parse_command("previous"), None);
    assert_eq!(parse_command("Pause"), None);
    assert!(matches!(plan(&route(Method::Put, "/d/play"), &None), Step::Submit(_, Command::Play)));
    assert!(matches!(plan(&route(Method::Put, "/d/next"), &None), Step::Submit(_, Command::Next)));
    assert!(matches!(plan(&route(Method::Put, "/d/prev"), &None), Step::Submit(_, Command::Prev)));
}

#[test]
fn unmatched_routes() {
    for (m, p) in [
        (Method::Get, "/"),
        (Method::Get, ""),
        (Method::Get, "devices"),
        (Method::Post, "/devices"),
        (Method::Other, "/devices"),
        (Method::Get, "/a/b/c"),
        (Method::Get, "//tracks"),
        (Method::Get, "/device1/"),
        (Method::Get, "/device1/pause"),
        (Method::Post, "/device1/pause"),
        (Method::Other, "/device1/tracks"),
    ] {
        let rt = route(m, p);
        assert!(matches!(rt, Route::NotFound), "{:?} {}", m, p);
        match plan(&rt, &None) {
            Step::Respond(r) => {
                assert_eq!(r.status, 404);
                assert_cors(&r);
            }
            other => panic!("unexpected step {:?}", other),
        }
    }
}

#[test]
fn segments_are_percent_decoded() {
    assert!(matches!(route(Method::Get, "/devices/tracks"), Route::DeviceTracks(d) if d == "devices"));
    assert!(matches!(route(Method::Put, "/my%20box/play"), Route::Transport(d, c) if d == "my box" && c == "play"));
    assert!(matches!(route(Method::Get, "/a%2Fb/track"), Route::CurrentTrack(d) if d == "a/b"));
    match plan(&route(Method::Put, "/device1/%70ause"), &None) {
        Step::Submit(d, Command::Pause) => assert_eq!(d, "device1"),
        other => panic!("unexpected step {:?}", other),
    }
    assert!(matches!(route(Method::Get, "/x/%74racks"), Route::NotFound));
    assert_eq!(decode_segment("100%"), "100%");
    assert_eq!(decode_segment("%4g%41%"), "%4gA%");
    assert_eq!(decode_segment("%e2%82%ac"), "%e2%82%ac");
    assert_eq!(decode_segment("caf\u{e9}%21"), "caf\u{e9}!");
}

#[test]
fn error_statuses_and_cors() {
    let cases = [
        (ControlError::UnknownDevice, 404, "Unknown device id."),
        (ControlError::MalformedIdentifier, 400, "Malformed track id."),
        (ControlError::MissingRequiredField, 400, "Missing id field."),
        (ControlError::UnknownCommand, 404, "Unknown command."),
    ];
    for (e, status, message) in cases {
        let r = error_response(e);
        assert_eq!(r.status, status);
        assert_eq!(r.body, message);
        assert_eq!(e.message(), message);
        assert_cors(&r);
    }
    let mut r = Response { status: 204, headers: vec![("X-A".to_string(), "1".to_string())], body: "b".to_string() };
    enable_cors(&mut r);
    assert_eq!(r.status, 204);
    assert_eq!(r.body, "b");
    assert_eq!(r.headers[0], ("X-A".to_string(), "1".to_string()));
    assert_eq!(r.headers.len(), 3);
    assert_cors(&r);
    assert_cors(&Response::new(500, "x".to_string()));
}

#[test]
fn same_text_compares_characters() {
    assert!(same_text("tracks", "tracks"));
    assert!(!same_text("tracks", "track"));
    assert!(!same_text("", "a"));
    assert!(same_text("", ""));
}

#[test]
fn cors_replaces_earlier_values() {
    let h = |n: &str, v: &str| (n.to_string(), v.to_string());
    let mut r = Response {
        status: 404,
        headers: vec![
            h("Access-Control-Allow-Origin", "https://example.org"),
            h("X-A", "1"),
            h("Access-Control-Allow-Headers", "X-Other"),
            h("X-B", "2"),
        ],
        body: String::new(),
    };
    enable_cors(&mut r);
    assert_eq!(
        r.headers,
        vec![
            h("X-A", "1"),
            h("X-B", "2"),
            h("Access-Control-Allow-Origin", "*"),
            h("Access-Control-Allow-Headers", "Origin X-Requested-With Content-Type Accept"),
        ]
    );
    enable_cors(&mut r);
    assert_eq!(r.headers.len(), 4);
    let fresh = Response::new(200, String::new());
    assert_eq!(fresh.headers.len(), 2);
    assert_eq!(fresh.headers[0], h("Access-Control-Allow-Origin", "*"));
}

#[test]
fn error_bodies_in_plan() {
    match plan(&route(Method::Put, "/device1/tracks"), &None) {
        Step::Respond(r) => assert_eq!(r.body, "Missing id field."),
        other => panic!("unexpected step {:?}", other),
    }
    match plan(&route(Method::Put, "/device1/tracks"), &ids(&["!@#"])) {
        Step::Respond(r) => assert_eq!(r.body, "Malformed track id."),
        other => panic!("unexpected step {:?}", other),
    }
    match plan(&route(Method::Put, "/device1/blorp"), &None) {
        Step::Respond(r) => assert_eq!(r.body, "Unknown command."),
        other => panic!("unexpected step {:?}", other),
    }
    match plan(&route(Method::Get, "/nowhere"), &None) {
        Step::Respond(r) => assert_eq!(r.body, "Not found."),
        other => panic!("unexpected step {:?}", other),
    }
}

#[test]
fn single_track_list_json() {
    let q = TrackQueue { ids: vec![TrackId { id: 238762092608182713602505436543891614649 }], index: 0 };
    assert_eq!(queue_response(QueueRead::AllTracks, &Some(q)).body, "[\"5sWHDYs0csV6RS48xBl0tH\"]");
}
