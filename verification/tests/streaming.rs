//! Worker, coordinator, listing and stream-path tests.

use base64::Engine;

use sshvideo::coordinator::AuthChoice;
use sshvideo::coordinator::Coordinator;
use sshvideo::coordinator::RouteTarget;
use sshvideo::coordinator::SshConfig;
use sshvideo::coordinator::auth_method;
use sshvideo::listing::filter_and_sort_videos;
use sshvideo::streampath::parse_stream_path;
use sshvideo::worker::Worker;

fn test_config(host: &str) -> SshConfig {
    SshConfig {
        host: host.to_string(),
        port: 22,
        username: "media".to_string(),
        password: Some("SECRET-REDACTED".to_string()),
        private_key: None,
        passphrase: None,
    }
}

#[test]
fn no_range_header_serves_default_chunk() {
    let mut w = Worker::new("dir/movie.mp4".to_string());
    w.on_start(Ok(5_000_000));
    let (start, end) = match w.plan_request(None) {
        Ok(win) => win,
        Err(_) => panic!("a window was expected"),
    };
    assert_eq!(start, 0);
    assert_eq!(end, 2_097_151);
    let body = vec![7u8; 2_097_152];
    let resp = w.finish_request(start, end, Ok(body));
    assert_eq!(resp.status, 206);
    assert_eq!(resp.content_range.as_deref(), Some("bytes 0-2097151/5000000"));
    assert_eq!(resp.content_length, Some(2_097_152));
    assert_eq!(resp.content_type.as_deref(), Some("video/mp4"));
    assert_eq!(resp.cache_control.as_deref(), Some("no-store"));
    assert_eq!(resp.accept_ranges.as_deref(), Some("bytes"));
    assert_eq!(resp.body.len(), 2_097_152);
}

#[test]
fn tail_range_served_exactly() {
    let mut w = Worker::new("show.webm".to_string());
    w.on_start(Ok(1000));
    let (start, end) = match w.plan_request(Some("bytes=900-")) {
        Ok(win) => win,
        Err(_) => panic!("a window was expected"),
    };
    assert_eq!((start, end), (900, 999));
    let resp = w.finish_request(start, end, Ok(vec![1u8; 100]));
    assert_eq!(resp.status, 206);
    assert_eq!(resp.content_range.as_deref(), Some("bytes 900-999/1000"));
    assert_eq!(resp.content_length, Some(100));
    assert_eq!(resp.content_type.as_deref(), Some("video/webm"));
}

#[test]
fn unusable_range_falls_back_to_default_window() {
    let mut w = Worker::new("m.mkv".to_string());
    w.on_start(Ok(1000));
    let (start, end) = match w.plan_request(Some("bytes=2000-3000")) {
        Ok(win) => win,
        Err(_) => panic!("a window was expected"),
    };
    assert_eq!((start, end), (0, 999));
    let resp = w.finish_request(start, end, Ok(vec![2u8; 1000]));
    assert_eq!(resp.status, 206);
    assert_eq!(resp.content_range.as_deref(), Some("bytes 0-999/1000"));
    assert_eq!(resp.content_length, Some(1000));
}

#[test]
fn empty_file_is_an_error_without_a_window() {
    let mut w = Worker::new("m.mp4".to_string());
    w.on_start(Ok(0));
    let resp = match w.plan_request(None) {
        Ok(_) => panic!("no window may be computed for an empty file"),
        Err(resp) => resp,
    };
    assert_eq!(resp.status, 500);
    assert_eq!(resp.body, b"Remote file is empty or size unavailable.".to_vec());
    assert!(resp.content_range.is_none());
    assert!(resp.content_length.is_none());
}

#[test]
fn short_read_yields_error_not_truncated_body() {
    let mut w = Worker::new("m.mp4".to_string());
    w.on_start(Ok(1000));
    let (start, end) = w.plan_request(Some("bytes=0-99")).unwrap_or((0, 0));
    assert_eq!((start, end), (0, 99));
    let resp = w.finish_request(start, end, Ok(vec![0u8; 40]));
    assert_eq!(resp.status, 500);
    assert!(resp.content_range.is_none());
}

#[test]
fn failed_startup_drains_requests_with_captured_error() {
    let mut w = Worker::new("m.mp4".to_string());
    w.on_start(Err("SSH handshake failed: refused".to_string()));
    let resp = match w.plan_request(Some("bytes=0-")) {
        Ok(_) => panic!("a draining worker serves no window"),
        Err(resp) => resp,
    };
    assert_eq!(resp.status, 500);
    assert_eq!(resp.body, b"SSH handshake failed: refused".to_vec());
    // A draining worker ignores shutdown and keeps answering until its
    // channel closes.
    assert!(!w.on_shutdown());
    let again = match w.plan_request(None) {
        Ok(_) => panic!("still draining"),
        Err(resp) => resp,
    };
    assert_eq!(again.status, 500);
}

#[test]
fn serving_worker_stops_on_shutdown() {
    let mut w = Worker::new("m.mp4".to_string());
    w.on_start(Ok(10));
    assert!(w.on_shutdown());
}

#[test]
fn responses_follow_request_order_on_one_worker() {
    let mut w = Worker::new("m.mp4".to_string());
    w.on_start(Ok(1000));
    let file: Vec<u8> = (0..1000u32).map(|i| (i % 251) as u8).collect();
    let mut collected: Vec<u8> = Vec::new();
    for header in ["bytes=0-499", "bytes=500-999"] {
        let (start, end) = match w.plan_request(Some(header)) {
            Ok(win) => win,
            Err(_) => panic!("a window was expected"),
        };
        let body = file[start as usize..=end as usize].to_vec();
        let resp = w.finish_request(start, end, Ok(body));
        assert_eq!(resp.status, 206);
        collected.extend_from_slice(&resp.body);
    }
    // The two disjoint windows reassemble the file exactly.
    assert_eq!(collected, file);
}

#[test]
fn routing_requires_configuration() {
    let mut c = Coordinator::new();
    let path = "movies/a.mp4".to_string();
    assert!(matches!(c.route(&path), RouteTarget::Unconfigured));
}

#[test]
fn replacement_invalidates_workers_and_bumps_generation() {
    let mut c = Coordinator::new();
    let path = "movies/a.mp4".to_string();
    let stale = c.set_active_config(test_config("one"));
    assert_eq!(stale.len(), 0);
    assert_eq!(c.generation, 1);
    match c.route(&path) {
        RouteTarget::Created { config } => assert_eq!(config.host, "one"),
        _ => panic!("a fresh worker was expected"),
    }
    assert!(matches!(c.route(&path), RouteTarget::Existing));
    let stale = c.set_active_config(test_config("two"));
    assert_eq!(stale.len(), 1);
    assert_eq!(stale[0].path, "movies/a.mp4");
    assert_eq!(stale[0].generation, 1);
    assert_eq!(c.generation, 2);
    match c.route(&path) {
        RouteTarget::Created { config } => assert_eq!(config.host, "two"),
        _ => panic!("the stale registration must not be reused"),
    }
}

#[test]
fn distinct_paths_get_distinct_workers() {
    let mut c = Coordinator::new();
    c.set_active_config(test_config("one"));
    let a = "a.mp4".to_string();
    let b = "b.mp4".to_string();
    assert!(matches!(c.route(&a), RouteTarget::Created { .. }));
    assert!(matches!(c.route(&b), RouteTarget::Created { .. }));
    assert!(matches!(c.route(&a), RouteTarget::Existing));
    assert!(matches!(c.route(&b), RouteTarget::Existing));
}

#[test]
fn key_auth_preferred_over_password() {
    let mut cfg = test_config("h");
    cfg.private_key = Some("KEY".to_string());
    match auth_method(&cfg) {
        Ok(AuthChoice::PrivateKey { key, passphrase }) => {
            assert_eq!(key, "KEY");
            assert!(passphrase.is_none());
        },
        _ => panic!("key auth was expected"),
    }
    cfg.private_key = None;
    match auth_method(&cfg) {
        Ok(AuthChoice::Password { password }) => assert_eq!(password, "SECRET-REDACTED"),
        _ => panic!("password auth was expected"),
    }
    cfg.password = None;
    match auth_method(&cfg) {
        Err(msg) => assert_eq!(msg, "Provide a password or private key for authentication."),
        _ => panic!("an unauthenticated config must be rejected"),
    }
}

#[test]
fn listing_filters_and_sorts_case_insensitively() {
    let entries: Vec<String> = ["B.mp4", "notes.txt", "a.MKV", "Zed.webm", "apple.Mp4", "plain"]
        .iter()
        .map(|s| s.to_string())
        .collect();
    let sorted = filter_and_sort_videos(entries);
    assert_eq!(sorted, vec!["a.MKV", "apple.Mp4", "B.mp4", "Zed.webm"]);
}

#[test]
fn stream_path_roundtrip() {
    let enc = base64::engine::general_purpose::URL_SAFE_NO_PAD.encode("movies/a long name.mp4");
    let uri = format!("sshvideo://stream/{}", enc);
    assert_eq!(parse_stream_path(&uri), Ok("movies/a long name.mp4".to_string()));
    let uri_with_query = format!("sshvideo://stream/{}?t=3", enc);
    assert_eq!(parse_stream_path(&uri_with_query), Ok("movies/a long name.mp4".to_string()));
}

#[test]
fn malformed_stream_paths_rejected() {
    assert_eq!(
        parse_stream_path("http://other/x"),
        Err("Invalid stream URI.".to_string())
    );
    assert_eq!(
        parse_stream_path("sshvideo://stream/!!!"),
        Err("Invalid stream path encoding.".to_string())
    );
    let enc = base64::engine::general_purpose::URL_SAFE_NO_PAD.encode([0xffu8, 0xfe]);
    let uri = format!("sshvideo://stream/{}", enc);
    assert_eq!(
        parse_stream_path(&uri),
        Err("Stream path is not valid UTF-8.".to_string())
    );
}

#[test]
fn bad_identifier_rejected_before_any_worker_lookup() {
    let mut c = Coordinator::new();
    c.set_active_config(test_config("one"));
    match c.dispatch("sshvideo://stream/!!!") {
        sshvideo::coordinator::Dispatch::Reject(resp) => {
            assert_eq!(resp.status, 400);
            assert_eq!(resp.body, b"Invalid stream path encoding.".to_vec());
        }
        _ => panic!("a malformed identifier must be rejected"),
    }
    // No worker was looked up or created.
    assert_eq!(c.registry.len(), 0);
}

#[test]
fn unconfigured_dispatch_rejected_with_401() {
    let mut c = Coordinator::new();
    let enc = base64::engine::general_purpose::URL_SAFE_NO_PAD.encode("a.mp4");
    let uri = format!("sshvideo://stream/{}", enc);
    match c.dispatch(&uri) {
        sshvideo::coordinator::Dispatch::Reject(resp) => {
            assert_eq!(resp.status, 401);
            assert_eq!(resp.body, b"SSH config not set.".to_vec());
        }
        _ => panic!("an unconfigured coordinator must reject"),
    }
    assert_eq!(c.registry.len(), 0);
}

#[test]
fn valid_dispatch_routes_to_decoded_path() {
    let mut c = Coordinator::new();
    c.set_active_config(test_config("one"));
    let enc = base64::engine::general_purpose::URL_SAFE_NO_PAD.encode("movies/a.mp4");
    let uri = format!("sshvideo://stream/{}", enc);
    match c.dispatch(&uri) {
        sshvideo::coordinator::Dispatch::Route { path, target } => {
            assert_eq!(path, "movies/a.mp4");
            assert!(matches!(target, RouteTarget::Created { .. }));
        }
        _ => panic!("a valid request must be routed"),
    }
    match c.dispatch(&uri) {
        sshvideo::coordinator::Dispatch::Route { path, target } => {
            assert_eq!(path, "movies/a.mp4");
            assert!(matches!(target, RouteTarget::Existing));
        }
        _ => panic!("the second request must reach the same worker"),
    }
}

