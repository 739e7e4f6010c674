use std::hash::{Hash, Hasher};

use rdm_core::bridge::{
    blocked_key, captured_text, download_job, filename_from_url, hex16, is_blocked,
    json_headers_to_vec, media_item, media_title, osc8_link, uuid_from_url, workspace_root,
    CapturedHeader, DownloadStatus, JsonItem, JsonValue, MediaReport, SyncConfig, VideoListItem,
    VideoTracker,
};

fn text(name: &str, value: &str) -> CapturedHeader {
    CapturedHeader { name: name.to_string(), value: JsonValue::Text(value.to_string()) }
}

fn list(name: &str, values: &[&str]) -> CapturedHeader {
    CapturedHeader {
        name: name.to_string(),
        value: JsonValue::List(values.iter().map(|v| JsonItem::Text(v.to_string())).collect()),
    }
}

fn item(id: &str, tab: &str, title: &str) -> VideoListItem {
    VideoListItem {
        id: id.to_string(),
        text: title.to_string(),
        info: "video/mp4".to_string(),
        tab_id: tab.to_string(),
        url: format!("http://media/{id}"),
        cookie: String::new(),
        request_headers: Vec::new(),
        response_headers: Vec::new(),
        method: None,
        user_agent: None,
        tab_url: None,
        referer: None,
    }
}

fn seen(entries: &[rdm_core::types::HeaderEntry]) -> Vec<(String, Vec<String>)> {
    entries.iter().map(|e| (e.name.clone(), e.values.clone())).collect()
}

#[test]
fn status_names() {
    assert_eq!(DownloadStatus::Running.name(), "running");
    assert_eq!(DownloadStatus::Complete.name(), "complete");
    assert_eq!(DownloadStatus::Failed.name(), "failed");
    assert_eq!(DownloadStatus::Cancelled.name(), "cancelled");
    assert_eq!(DownloadStatus::ended(true), DownloadStatus::Complete);
    assert_eq!(DownloadStatus::ended(false), DownloadStatus::Failed);
}

#[test]
fn blocked_headers() {
    for name in [
        "host", "connection", "keep-alive", "transfer-encoding", "te", "trailer", "upgrade",
        "proxy-authorization", "proxy-authenticate", "proxy-connection", "cookie",
        "accept-encoding", "range", "content-length", "content-type",
    ] {
        assert!(blocked_key(name), "{name}");
        assert!(is_blocked(name), "{name}");
        assert!(is_blocked(&name.to_uppercase()), "{name}");
    }
    assert!(is_blocked("Content-Type"));
    assert!(!blocked_key("Content-Type"));
    for name in ["user-agent", "referer", "accept", "authorization", "x-range", "", "hosts"] {
        assert!(!is_blocked(name), "{name}");
    }
}

#[test]
fn replayed_headers() {
    let headers = vec![
        list("User-Agent", &["ua"]),
        text("Accept", "*/*"),
        list("Range", &["bytes=0-"]),
        text("COOKIE", "a=b"),
        list("Empty", &[]),
        CapturedHeader { name: "Number".to_string(), value: JsonValue::Other("42".to_string()) },
        CapturedHeader {
            name: "Mixed".to_string(),
            value: JsonValue::List(vec![
                JsonItem::Other("1".to_string()),
                JsonItem::Text("x".to_string()),
                JsonItem::Other("1".to_string()),
                JsonItem::Text("y".to_string()),
            ]),
        },
        CapturedHeader { name: "Others".to_string(), value: JsonValue::List(vec![JsonItem::Other("{}".to_string())]) },
        text("Host", "example.com"),
    ];
    assert_eq!(
        seen(&json_headers_to_vec(&headers)),
        vec![
            ("User-Agent".to_string(), vec!["ua".to_string()]),
            ("Accept".to_string(), vec!["*/*".to_string()]),
            ("Mixed".to_string(), vec!["x".to_string(), "y".to_string()]),
        ]
    );
    assert!(json_headers_to_vec(&Vec::new()).is_empty());
}

#[test]
fn texts_of_captured_headers() {
    let headers = vec![
        list("content-type", &["lower"]),
        list("Content-Type", &["usual", "second"]),
        text("Referer", "not a list"),
        list("referer", &["lower referer"]),
        list("Empty", &[]),
    ];
    assert_eq!(
        captured_text(&headers, "Content-Type", "content-type"),
        Some("usual".to_string())
    );
    assert_eq!(captured_text(&headers, "Referer", "referer"), None);
    assert_eq!(captured_text(&headers[3..].to_vec(), "Referer", "referer"), Some("lower referer".to_string()));
    assert_eq!(captured_text(&headers, "Empty", "empty"), None);
    assert_eq!(captured_text(&headers, "Missing", "missing"), None);
}

#[test]
fn titles_of_media() {
    assert_eq!(media_title(Some("Tab"), "http://u"), "Tab");
    assert_eq!(media_title(Some(""), "http://u"), "http://u");
    assert_eq!(media_title(None, "http://u"), "http://u");
}

#[test]
fn ids_are_the_hash_of_the_address() {
    for url in ["", "http://example.com/video.mp4", "ünï", "a"] {
        let mut h = std::collections::hash_map::DefaultHasher::new();
        url.hash(&mut h);
        assert_eq!(uuid_from_url(url), format!("{:016x}", h.finish()));
    }
    assert_ne!(uuid_from_url("a"), uuid_from_url("b"));
    assert_eq!(hex16(0), "0000000000000000");
    assert_eq!(hex16(255), "00000000000000ff");
    assert_eq!(hex16(0x0123_4567_89ab_cdef), "0123456789abcdef");
    assert_eq!(hex16(u64::MAX), "ffffffffffffffff");
}

#[test]
fn media_entries() {
    let report = MediaReport {
        url: "http://cdn/v.mp4".to_string(),
        file: Some("A Tab".to_string()),
        request_headers: vec![list("Referer", &["http://page/"]), list("User-Agent", &["ua"])],
        response_headers: vec![list("content-type", &["video/mp4"])],
        cookie: "c=1".to_string(),
        method: Some("GET".to_string()),
        user_agent: Some("ua".to_string()),
        tab_url: Some("http://page/".to_string()),
        tab_id: None,
    };
    let made = media_item(report);
    assert_eq!(made.id, uuid_from_url("http://cdn/v.mp4"));
    assert_eq!(made.text, "A Tab");
    assert_eq!(made.info, "video/mp4");
    assert_eq!(made.tab_id, "");
    assert_eq!(made.url, "http://cdn/v.mp4");
    assert_eq!(made.cookie, "c=1");
    assert_eq!(made.request_headers.len(), 2);
    assert_eq!(made.response_headers.len(), 1);
    assert_eq!(made.method, Some("GET".to_string()));
    assert_eq!(made.referer, Some("http://page/".to_string()));

    let bare = media_item(MediaReport {
        url: "http://cdn/x".to_string(),
        file: Some(String::new()),
        request_headers: Vec::new(),
        response_headers: Vec::new(),
        cookie: String::new(),
        method: None,
        user_agent: None,
        tab_url: None,
        tab_id: Some("7".to_string()),
    });
    assert_eq!(bare.text, "http://cdn/x");
    assert_eq!(bare.info, "");
    assert_eq!(bare.tab_id, "7");
    assert_eq!(bare.referer, None);
}

#[test]
fn the_tracker_keeps_one_item_per_id() {
    let mut tracker = VideoTracker::new();
    assert!(tracker.get_list().is_empty());
    tracker.add_or_update(item("a", "t1", "one"));
    tracker.add_or_update(item("b", "t2", "two"));
    tracker.add_or_update(item("a", "t1", "one again"));
    let titles: Vec<&str> = tracker.get_list().iter().map(|v| v.text.as_str()).collect();
    assert_eq!(titles, vec!["one again", "two"]);
    assert_eq!(tracker.trigger_download("a"), Ok("triggered Download".to_string()));
    assert_eq!(
        tracker.trigger_download("zz"),
        Err("VideoTracker::trigger_download: video id zz not found".to_string())
    );
    assert_eq!(tracker.get_video("b").unwrap().text, "two");
    assert!(tracker.get_video("c").is_err());
    assert_eq!(tracker.remove("a").unwrap().text, "one again");
    assert!(tracker.remove("a").is_none());
    assert_eq!(tracker.get_list().len(), 1);
    tracker.clear();
    assert!(tracker.get_list().is_empty());
}

#[test]
fn titles_follow_their_tab() {
    let mut tracker = VideoTracker::new();
    tracker.add_or_update(item("a", "tab1", "old a"));
    tracker.add_or_update(item("b", "tab2", "old b"));
    tracker.add_or_update(item("c", "tab1", "old c"));
    tracker.update_title_for_tab("tab1", "new");
    let titles: Vec<(&str, &str)> =
        tracker.get_list().iter().map(|v| (v.id.as_str(), v.text.as_str())).collect();
    assert_eq!(titles, vec![("a", "new"), ("b", "old b"), ("c", "new")]);
    tracker.update_title_for_tab("none", "x");
    assert_eq!(tracker.get_list()[1].text, "old b");
}

#[test]
fn default_settings() {
    let config = SyncConfig::default_with_videos(vec![item("a", "t", "x")]);
    assert!(config.enabled);
    assert_eq!(
        config.file_exts,
        vec![
            "zip", "exe", "msi", "iso", "dmg", "pkg", "deb", "rpm", "tar", "gz", "bz2", "7z",
            "rar", "pdf", "mp4", "mkv", "avi", "mov", "wmv", "mp3", "flac", "ogg", "wav"
        ]
    );
    assert!(config.blocked_hosts.is_empty());
    assert_eq!(config.request_file_exts, vec!["mp4", "m3u8", "m4s", "ts", "webm", "m4v", "mpd"]);
    assert_eq!(config.media_types, vec!["audio/", "video/"]);
    assert_eq!(
        config.tabs_watcher,
        vec![".youtube.", "/watch?v=", "vimeo.com", "dailymotion.com"]
    );
    assert_eq!(config.matching_hosts, vec!["googlevideo.com", "videoplayback"]);
    assert_eq!(config.video_list.len(), 1);
}

#[test]
fn places_in_sources() {
    assert_eq!(workspace_root("/home/me/rdm/rdm_server"), "/home/me/rdm");
    assert_eq!(workspace_root("plain"), "plain");
    assert_eq!(workspace_root("/"), "");
    assert_eq!(
        osc8_link("/a/b.rs", 42),
        "\x1b]8;;file:///a/b.rs:42\x07/a/b.rs:42\x1b]8;;\x07"
    );
    assert_eq!(osc8_link("", 0), "\x1b]8;;file://:0\x07:0\x1b]8;;\x07");
}

#[test]
fn names_from_addresses_with_queries() {
    assert_eq!(filename_from_url("http://x.com/a/b.mp4"), "b.mp4");
    assert_eq!(filename_from_url("http://x.com/a/b.mp4?q=1"), "b.mp4?q=1");
    assert_eq!(filename_from_url("http://x.com/a/"), "a");
    assert_eq!(filename_from_url("//"), "download");
}

#[test]
fn a_job_that_replays_the_request() {
    let mut video = item("a", "t", "title");
    video.cookie = "k=v".to_string();
    video.user_agent = Some("browser".to_string());
    video.referer = Some("http://page/".to_string());
    video.request_headers = vec![
        list("Accept", &["*/*"]),
        list("User-Agent", &["captured"]),
        list("Range", &["bytes=0-"]),
        text("X-Custom", "1"),
    ];
    let job = download_job(&video, "/out/file.mp4".to_string(), "/tmp", 3);
    assert_eq!(job.state.url, "http://media/a");
    assert_eq!(job.state.output_path, Some("/out/file.mp4".to_string()));
    assert_eq!(job.connections, 3);
    assert_eq!(job.state.cookies, Some("k=v".to_string()));
    assert_eq!(
        seen(&job.state.headers),
        vec![
            ("Accept".to_string(), vec!["*/*".to_string()]),
            ("User-Agent".to_string(), vec!["browser".to_string()]),
            ("X-Custom".to_string(), vec!["1".to_string()]),
            ("Referer".to_string(), vec!["http://page/".to_string()]),
        ]
    );
    let plain = download_job(&item("b", "t", "x"), "o".to_string(), "/tmp", 8);
    assert_eq!(plain.state.cookies, None);
    assert!(plain.state.headers.is_empty());
}
