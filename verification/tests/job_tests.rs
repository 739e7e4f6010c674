use rdm_core::assembly::{assembly_plan, ensure_extension, offset_order};
use rdm_core::fetch::ByteSpan;
use rdm_core::headers::{
    authorization_value, fetch_request_headers, header_values, names_range, precompute_auth,
    probe_request_headers, range_header_value, set_header, RequestHeader,
};
use rdm_core::job::{
    after_phase, build_header_data, scratch_path, MultipartDownloadStrategy, Next, Phase,
};
use rdm_core::paths::{extension, file_name, join_path};
use rdm_core::probe::{interpret_probe, resource_size};
use rdm_core::strategy::{
    apply_probe, pending_pieces, plan_for_probe, progress_total, put_piece, reconcile,
    store_pieces, TaskOutcome,
};
use rdm_core::text::{chars_of, parse_u64, render_u64, string_of};
use rdm_core::types::{
    AuthenticationInfo, DownloadError, HeaderData, HeaderEntry, Piece, ProbeResult, ProxyInfo,
    SegmentState,
};

fn piece(id: &str, offset: i64, length: i64, state: SegmentState) -> Piece {
    let mut p = Piece::new(id.to_string(), offset, length);
    p.state = state;
    p
}

fn data(headers: Vec<HeaderEntry>) -> HeaderData {
    HeaderData {
        headers,
        cookies: None,
        url: "http://origin/file".to_string(),
        authentication: None,
        proxy: None,
    }
}

fn entry(name: &str, values: &[&str]) -> HeaderEntry {
    HeaderEntry { name: name.to_string(), values: values.iter().map(|v| v.to_string()).collect() }
}

fn pairs(headers: &[RequestHeader]) -> Vec<(String, String)> {
    headers.iter().map(|h| (h.name.clone(), h.value.clone())).collect()
}

fn pair(name: &str, value: &str) -> (String, String) {
    (name.to_string(), value.to_string())
}

fn probe(resumable: bool, size: Option<u64>) -> ProbeResult {
    ProbeResult {
        resumable,
        resource_size: size,
        final_uri: "http://final/".to_string(),
        attachment_name: Some("name.bin".to_string()),
        content_type: Some("video/mp4".to_string()),
        last_modified: Some("yesterday".to_string()),
    }
}

#[test]
fn basic_auth_is_the_encoded_credentials() {
    let mut d = data(vec![]);
    assert_eq!(precompute_auth(&d), None);
    d.authentication =
        Some(AuthenticationInfo { username: "user".to_string(), password: "pass".to_string() });
    assert_eq!(precompute_auth(&d), Some("Basic dXNlcjpwYXNz".to_string()));
    d.authentication =
        Some(AuthenticationInfo { username: "Aladdin".to_string(), password: "open sesame".to_string() });
    assert_eq!(precompute_auth(&d), Some("Basic QWxhZGRpbjpvcGVuIHNlc2FtZQ==".to_string()));
    assert_eq!(authorization_value("abc"), "Basic abc");
}

#[test]
fn range_header_values() {
    assert_eq!(range_header_value(ByteSpan { first: 0, last: 0 }), "bytes=0-0");
    assert_eq!(range_header_value(ByteSpan { first: 262_144, last: 524_287 }), "bytes=262144-524287");
    assert_eq!(
        range_header_value(ByteSpan { first: i64::MAX - 1, last: i64::MAX }),
        "bytes=9223372036854775806-9223372036854775807"
    );
    assert_eq!(range_header_value(ByteSpan { first: 10, last: 9 }), "bytes=10-9");
    assert_eq!(
        range_header_value(ByteSpan { first: i64::MIN, last: -1 }),
        "bytes=-9223372036854775808--1"
    );
}

#[test]
fn probe_request_asks_for_the_first_byte() {
    let mut d = data(vec![entry("User-Agent", &["ua"]), entry("Accept", &["a", "b"])]);
    d.cookies = Some("k=v".to_string());
    let auth = "Basic xyz".to_string();
    let headers = probe_request_headers(&d, Some(&auth));
    assert_eq!(
        pairs(&headers),
        vec![
            pair("User-Agent", "ua"),
            pair("Accept", "a"),
            pair("Accept", "b"),
            pair("Cookie", "k=v"),
            pair("Authorization", "Basic xyz"),
            pair("Range", "bytes=0-0"),
        ]
    );
}

#[test]
fn the_callers_range_header_is_stripped() {
    let d = data(vec![
        entry("Range", &["bytes=5-9"]),
        entry("X-One", &["1"]),
        entry("rAnGe", &["bytes=1-2", "bytes=3-4"]),
        entry("Range-Unit", &["bytes"]),
    ]);
    let headers = fetch_request_headers(&d, None, Some(ByteSpan { first: 10, last: 19 }));
    assert_eq!(
        pairs(&headers),
        vec![pair("X-One", "1"), pair("Range-Unit", "bytes"), pair("Range", "bytes=10-19")]
    );
    let headers = fetch_request_headers(&d, None, None);
    assert_eq!(pairs(&headers), vec![pair("X-One", "1"), pair("Range-Unit", "bytes")]);
    assert!(names_range(&"RANGE".to_string()));
    assert!(!names_range(&"ranges".to_string()));
}

#[test]
fn setting_a_header_replaces_its_values() {
    let mut headers = vec![entry("A", &["1"]), entry("B", &["2"])];
    set_header(&mut headers, "A".to_string(), vec!["3".to_string(), "4".to_string()]);
    set_header(&mut headers, "C".to_string(), vec!["5".to_string()]);
    set_header(&mut headers, "a".to_string(), vec!["6".to_string()]);
    let seen: Vec<(String, Vec<String>)> =
        headers.iter().map(|e| (e.name.clone(), e.values.clone())).collect();
    assert_eq!(
        seen,
        vec![
            ("A".to_string(), vec!["3".to_string(), "4".to_string()]),
            ("B".to_string(), vec!["2".to_string()]),
            ("C".to_string(), vec!["5".to_string()]),
            ("a".to_string(), vec!["6".to_string()]),
        ]
    );
    assert_eq!(header_values(&headers, &"B".to_string()), Some(&vec!["2".to_string()]));
    assert_eq!(header_values(&headers, &"b".to_string()), None);
}

#[test]
fn decimal_numbers_round_trip() {
    for n in [0u64, 7, 10, 99, 100, 1_048_576, u64::MAX] {
        let text = string_of(&render_u64(n));
        assert_eq!(text, n.to_string());
        assert_eq!(parse_u64(&chars_of(&text)), Some(n));
    }
}

#[test]
fn parsing_numbers_follows_the_standard_library() {
    for text in [
        "", "+", "-", "0", "+0", "-0", "007", "+42", "42 ", " 42", "4_2", "0x10",
        "18446744073709551615", "18446744073709551616", "99999999999999999999999", "١٢٣", "+-1",
        "++1", "1+",
    ] {
        assert_eq!(parse_u64(&chars_of(text)), text.parse::<u64>().ok(), "{text:?}");
    }
}

#[test]
fn the_size_comes_from_content_range_first() {
    assert_eq!(resource_size(Some("bytes 0-0/1234567"), Some(1)), Some(1_234_567));
    assert_eq!(resource_size(Some("bytes 0-0/*"), Some(1)), Some(1));
    assert_eq!(resource_size(Some("bytes 0-0/*"), None), None);
    assert_eq!(resource_size(Some("1048576"), None), Some(1_048_576));
    assert_eq!(resource_size(Some("bytes 0-0/12/34"), None), Some(34));
    assert_eq!(resource_size(Some("bytes 0-0/ 12"), Some(9)), Some(9));
    assert_eq!(resource_size(None, Some(65_536)), Some(65_536));
    assert_eq!(resource_size(None, None), None);
}

#[test]
fn a_probe_of_a_resumable_origin() {
    let p = interpret_probe(
        206,
        "http://cdn/file".to_string(),
        Some("bytes 0-0/1048576"),
        Some(1),
        Some("attachment; filename=\"probed.bin\""),
        Some("application/octet-stream".to_string()),
        Some("Wed, 21 Oct 2015 07:28:00 GMT".to_string()),
    );
    assert!(p.resumable);
    assert_eq!(p.resource_size, Some(1_048_576));
    assert_eq!(p.final_uri, "http://cdn/file");
    assert_eq!(p.attachment_name, Some("probed.bin".to_string()));
    assert_eq!(p.content_type, Some("application/octet-stream".to_string()));
    assert_eq!(p.last_modified, Some("Wed, 21 Oct 2015 07:28:00 GMT".to_string()));
    let pieces = plan_for_probe(p.resumable, p.resource_size, 8);
    assert_eq!(pieces.iter().map(|x| x.length).sum::<i64>(), 1_048_576);
}

#[test]
fn a_probe_of_an_origin_without_ranges() {
    let p = interpret_probe(200, "u".to_string(), None, Some(65_536), None, None, None);
    assert!(!p.resumable);
    assert_eq!(p.resource_size, Some(65_536));
    assert_eq!(p.attachment_name, None);
    let pieces = plan_for_probe(p.resumable, p.resource_size, 8);
    assert_eq!(pieces.len(), 1);
    assert_eq!((pieces[0].offset, pieces[0].length), (0, -1));
}

#[test]
fn planning_policy() {
    assert_eq!(plan_for_probe(true, Some(8 << 20), 8).len(), 8);
    assert_eq!(plan_for_probe(true, Some(8 << 20), 3).len(), 3);
    let one = plan_for_probe(true, None, 8);
    assert_eq!((one.len(), one[0].offset, one[0].length), (1, 0, -1));
    let one = plan_for_probe(false, Some(8 << 20), 8);
    assert_eq!((one.len(), one[0].offset, one[0].length), (1, 0, -1));
    let one = plan_for_probe(true, Some(u64::MAX), 8);
    assert_eq!((one.len(), one[0].offset, one[0].length), (1, 0, -1));
}

#[test]
fn the_probe_is_committed_to_the_state() {
    let mut job = MultipartDownloadStrategy::new("http://a/".to_string(), "out".to_string(), "/tmp");
    let id = job.state.id.clone();
    apply_probe(&mut job.state, probe(true, Some(500)));
    assert_eq!(job.state.file_size, 500);
    assert_eq!(job.state.url, "http://final/");
    assert!(job.state.resumable);
    assert_eq!(job.state.attachment_name, Some("name.bin".to_string()));
    assert_eq!(job.state.content_type, Some("video/mp4".to_string()));
    assert_eq!(job.state.last_modified, Some("yesterday".to_string()));
    assert_eq!(job.state.id, id);
    assert_eq!(job.state.output_path, Some("out".to_string()));
    apply_probe(&mut job.state, probe(false, None));
    assert_eq!(job.state.file_size, -1);
    apply_probe(&mut job.state, probe(true, Some(u64::MAX)));
    assert_eq!(job.state.file_size, -1);
}

#[test]
fn a_new_job() {
    let job = MultipartDownloadStrategy::new("http://a/b".to_string(), "out.bin".to_string(), "/tmp");
    assert_eq!(job.state.id.len(), 36);
    assert_eq!(job.state.temp_dir, format!("/tmp/{}", job.state.id));
    assert_eq!(job.temp_dir(), job.state.temp_dir);
    assert_eq!(job.state.url, "http://a/b");
    assert_eq!(job.state.output_path, Some("out.bin".to_string()));
    assert_eq!(job.state.file_size, -1);
    assert!(job.state.headers.is_empty());
    assert!(job.state().cookies.is_none());
    assert!(!job.state.resumable);
    assert!(job.segments().is_empty());
    assert_eq!(job.connections, 8);
    let other = MultipartDownloadStrategy::new("u".to_string(), "o".to_string(), "/tmp/");
    assert_eq!(other.state.temp_dir, format!("/tmp/{}", other.state.id));
    assert_ne!(other.state.id, job.state.id);
}

#[test]
fn the_builder_sets_each_option() {
    let job = MultipartDownloadStrategy::builder("http://a/".to_string(), "o".to_string(), "/t")
        .with_cookies("c=1".to_string())
        .with_headers(vec![entry("A", &["1"]), entry("B", &["2"]), entry("A", &["3"])])
        .add_header("User-Agent", "ua")
        .add_header("B", "4")
        .with_authentication(AuthenticationInfo { username: "u".to_string(), password: "p".to_string() })
        .with_proxy(ProxyInfo { host: "h".to_string(), port: 8080, username: None, password: None })
        .with_convert_to_mp3(true)
        .with_last_modified("lm".to_string())
        .with_attachment_name("an".to_string())
        .with_content_type("ct".to_string())
        .with_connection_size(3)
        .build();
    assert_eq!(job.state.cookies, Some("c=1".to_string()));
    let seen: Vec<(String, Vec<String>)> =
        job.state.headers.iter().map(|e| (e.name.clone(), e.values.clone())).collect();
    assert_eq!(
        seen,
        vec![
            ("A".to_string(), vec!["3".to_string()]),
            ("B".to_string(), vec!["4".to_string()]),
            ("User-Agent".to_string(), vec!["ua".to_string()]),
        ]
    );
    assert_eq!(job.state.authentication.as_ref().unwrap().username, "u");
    assert_eq!(job.state.proxy.as_ref().unwrap().port, 8080);
    assert!(job.state.convert_to_mp3);
    assert_eq!(job.state.last_modified, Some("lm".to_string()));
    assert_eq!(job.state.attachment_name, Some("an".to_string()));
    assert_eq!(job.state.content_type, Some("ct".to_string()));
    assert_eq!(job.connections, 3);
    let d = build_header_data(&job.state);
    assert_eq!(d.url, "http://a/");
    assert_eq!(d.cookies, Some("c=1".to_string()));
    assert_eq!(d.headers.len(), 3);
    assert_eq!(d.headers[2].values, vec!["ua".to_string()]);
    assert_eq!(d.authentication.unwrap().password, "p");
    assert_eq!(d.proxy.unwrap().host, "h");
}

#[test]
fn preprocess_replaces_the_map() {
    let mut job = MultipartDownloadStrategy::builder("u".to_string(), "o".to_string(), "/t")
        .with_connection_size(4)
        .build();
    job.preprocess(probe(true, Some(4 << 20)));
    assert_eq!(job.segments.len(), 4);
    assert_eq!(job.state.file_size, 4 << 20);
    let first: Vec<String> = job.segments.iter().map(|p| p.id.clone()).collect();
    job.preprocess(probe(false, Some(4 << 20)));
    assert_eq!(job.segments.len(), 1);
    assert_eq!(job.segments[0].length, -1);
    assert!(!first.contains(&job.segments[0].id));
    assert_eq!(job.pending().len(), 1);
}

#[test]
fn the_map_keeps_one_range_per_id() {
    let mut map = Vec::new();
    store_pieces(
        &mut map,
        vec![
            piece("a", 0, 10, SegmentState::NotStarted),
            piece("b", 10, 10, SegmentState::NotStarted),
            piece("a", 20, 10, SegmentState::Finished),
        ],
    );
    assert_eq!(map.len(), 2);
    assert_eq!((map[0].id.as_str(), map[0].offset), ("a", 20));
    assert_eq!((map[1].id.as_str(), map[1].offset), ("b", 10));
    put_piece(&mut map, piece("c", 30, 10, SegmentState::NotStarted));
    put_piece(&mut map, piece("b", 40, 10, SegmentState::Failed));
    assert_eq!(map.len(), 3);
    assert_eq!((map[1].offset, map[1].state), (40, SegmentState::Failed));
    assert_eq!(map[2].id, "c");
}

#[test]
fn only_ranges_that_were_not_started_are_launched() {
    let map = vec![
        piece("a", 0, 10, SegmentState::Finished),
        piece("b", 10, 10, SegmentState::NotStarted),
        piece("c", 20, 10, SegmentState::Failed),
        piece("d", 30, 10, SegmentState::Downloading),
        piece("e", 40, 10, SegmentState::NotStarted),
    ];
    let ids: Vec<String> = pending_pieces(&map).into_iter().map(|p| p.id).collect();
    assert_eq!(ids, vec!["b".to_string(), "e".to_string()]);
    assert!(pending_pieces(&Vec::new()).is_empty());
}

#[test]
fn progress_totals_of_ranges() {
    assert_eq!(progress_total(&piece("a", 0, 10, SegmentState::NotStarted)), Some(10));
    assert_eq!(progress_total(&piece("a", 0, 0, SegmentState::NotStarted)), None);
    assert_eq!(progress_total(&piece("a", 0, -1, SegmentState::NotStarted)), None);
}

#[test]
fn the_first_error_is_the_result_and_the_rest_is_still_taken_in() {
    let mut map = vec![
        piece("a", 0, 10, SegmentState::NotStarted),
        piece("b", 10, 10, SegmentState::NotStarted),
        piece("c", 20, 10, SegmentState::NotStarted),
        piece("d", 30, 10, SegmentState::NotStarted),
    ];
    let mut done = piece("d", 30, 10, SegmentState::Finished);
    done.downloaded = 10;
    let outcomes = vec![
        TaskOutcome::Failed { id: "b".to_string(), error: DownloadError::Cancelled },
        TaskOutcome::Aborted { id: "a".to_string(), reason: "panicked".to_string() },
        TaskOutcome::Failed { id: "missing".to_string(), error: DownloadError::MaxRetryExceeded },
        TaskOutcome::Done(done),
    ];
    let result = reconcile(&mut map, &outcomes);
    match result {
        Err(DownloadError::PieceFailed(text)) => assert_eq!(text, "panicked"),
        other => panic!("{other:?}"),
    }
    let states: Vec<SegmentState> = map.iter().map(|p| p.state).collect();
    assert_eq!(
        states,
        vec![
            SegmentState::Failed,
            SegmentState::Failed,
            SegmentState::NotStarted,
            SegmentState::Finished
        ]
    );
    assert_eq!(map[3].downloaded, 10);
    assert_eq!(map.len(), 4);
}

#[test]
fn an_aborted_task_is_a_failed_piece() {
    let mut map = vec![piece("a", 0, 10, SegmentState::NotStarted)];
    let outcomes = vec![TaskOutcome::Aborted { id: "a".to_string(), reason: "join".to_string() }];
    match reconcile(&mut map, &outcomes) {
        Err(DownloadError::PieceFailed(text)) => assert_eq!(text, "join"),
        other => panic!("{other:?}"),
    }
    assert!(reconcile(&mut map, &Vec::new()).is_ok());
}

#[test]
fn a_download_without_error_finishes_every_range() {
    let mut job = MultipartDownloadStrategy::builder("u".to_string(), "o".to_string(), "/t")
        .with_connection_size(4)
        .build();
    job.preprocess(probe(true, Some(4 << 20)));
    let outcomes: Vec<TaskOutcome> = job
        .pending()
        .into_iter()
        .map(|mut p| {
            p.downloaded = p.length;
            p.state = SegmentState::Finished;
            TaskOutcome::Done(p)
        })
        .collect();
    assert!(job.settle(&outcomes).is_ok());
    assert!(job.segments.iter().all(|p| p.state == SegmentState::Finished));
    assert!(job.segments.iter().all(|p| p.downloaded == p.length));
    assert!(job.pending().is_empty());
    assert!(job.postprocess().is_ok());
}

#[test]
fn scratch_files_are_put_together_by_offset() {
    let map = vec![
        piece("c", 200, 100, SegmentState::Finished),
        piece("a", 0, 100, SegmentState::Finished),
        piece("d", 300, 100, SegmentState::Finished),
        piece("b", 100, 100, SegmentState::Finished),
    ];
    assert_eq!(offset_order(&map), vec![1, 3, 0, 2]);
    let job = MultipartDownloadStrategy::new("u".to_string(), "out.bin".to_string(), "/t");
    let plan = assembly_plan(&map, &job.state).unwrap();
    assert_eq!(plan.piece_ids, vec!["a", "b", "c", "d"]);
    assert_eq!(plan.temp_dir, job.state.temp_dir);
    assert_eq!(plan.output_file, "out.bin");
}

#[test]
fn equal_offsets_keep_the_order_of_the_map() {
    let map = vec![
        piece("x", 5, 1, SegmentState::Finished),
        piece("y", 0, 1, SegmentState::Finished),
        piece("z", 5, 1, SegmentState::Finished),
        piece("w", 0, 1, SegmentState::Finished),
    ];
    assert_eq!(offset_order(&map), vec![1, 3, 0, 2]);
    assert!(offset_order(&Vec::new()).is_empty());
}

#[test]
fn assembly_needs_every_range_finished() {
    let map = vec![
        piece("a", 0, 100, SegmentState::Finished),
        piece("b", 100, 100, SegmentState::Downloading),
        piece("c", 200, 100, SegmentState::Failed),
    ];
    let job = MultipartDownloadStrategy::new("u".to_string(), "out.bin".to_string(), "/t");
    match assembly_plan(&map, &job.state) {
        Err(DownloadError::PieceFailed(text)) => {
            assert_eq!(text, "piece b is in state Downloading, expected Finished")
        }
        other => panic!("{other:?}"),
    }
    let map = vec![piece("n", 0, 1, SegmentState::NotStarted)];
    match assembly_plan(&map, &job.state) {
        Err(DownloadError::PieceFailed(text)) => {
            assert_eq!(text, "piece n is in state NotStarted, expected Finished")
        }
        other => panic!("{other:?}"),
    }
    let map = vec![piece("f", 0, 1, SegmentState::Failed)];
    match assembly_plan(&map, &job.state) {
        Err(DownloadError::PieceFailed(text)) => {
            assert_eq!(text, "piece f is in state Failed, expected Finished")
        }
        other => panic!("{other:?}"),
    }
}

#[test]
fn the_output_path_is_chosen_in_order() {
    let mut job = MultipartDownloadStrategy::new("u".to_string(), "chosen".to_string(), "/t");
    job.state.attachment_name = Some("proposed.mkv".to_string());
    job.state.content_type = Some("video/mp4".to_string());
    let map: Vec<Piece> = Vec::new();
    assert_eq!(assembly_plan(&map, &job.state).unwrap().output_file, "chosen.mkv");
    job.state.output_path = None;
    assert_eq!(assembly_plan(&map, &job.state).unwrap().output_file, "proposed.mkv");
    job.state.attachment_name = None;
    assert_eq!(assembly_plan(&map, &job.state).unwrap().output_file, "download.bin");
    job.state.output_path = Some("chosen".to_string());
    assert_eq!(assembly_plan(&map, &job.state).unwrap().output_file, "chosen.mp4");
    job.state.content_type = None;
    assert_eq!(assembly_plan(&map, &job.state).unwrap().output_file, "chosen");
}

#[test]
fn extensions_are_made_sure_of() {
    assert_eq!(ensure_extension("a.bin".to_string(), Some("x.mkv"), Some("video/mp4")), "a.bin");
    assert_eq!(ensure_extension("a".to_string(), Some("x.MKV"), Some("video/mp4")), "a.mkv");
    assert_eq!(ensure_extension("a".to_string(), Some("x"), Some("video/mp4")), "a.mp4");
    assert_eq!(ensure_extension("a".to_string(), None, Some("Video/MP4; q=1")), "a.mp4");
    assert_eq!(ensure_extension("a".to_string(), None, Some("text/unknown")), "a");
    assert_eq!(ensure_extension("a".to_string(), None, None), "a");
    assert_eq!(ensure_extension("a".to_string(), Some("x."), Some("video/mp4")), "a");
    assert_eq!(ensure_extension("a.".to_string(), Some("x.mkv"), None), "a.");
    assert_eq!(ensure_extension("dir.d/a".to_string(), Some("x.mkv"), None), "dir.d/a.mkv");
    assert_eq!(ensure_extension(".hidden".to_string(), Some("x.mkv"), None), ".hidden.mkv");
}

#[test]
fn paths_follow_the_standard_library() {
    for text in ["", "a", "a/b", "/a/b/", "a/.", "a/..", ".", "..", "./", "a//", "/", "x.y/z", ".a"] {
        let p = std::path::Path::new(text);
        let name = p.file_name().map(|n| n.to_string_lossy().into_owned());
        assert_eq!(file_name(&chars_of(text)).map(|n| string_of(&n)), name, "{text:?}");
        let ext = p.extension().map(|n| n.to_string_lossy().into_owned());
        assert_eq!(extension(&chars_of(text)).map(|n| string_of(&n)), ext, "{text:?}");
    }
    for (dir, name) in [("/tmp", "x"), ("/tmp/", "x"), ("", "x"), ("a", "/abs"), ("a", ""), ("/", "x")] {
        let joined = std::path::Path::new(dir).join(name).to_string_lossy().into_owned();
        assert_eq!(string_of(&join_path(&chars_of(dir), &chars_of(name))), joined, "{dir:?} {name:?}");
    }
}

#[test]
fn scratch_files_are_named_by_range_id() {
    assert_eq!(scratch_path("/tmp/job", "0f8fad5b-d9cb-469f-a165-70867728950e"), "/tmp/job/0f8fad5b-d9cb-469f-a165-70867728950e");
    assert_eq!(scratch_path("/tmp/job/", "a"), "/tmp/job/a");
    assert_eq!(scratch_path("", "a"), "a");
}

#[test]
fn phases_follow_one_another_until_one_fails() {
    assert!(matches!(after_phase(Phase::Preprocess, Ok(())), Next::Run(Phase::Download)));
    assert!(matches!(after_phase(Phase::Download, Ok(())), Next::Run(Phase::Postprocess)));
    assert!(matches!(
        after_phase(Phase::Postprocess, Ok(())),
        Next::Finish { result: Ok(()), signal: None }
    ));
    match after_phase(Phase::Preprocess, Err(DownloadError::Network("down".to_string()))) {
        Next::Finish { result: Err(DownloadError::Network(cause)), signal } => {
            assert_eq!(cause, "down");
            assert_eq!(signal, Some("network error: down".to_string()));
        }
        other => panic!("{other:?}"),
    }
    match after_phase(Phase::Download, Err(DownloadError::Cancelled)) {
        Next::Finish { result: Err(DownloadError::Cancelled), signal } => {
            assert_eq!(signal, Some("cancelled".to_string()))
        }
        other => panic!("{other:?}"),
    }
    match after_phase(Phase::Postprocess, Err(DownloadError::Disk("full".to_string()))) {
        Next::Finish { result: Err(DownloadError::Disk(_)), signal } => {
            assert_eq!(signal, Some("disk error: full".to_string()))
        }
        other => panic!("{other:?}"),
    }
}

#[test]
fn a_cancellation_does_not_hide_another_failure() {
    let failed = |id: &str, error: DownloadError| TaskOutcome::Failed { id: id.to_string(), error };
    let fresh = || {
        vec![
            piece("a", 0, 10, SegmentState::NotStarted),
            piece("b", 10, 10, SegmentState::NotStarted),
            piece("c", 20, 10, SegmentState::NotStarted),
        ]
    };
    let mut map = fresh();
    let outcomes =
        vec![failed("a", DownloadError::Cancelled), failed("b", DownloadError::MaxRetryExceeded)];
    assert!(matches!(reconcile(&mut map, &outcomes), Err(DownloadError::MaxRetryExceeded)));
    assert!(map[0].state == SegmentState::Failed && map[1].state == SegmentState::Failed);

    let mut map = fresh();
    let outcomes = vec![
        failed("a", DownloadError::Cancelled),
        failed("b", DownloadError::Disk("full".to_string())),
        failed("c", DownloadError::MaxRetryExceeded),
    ];
    assert!(matches!(reconcile(&mut map, &outcomes), Err(DownloadError::Disk(_))));

    let mut map = fresh();
    let mut done = piece("b", 10, 10, SegmentState::Finished);
    done.downloaded = 10;
    let outcomes = vec![
        failed("a", DownloadError::Cancelled),
        TaskOutcome::Done(done),
        failed("c", DownloadError::Cancelled),
    ];
    assert!(matches!(reconcile(&mut map, &outcomes), Err(DownloadError::Cancelled)));
    assert_eq!(map[1].state, SegmentState::Finished);
}
