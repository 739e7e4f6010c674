use rdm_core::mime::{ext_from_content_type, ext_from_mime};
use rdm_core::sanitizer::{
    candidate_name, collapse_runs, ext_from_url, filename_from_url, is_safe_char, numbered_name, sanitise_ext,
    sanitise_filename, split_stem_ext, truncate_to_bytes,
};

#[test]
fn normal_name_preserved() {
    let (stem, ext) = split_stem_ext("My Video (HD).mp4");
    assert_eq!(stem, "My Video (HD)");
    assert_eq!(ext, "mp4");
}

#[test]
fn traversal_stripped() {
    let name = sanitise_filename("../../etc/passwd", "http://example.com", None);
    assert!(!name.contains(".."));
    assert!(!name.contains('/'));
}

#[test]
fn illegal_chars_replaced() {
    let name = sanitise_filename("hello:world<>?*.mp4", "http://x.com", None);
    assert!(!name.contains(':'));
    assert!(!name.contains('<'));
    assert!(!name.contains('*'));
    assert!(!name.contains('?'));
}

#[test]
fn empty_suggestion_uses_url() {
    let name = sanitise_filename("", "https://cdn.example.com/path/video.mp4", None);
    assert!(name.starts_with("video"));
}

#[test]
fn extension_sanitised() {
    let ext = sanitise_ext("MP4<>");
    assert_eq!(ext, "mp4");
}

#[test]
fn collapse_underscores() {
    let s = collapse_runs("hello___world");
    assert_eq!(s, "hello_world");
}

#[test]
fn spaces_replaced_with_underscores() {
    let name = sanitise_filename("My Video HD.mp4", "http://x.com", None);
    assert!(!name.contains(' '), "filename should not contain spaces: {name}");
    assert!(name.starts_with("My_Video_HD"), "unexpected stem: {name}");
    assert!(name.ends_with(".mp4"));
}

#[test]
fn leading_trailing_spaces_trimmed() {
    let name = sanitise_filename("  file name  .zip", "http://x.com", None);
    assert!(!name.starts_with('_'));
    assert!(!name.contains(' '));
}

#[test]
fn ext_added_from_content_type_when_missing() {
    let name = sanitise_filename("My_Show_Episode_1", "http://x.com/ep1", Some("video/mp4"));
    assert_eq!(name, "My_Show_Episode_1.mp4");
}

#[test]
fn ext_not_duplicated_when_already_present() {
    let name = sanitise_filename("movie.mkv", "http://x.com", Some("video/x-matroska"));
    assert_eq!(name, "movie.mkv");
}

#[test]
fn ext_inferred_from_url_when_no_content_type() {
    let name = sanitise_filename("Unnamed Track", "https://cdn.example.com/track.flac", None);
    assert_eq!(name, "Unnamed_Track.flac");
}

#[test]
fn ext_from_content_type_takes_precedence_over_url() {
    let name = sanitise_filename(
        "Video Title",
        "https://cdn.example.com/file.bin",
        Some("video/mp4"),
    );
    assert_eq!(name, "Video_Title.mp4");
}

#[test]
fn ext_from_content_type_with_charset_param() {
    let name = sanitise_filename("doc", "http://x.com", Some("application/pdf; charset=utf-8"));
    assert_eq!(name, "doc.pdf");
}

#[test]
fn mime_video_mp4_maps_to_mp4() {
    assert_eq!(ext_from_content_type(Some("video/mp4")), Some("mp4".to_string()));
}

#[test]
fn mime_audio_mpeg_maps_to_mp3() {
    assert_eq!(ext_from_content_type(Some("audio/mpeg")), Some("mp3".to_string()));
}

#[test]
fn mime_unknown_returns_none() {
    assert_eq!(ext_from_content_type(Some("application/octet-stream")), None);
}

#[test]
fn mime_none_returns_none() {
    assert_eq!(ext_from_content_type(None), None);
}

#[test]
fn the_two_tables_differ_on_programs_and_documents() {
    assert_eq!(ext_from_mime(Some("application/x-msdownload")), Some("exe".to_string()));
    assert_eq!(ext_from_content_type(Some("application/x-msdownload")), None);
    assert_eq!(ext_from_mime(Some("image/png")), None);
    assert_eq!(ext_from_content_type(Some("image/png")), Some("png".to_string()));
    assert_eq!(ext_from_mime(Some("application/x-xz")), None);
    assert_eq!(ext_from_content_type(Some("application/x-xz")), Some("xz".to_string()));
}

#[test]
fn mime_lookup_ignores_case_space_and_parameters() {
    assert_eq!(ext_from_mime(Some("  Video/MP4 ; codecs=avc1")), Some("mp4".to_string()));
    assert_eq!(ext_from_mime(Some("AUDIO/X-WAV")), Some("wav".to_string()));
    assert_eq!(ext_from_mime(Some("")), None);
    assert_eq!(ext_from_mime(None), None);
}

#[test]
fn every_entry_of_the_core_table() {
    let table = [
        ("video/mp4", "mp4"), ("video/x-m4v", "mp4"), ("video/x-matroska", "mkv"),
        ("video/webm", "webm"), ("video/x-msvideo", "avi"), ("video/quicktime", "mov"),
        ("video/x-ms-wmv", "wmv"), ("video/3gpp", "3gp"), ("video/x-flv", "flv"),
        ("video/mpeg", "mpg"), ("audio/mpeg", "mp3"), ("audio/flac", "flac"),
        ("audio/ogg", "ogg"), ("audio/wav", "wav"), ("audio/x-wav", "wav"),
        ("audio/aac", "aac"), ("audio/x-m4a", "m4a"), ("audio/mp4", "m4a"),
        ("audio/opus", "opus"), ("application/zip", "zip"), ("application/x-tar", "tar"),
        ("application/gzip", "gz"), ("application/x-gzip", "gz"),
        ("application/x-bzip2", "bz2"), ("application/x-7z-compressed", "7z"),
        ("application/x-rar-compressed", "rar"), ("application/vnd.rar", "rar"),
        ("application/pdf", "pdf"), ("application/x-msdownload", "exe"),
        ("application/x-ms-installer", "msi"), ("application/x-msi", "msi"),
        ("application/vnd.debian.binary-package", "deb"), ("application/x-rpm", "rpm"),
        ("application/x-apple-diskimage", "dmg"),
    ];
    for (mime, ext) in table {
        assert_eq!(ext_from_mime(Some(mime)), Some(ext.to_string()), "{mime}");
    }
}

#[test]
fn safe_characters() {
    for c in ['a', 'Z', '0', 'é', '-', '_', '.', '(', ')', '[', ']', '+', ',', '@', '~'] {
        assert!(is_safe_char(c), "{c}");
    }
    for c in [' ', '/', '\\', ':', '*', '?', '"', '<', '>', '|', '\n', '\0'] {
        assert!(!is_safe_char(c), "{c:?}");
    }
}

#[test]
fn split_follows_the_final_component() {
    assert_eq!(split_stem_ext("archive.tar.gz"), ("archive.tar".to_string(), "gz".to_string()));
    assert_eq!(split_stem_ext(".hidden"), (".hidden".to_string(), String::new()));
    assert_eq!(split_stem_ext("noext"), ("noext".to_string(), String::new()));
    assert_eq!(split_stem_ext("trailing."), ("trailing".to_string(), String::new()));
    assert_eq!(split_stem_ext("dir/file.txt"), ("file".to_string(), "txt".to_string()));
    assert_eq!(split_stem_ext("dir/file.txt/"), ("file".to_string(), "txt".to_string()));
    assert_eq!(split_stem_ext("dir/file.txt/."), ("file".to_string(), "txt".to_string()));
    assert_eq!(split_stem_ext(".."), ("..".to_string(), String::new()));
    assert_eq!(split_stem_ext("a/.."), ("a/..".to_string(), String::new()));
    assert_eq!(split_stem_ext(""), (String::new(), String::new()));
    assert_eq!(split_stem_ext("..a"), (".".to_string(), "a".to_string()));
}

#[test]
fn split_agrees_with_the_standard_library() {
    for name in [
        "My Video (HD).mp4", "a.b.c", ".x", "x.", "..", ".", "", "/", "a/b", "a/b/", "a//b.c//",
        "./a.txt", "a/./b.d/.", "...", "a/..", "../x.y", ".a.b", "é.ö",
    ] {
        let p = std::path::PathBuf::from(name);
        let ext = p.extension().map(|e| e.to_string_lossy().into_owned()).unwrap_or_default();
        let stem =
            p.file_stem().map(|s| s.to_string_lossy().into_owned()).unwrap_or(name.to_string());
        assert_eq!(split_stem_ext(name), (stem, ext), "{name:?}");
    }
}

#[test]
fn extension_keeps_ten_letters_or_numbers() {
    assert_eq!(sanitise_ext("TAR.GZ"), "targz");
    assert_eq!(sanitise_ext("abcdefghijklmnop"), "abcdefghij");
    assert_eq!(sanitise_ext("a-b-c-d-e-f-g-h-i-j-k-l"), "abcdefghij");
    assert_eq!(sanitise_ext("!!!"), "");
    assert_eq!(sanitise_ext("ÄÖ"), "äö");
}

#[test]
fn collapse_touches_underscores_only() {
    assert_eq!(collapse_runs(""), "");
    assert_eq!(collapse_runs("_"), "_");
    assert_eq!(collapse_runs("__a__b_c____"), "_a_b_c_");
    assert_eq!(collapse_runs("a  b..c"), "a  b..c");
}

#[test]
fn truncation_respects_character_boundaries() {
    assert_eq!(truncate_to_bytes("hello", 10), "hello");
    assert_eq!(truncate_to_bytes("hello", 5), "hello");
    assert_eq!(truncate_to_bytes("hello", 3), "hel");
    assert_eq!(truncate_to_bytes("héllo", 2), "h");
    assert_eq!(truncate_to_bytes("héllo", 3), "hé");
    assert_eq!(truncate_to_bytes("€uro", 2), "");
    assert_eq!(truncate_to_bytes("a😀b", 4), "a");
    assert_eq!(truncate_to_bytes("a😀b", 5), "a😀");
    assert_eq!(truncate_to_bytes("abc", 0), "");
}

#[test]
fn long_stems_are_cut_to_the_limit() {
    let long = "x".repeat(400);
    let name = sanitise_filename(&format!("{long}.mp4"), "http://x.com", None);
    assert_eq!(name, format!("{}.mp4", "x".repeat(180)));
}

#[test]
fn names_from_addresses() {
    assert_eq!(filename_from_url("https://cdn.example.com/path/video.mp4?x=1#t"), "video.mp4");
    assert_eq!(filename_from_url("https://cdn.example.com/path/"), "path");
    assert_eq!(filename_from_url("///"), "download");
    assert_eq!(filename_from_url(""), "download");
    assert_eq!(filename_from_url("a#b?c/d"), "a");
}

#[test]
fn extensions_from_addresses() {
    assert_eq!(ext_from_url("https://x.com/a/track.FLAC?sig=1"), Some("flac".to_string()));
    assert_eq!(ext_from_url("https://x.com/a/track"), None);
    assert_eq!(ext_from_url("https://x.com/a/track.%%"), None);
    assert_eq!(ext_from_url("https://x.com/a.b/"), Some("b".to_string()));
    assert_eq!(ext_from_url(""), None);
}

#[test]
fn nothing_usable_gives_the_fallback_name() {
    assert_eq!(sanitise_filename("???", "http://x.com", None), "download.com");
    assert_eq!(sanitise_filename("..", "", None), "download");
    assert_eq!(sanitise_filename("", "", None), "download");
    assert_eq!(sanitise_filename("   ", "", Some("audio/ogg")), "download.ogg");
    assert_eq!(sanitise_filename("__..__", "", None), "download");
}

#[test]
fn numbered_names_put_the_number_before_the_extension() {
    assert_eq!(numbered_name("movie.mkv", 2), "movie_2.mkv");
    assert_eq!(numbered_name("movie", 9999), "movie_9999");
    assert_eq!(numbered_name("a.b.c", 10), "a.b_10.c");
    assert_eq!(numbered_name(".hidden", 3), ".hidden_3");
}

#[test]
fn candidates_for_a_free_name() {
    assert_eq!(candidate_name("a.bin", 0), None);
    assert_eq!(candidate_name("a.bin", 1), Some("a.bin".to_string()));
    assert_eq!(candidate_name("a.bin", 2), Some("a_2.bin".to_string()));
    assert_eq!(candidate_name("a.bin", 9999), Some("a_9999.bin".to_string()));
    assert_eq!(candidate_name("a.bin", 10000), None);
    assert_eq!(candidate_name("a.bin", u32::MAX), None);
}
