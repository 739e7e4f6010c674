use rdm_core::disposition::{
    extract_filename, extract_filename_plain, extract_filename_star, percent_decode,
};

#[test]
fn segment_grabber_tests_test_extract_filename_quoted() {
    let result = extract_filename("attachment; filename=\"report.pdf\"");
    assert_eq!(result, Some("report.pdf".to_string()));
}

#[test]
fn segment_grabber_tests_test_extract_filename_unquoted() {
    let result = extract_filename("attachment; filename=data.csv");
    assert_eq!(result, Some("data.csv".to_string()));
}

#[test]
fn segment_grabber_tests_test_extract_filename_with_trailing_params() {
    let result = extract_filename("attachment; filename=\"image.png\"; size=1024");
    assert_eq!(result, Some("image.png".to_string()));
}

#[test]
fn segment_grabber_tests_test_extract_filename_missing() {
    let result = extract_filename("inline");
    assert_eq!(result, None);
}

#[test]
fn test_extract_filename_rfc5987_basic() {
    let result = extract_filename("attachment; filename*=UTF-8''My%20Video.mp4");
    assert_eq!(result, Some("My Video.mp4".to_string()));
}

#[test]
fn test_extract_filename_rfc5987_takes_priority() {
    let result = extract_filename(
        "attachment; filename=\"fallback.mp4\"; filename*=UTF-8''Better%20Name.mp4",
    );
    assert_eq!(result, Some("Better Name.mp4".to_string()));
}

#[test]
fn test_extract_filename_rfc5987_lowercase_charset() {
    let result = extract_filename("attachment; filename*=utf-8''Report%202024.pdf");
    assert_eq!(result, Some("Report 2024.pdf".to_string()));
}

#[test]
fn test_extract_filename_percent_decoded_unicode() {
    let result =
        extract_filename("attachment; filename*=UTF-8''%C3%9Cn%C3%AF%63%C3%B6d%C3%A9.zip");
    assert_eq!(result, Some("Ünïcödé.zip".to_string()));
}

#[test]
fn piece_grabber_tests_test_extract_filename_quoted() {
    let result = extract_filename("attachment; filename=\"report.pdf\"");
    assert_eq!(result, Some("report.pdf".to_string()));
}

#[test]
fn piece_grabber_tests_test_extract_filename_unquoted() {
    let result = extract_filename("attachment; filename=data.csv");
    assert_eq!(result, Some("data.csv".to_string()));
}

#[test]
fn piece_grabber_tests_test_extract_filename_with_trailing_params() {
    let result = extract_filename("attachment; filename=\"image.png\"; size=1024");
    assert_eq!(result, Some("image.png".to_string()));
}

#[test]
fn piece_grabber_tests_test_extract_filename_missing() {
    let result = extract_filename("inline");
    assert_eq!(result, None);
}

#[test]
fn extended_form_wins_in_either_order() {
    let result = extract_filename("attachment; filename*=UTF-8''a%20b.txt; filename=\"c.txt\"");
    assert_eq!(result, Some("a b.txt".to_string()));
}

#[test]
fn keys_are_found_in_any_case() {
    assert_eq!(
        extract_filename("attachment; FileName=\"Mixed.TXT\""),
        Some("Mixed.TXT".to_string())
    );
    assert_eq!(
        extract_filename("attachment; FILENAME*=UTF-8''x%2Fy"),
        Some("x/y".to_string())
    );
}

#[test]
fn unknown_charset_falls_back_to_the_plain_form() {
    let result =
        extract_filename("attachment; filename*=ISO-8859-1''na%EFve.txt; filename=\"plain.txt\"");
    assert_eq!(result, Some("plain.txt".to_string()));
    assert_eq!(extract_filename_star("attachment; filename*=Utf-8''a"), None);
}

#[test]
fn plain_form_strips_space_then_quotes() {
    assert_eq!(
        extract_filename_plain("attachment; filename=  \"spaced name.bin\"  ; x=1"),
        Some("spaced name.bin".to_string())
    );
    assert_eq!(extract_filename_plain("attachment; filename=\"\""), None);
    assert_eq!(extract_filename_plain("attachment; filename="), None);
}

#[test]
fn star_value_is_stripped_before_the_charset() {
    assert_eq!(
        extract_filename_star("attachment; filename*=  UTF-8''a%2Eb  ; filename=q"),
        Some("a.b".to_string())
    );
}

#[test]
fn percent_decode_plain_text_is_unchanged() {
    assert_eq!(percent_decode("hello.txt"), "hello.txt");
    assert_eq!(percent_decode(""), "");
}

#[test]
fn percent_decode_invalid_escapes_stand_for_themselves() {
    assert_eq!(percent_decode("100%"), "100%");
    assert_eq!(percent_decode("a%2"), "a%2");
    assert_eq!(percent_decode("a%zzb"), "a%zzb");
    assert_eq!(percent_decode("%G1%41"), "%G1A");
}

#[test]
fn percent_decode_replaces_invalid_sequences_only() {
    assert_eq!(percent_decode("%41%FF.bin"), "A\u{FFFD}.bin");
    assert_eq!(percent_decode("%FF%FE"), "\u{FFFD}\u{FFFD}");
    assert_eq!(percent_decode("a%C3b"), "a\u{FFFD}b");
    assert_eq!(percent_decode("%C3%A9%FF%C3%A9"), "\u{E9}\u{FFFD}\u{E9}");
    assert_eq!(percent_decode("%E2%82"), "\u{FFFD}");
    assert_eq!(percent_decode("%E2%82%AC"), "\u{20AC}");
    assert_eq!(
        extract_filename("attachment; filename*=UTF-8''%41%FF.bin"),
        Some("A\u{FFFD}.bin".to_string())
    );
}

#[test]
fn a_sign_is_no_hexadecimal_digit() {
    assert_eq!(percent_decode("%+9"), "%+9");
    assert_eq!(percent_decode("%-9"), "%-9");
    assert_eq!(percent_decode("%9"), "%9");
    assert_eq!(percent_decode("%09"), "\t");
}

#[test]
fn percent_decode_takes_both_cases_of_hex_digits() {
    assert_eq!(percent_decode("%4a%4A"), "JJ");
}
