//! Range-header parsing, decimal rendering, and media-type tests.

use sshvideo::parse_range_header;
use sshvideo::response::content_range_value;
use sshvideo::u64_to_dec;

#[test]
fn open_ended_range_resolves_to_last_byte() {
    assert_eq!(parse_range_header("bytes=0-", 1000), Some((0, 999)));
    assert_eq!(parse_range_header("bytes=900-", 1000), Some((900, 999)));
    assert_eq!(parse_range_header("bytes=999-", 1000), Some((999, 999)));
}

#[test]
fn explicit_range_kept_and_clamped() {
    assert_eq!(parse_range_header("bytes=10-19", 1000), Some((10, 19)));
    assert_eq!(parse_range_header("bytes=0-99999999", 1000), Some((0, 999)));
    assert_eq!(parse_range_header("bytes=5-5", 1000), Some((5, 5)));
}

#[test]
fn unsatisfiable_ranges_rejected() {
    assert_eq!(parse_range_header("bytes=5-2", 1000), None);
    assert_eq!(parse_range_header("bytes=1000-", 1000), None);
    assert_eq!(parse_range_header("bytes=2000-3000", 1000), None);
    assert_eq!(parse_range_header("bytes=0-0", 0), None);
}

#[test]
fn malformed_headers_rejected() {
    assert_eq!(parse_range_header("", 1000), None);
    assert_eq!(parse_range_header("0-100", 1000), None);
    assert_eq!(parse_range_header("items=0-1", 1000), None);
    assert_eq!(parse_range_header("bytes=abc-", 1000), None);
    assert_eq!(parse_range_header("bytes=1-xyz", 1000), None);
    assert_eq!(parse_range_header("bytes=-5", 1000), None);
    assert_eq!(parse_range_header("bytes=", 1000), None);
    assert_eq!(parse_range_header("bytes=99999999999999999999-", 1000), None);
}

#[test]
fn only_the_single_range_form_is_accepted() {
    assert_eq!(parse_range_header("  bytes=1-2  ", 1000), Some((1, 2)));
    assert_eq!(parse_range_header("bytes= 1 - 2 ", 1000), Some((1, 2)));
    // A leading plus sign is what u64 parsing accepts.
    assert_eq!(parse_range_header("bytes=+7-", 1000), Some((7, 999)));
    // A repeated prefix leaves an unparsable start field.
    assert_eq!(parse_range_header("bytes=bytes=1-2", 1000), None);
    // The dash is mandatory: a bare number is not a range.
    assert_eq!(parse_range_header("bytes=100", 1000), None);
    // A second dash makes the value multi-range-shaped: rejected.
    assert_eq!(parse_range_header("bytes=1-5-9", 1000), None);
    assert_eq!(parse_range_header("bytes=0-5,10-20", 1000), None);
}

#[test]
fn decimal_rendering_exact() {
    assert_eq!(u64_to_dec(0), "0");
    assert_eq!(u64_to_dec(7), "7");
    assert_eq!(u64_to_dec(42), "42");
    assert_eq!(u64_to_dec(2097151), "2097151");
    assert_eq!(u64_to_dec(u64::MAX), "18446744073709551615");
}

#[test]
fn content_range_value_exact() {
    assert_eq!(content_range_value(0, 2097151, 5000000), "bytes 0-2097151/5000000");
    assert_eq!(content_range_value(900, 999, 1000), "bytes 900-999/1000");
}

#[test]
fn video_paths_recognized() {
    assert!(sshvideo::is_video_path("movie.mp4"));
    assert!(sshvideo::is_video_path("Movie.MP4"));
    assert!(sshvideo::is_video_path("dir/show.MkV"));
    assert!(sshvideo::is_video_path("a/b/c.webm"));
    assert!(sshvideo::is_video_path("clip.m4v"));
    assert!(sshvideo::is_video_path("old.AVI"));
    assert!(sshvideo::is_video_path("q.mov"));
    assert!(!sshvideo::is_video_path("notes.txt"));
    assert!(!sshvideo::is_video_path("noextension"));
    assert!(!sshvideo::is_video_path(".mp4"));
    assert!(!sshvideo::is_video_path("dir/.mp4"));
    assert!(!sshvideo::is_video_path("movie."));
    assert!(!sshvideo::is_video_path("mp4"));
}

#[test]
fn content_types_from_table() {
    assert_eq!(sshvideo::map_content_type("a.mp4"), "video/mp4");
    assert_eq!(sshvideo::map_content_type("a.M4V"), "video/mp4");
    assert_eq!(sshvideo::map_content_type("a.mov"), "video/quicktime");
    assert_eq!(sshvideo::map_content_type("a.webm"), "video/webm");
    assert_eq!(sshvideo::map_content_type("a.MKV"), "video/x-matroska");
    assert_eq!(sshvideo::map_content_type("a.avi"), "video/x-msvideo");
    assert_eq!(sshvideo::map_content_type("a.txt"), "application/octet-stream");
    assert_eq!(sshvideo::map_content_type("none"), "application/octet-stream");
    assert_eq!(sshvideo::map_content_type("dir.mp4/file"), "application/octet-stream");
}

#[test]
fn case_folding_is_unicode() {
    // U+212A is the Kelvin sign; str::to_lowercase maps it to 'k'.
    let path = "clip.m\u{212A}v";
    assert!(sshvideo::is_video_path(path));
    assert_eq!(sshvideo::map_content_type(path), "video/x-matroska");
    assert!(sshvideo::is_video_path("a/b.\u{212A}elvin.MKV"));
}
