use music_api::lyrics::{decode_and_format_lyrics, format_lyrics};
use music_api::response::ErrorKind;

const SAMPLE: &str = "[00:01]作词：X\n[00:02]Hello world\n[00:03]Second line\n\n[00:05]Title Of Song\n[00:06]Third\n[00:07]Fourth\n[00:08]Fifth";

#[test]
fn excerpt_drops_credit_blank_and_title_lines() {
    assert_eq!(
        format_lyrics("Title Of Song", SAMPLE),
        "Hello world\nSecond line\nThird\nFourth\nFifth"
    );
}

#[test]
fn excerpt_is_stable_when_run_on_itself() {
    let once = format_lyrics("Title Of Song", SAMPLE);
    assert_eq!(format_lyrics("Title Of Song", &once), once);
}

#[test]
fn fewer_than_five_survivors_are_not_padded() {
    let out = format_lyrics("T", "[00:01]one\n[00:02]two\n[00:03]作曲：Y\n");
    assert_eq!(out, "one\ntwo");
    assert_eq!(out.lines().count(), 2);
}

#[test]
fn no_survivors_give_an_empty_excerpt() {
    assert_eq!(format_lyrics("T", ""), "");
    assert_eq!(format_lyrics("T", "[ti:T]\n\n   \n【未经著作权人许可不得翻唱翻录或使用】"), "");
}

#[test]
fn at_most_five_lines_are_kept() {
    let text = "a\nb\nc\nd\ne\nf\ng";
    assert_eq!(format_lyrics("zz", text), "a\nb\nc\nd\ne");
}

#[test]
fn tag_is_stripped_only_when_open_bracket_comes_first() {
    assert_eq!(format_lyrics("zz", "x]y[z"), "x]y[z");
    assert_eq!(format_lyrics("zz", "pre[tag]post"), "post");
    assert_eq!(format_lyrics("zz", "[a][b]c"), "[b]c");
}

#[test]
fn crlf_line_endings_are_removed() {
    assert_eq!(format_lyrics("zz", "one\r\ntwo\r\n"), "one\ntwo");
}

#[test]
fn lines_keep_inner_whitespace() {
    assert_eq!(format_lyrics("zz", "[00:01]  spaced  "), "  spaced  ");
}

#[test]
fn base64_lyrics_are_decoded_then_excerpted() {
    let raw = "WzAwOjAxXeS9nOivje+8mlgKWzAwOjAyXUhlbGxvIHdvcmxkClswMDowM11TZWNvbmQgbGluZQoKWzAwOjA1XVRpdGxlIE9mIFNvbmcKWzAwOjA2XVRoaXJkClswMDowN11Gb3VydGgKWzAwOjA4XUZpZnRo";
    assert_eq!(
        decode_and_format_lyrics("Title Of Song", raw).unwrap(),
        "Hello world\nSecond line\nThird\nFourth\nFifth"
    );
    assert_eq!(
        decode_and_format_lyrics("A", "W3RpOkFdClswMDowMV1Pbmx5IGxpbmUK").unwrap(),
        "Only line"
    );
}

#[test]
fn malformed_base64_is_internal_error() {
    let e = decode_and_format_lyrics("T", "not base64!").unwrap_err();
    assert_eq!(e.kind, ErrorKind::InternalError);
}

#[test]
fn non_utf8_lyrics_are_internal_error() {
    let e = decode_and_format_lyrics("T", "//4A").unwrap_err();
    assert_eq!(e.kind, ErrorKind::InternalError);
    assert_eq!(e.message, "Failed to convert lyrics to UTF-8");
}

#[test]
fn unicode_blank_lines_are_dropped_and_inner_spaces_kept() {
    assert_eq!(format_lyrics("zz", "\u{3000}\n\u{00A0}x\n"), "\u{00A0}x");
}

#[test]
fn empty_title_drops_every_line() {
    assert_eq!(format_lyrics("", "one\ntwo"), "");
}

#[test]
fn title_is_looked_for_in_the_untrimmed_line() {
    assert_eq!(format_lyrics(" ", "a "), "");
    assert_eq!(format_lyrics(" Song ", "[00:01] Song \n[00:02]Song\n"), "Song");
}

#[test]
fn excerpt_is_stable_with_carriage_return_on_last_line() {
    let once = format_lyrics("zz", "[00:01]one\n[00:02]two\r");
    assert_eq!(once, "one\ntwo\r");
    assert_eq!(format_lyrics("zz", &once), once);
}
