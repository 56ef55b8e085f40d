use music_api::json::JsonValue;
use music_api::response::ErrorKind;
use music_api::song::{select_entries, SongSearch, SongStep, Songs};

fn text(s: &str) -> JsonValue {
    JsonValue::Str(s.to_string())
}

fn object(members: Vec<(&str, JsonValue)>) -> JsonValue {
    JsonValue::Object(members.into_iter().map(|(k, v)| (k.to_string(), v)).collect())
}

fn song_match(i: usize) -> JsonValue {
    object(vec![
        ("songname", text(&format!("Song {}", i))),
        ("singer", JsonValue::Array(vec![object(vec![("name", text(&format!("Singer {}", i)))])])),
        ("albumname", text(&format!("Album {}", i))),
        ("songmid", text(&format!("mid{}", i))),
        ("interval", JsonValue::Number("200".to_string())),
    ])
}

fn search_response(matches: Vec<JsonValue>) -> JsonValue {
    object(vec![(
        "data",
        object(vec![("song", object(vec![("list", JsonValue::Array(matches))]))]),
    )])
}

// "Hello" and "World" lines with one tag each.
const LYRICS_B64: &str = "WzAwOjAxXUhlbGxvClswMDowMl1Xb3JsZA==";

fn lyrics_response(raw: &str) -> JsonValue {
    object(vec![("retcode", JsonValue::Number("0".to_string())), ("lyric", text(raw))])
}

fn run(search: JsonValue, mut lyrics: Vec<Result<JsonValue, String>>) -> (Result<Songs, music_api::response::ApiError>, Vec<String>) {
    let (mut state, mut step) = SongSearch::begin(Ok(search));
    let mut asked = Vec::new();
    loop {
        match step {
            SongStep::FetchLyrics(id) => {
                asked.push(id);
                step = state.on_lyrics(lyrics.remove(0));
            }
            SongStep::Done(r) => return (r, asked),
        }
    }
}

#[test]
fn more_than_three_matches_give_three_songs_in_order() {
    let search = search_response((0..5).map(song_match).collect());
    let lyrics = (0..3).map(|_| Ok(lyrics_response(LYRICS_B64))).collect();
    let (r, asked) = run(search, lyrics);
    let songs = r.unwrap().songs;
    assert_eq!(asked, vec!["mid0", "mid1", "mid2"]);
    assert_eq!(songs.len(), 3);
    for (i, s) in songs.iter().enumerate() {
        assert_eq!(s.title, format!("Song {}", i));
        assert_eq!(s.artist, format!("Singer {}", i));
        assert_eq!(s.album, format!("Album {}", i));
        assert_eq!(s.lyrics_fragment, "Hello\nWorld");
    }
}

#[test]
fn fewer_matches_are_all_taken() {
    let search = search_response((0..2).map(song_match).collect());
    let entries = select_entries(&search).unwrap();
    assert_eq!(entries.len(), 2);
    assert_eq!(entries[1].catalog_id, "mid1");
}

#[test]
fn no_matches_give_an_empty_batch() {
    let (r, asked) = run(search_response(vec![]), vec![]);
    assert!(r.unwrap().songs.is_empty());
    assert!(asked.is_empty());
}

#[test]
fn one_failed_lyrics_fetch_fails_the_batch() {
    let search = search_response((0..4).map(song_match).collect());
    let lyrics = vec![
        Ok(lyrics_response(LYRICS_B64)),
        Err("connection reset".to_string()),
        Ok(lyrics_response(LYRICS_B64)),
    ];
    let (r, asked) = run(search, lyrics);
    assert_eq!(r.unwrap_err().kind, ErrorKind::InternalError);
    assert_eq!(asked, vec!["mid0", "mid1"]);
}

#[test]
fn missing_lyric_field_fails_the_batch() {
    let search = search_response((0..1).map(song_match).collect());
    let (r, _) = run(search, vec![Ok(object(vec![("retcode", JsonValue::Number("0".to_string()))]))]);
    assert_eq!(r.unwrap_err().kind, ErrorKind::InternalError);
}

#[test]
fn malformed_base64_fails_the_batch() {
    let search = search_response((0..3).map(song_match).collect());
    let lyrics = vec![
        Ok(lyrics_response(LYRICS_B64)),
        Ok(lyrics_response(LYRICS_B64)),
        Ok(lyrics_response("%%%")),
    ];
    let (r, _) = run(search, lyrics);
    assert_eq!(r.unwrap_err().kind, ErrorKind::InternalError);
}

#[test]
fn non_utf8_lyrics_fail_the_batch() {
    let search = search_response((0..2).map(song_match).collect());
    let (r, asked) = run(search, vec![Ok(lyrics_response("//4A")), Ok(lyrics_response(LYRICS_B64))]);
    assert_eq!(r.unwrap_err().kind, ErrorKind::InternalError);
    assert_eq!(asked, vec!["mid0"]);
}

#[test]
fn incomplete_match_fails_the_batch() {
    let broken = object(vec![("songname", text("x")), ("singer", JsonValue::Array(vec![]))]);
    let search = search_response(vec![song_match(0), broken]);
    let e = select_entries(&search).unwrap_err();
    assert_eq!(e.kind, ErrorKind::InternalError);
    let (r, asked) = run(search, vec![]);
    assert!(r.is_err());
    assert!(asked.is_empty());
}

#[test]
fn empty_singer_list_gives_empty_artist() {
    let m = object(vec![
        ("songname", text("t")),
        ("singer", JsonValue::Array(vec![])),
        ("albumname", text("a")),
        ("songmid", text("m")),
    ]);
    let entries = select_entries(&search_response(vec![m])).unwrap();
    assert_eq!(entries[0].artist, "");
}

#[test]
fn missing_song_list_is_malformed() {
    let search = object(vec![("data", object(vec![]))]);
    let (r, _) = run(search, vec![]);
    assert_eq!(r.unwrap_err().kind, ErrorKind::InternalError);
    let (mut _s, step) = SongSearch::begin(Err("dns".to_string()));
    assert!(matches!(step, SongStep::Done(Err(_))));
}
