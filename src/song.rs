use vstd::prelude::*;
use crate::json::{array_field, field_of, str_field, JsonValue};
use crate::lyrics::{decode_and_format_lyrics, decoded_excerpt};
use crate::response::{fails_with, ApiError, ErrorKind};

verus! {

/// Most search matches that one song search reports.
pub const MAX_SONGS: usize = 3;

/// A song search request.
#[derive(Debug, Clone)]
pub struct SearchSongQuery {
    pub title: String,
}

/// Information about one song found by a search.
#[derive(Debug, Clone)]
pub struct Song {
    /// The title of the song.
    pub title: String,
    /// The first listed singer, or empty when none is listed.
    pub artist: String,
    /// The album of the song.
    pub album: String,
    /// At most five lines of the lyrics, joined with newlines.
    pub lyrics_fragment: String,
}

/// The songs that match a searched title, in search order.
#[derive(Debug, Clone)]
pub struct Songs {
    pub songs: Vec<Song>,
}

/// One search match, before its lyrics are fetched.
#[derive(Debug, Clone)]
pub struct RawSongEntry {
    pub title: String,
    pub artist: String,
    pub album: String,
    /// Catalog identifier by which the lyrics are fetched.
    pub catalog_id: String,
}

/// Title, artist, album and a fourth text (catalog id or lyrics fragment).
pub type SongText = (Seq<char>, Seq<char>, Seq<char>, Seq<char>);

pub open spec fn song_view(s: Song) -> SongText {
    (s.title@, s.artist@, s.album@, s.lyrics_fragment@)
}

pub open spec fn song_views(s: Seq<Song>) -> Seq<SongText> {
    s.map_values(|x: Song| song_view(x))
}

pub open spec fn entry_view(e: RawSongEntry) -> SongText {
    (e.title@, e.artist@, e.album@, e.catalog_id@)
}

/// The list of matches in a keyword search response (`data.song.list`).
pub open spec fn search_list(v: JsonValue) -> Option<Seq<JsonValue>> {
    match field_of(v, "data"@) {
        Some(d) => match field_of(d, "song"@) {
            Some(s) => array_field(s, "list"@),
            None => None,
        },
        None => None,
    }
}

/// Name of the first singer, or empty when there is no singer or no name.
pub open spec fn first_singer(singers: Seq<JsonValue>) -> Seq<char> {
    if singers.len() == 0 {
        Seq::<char>::empty()
    } else {
        match str_field(singers[0], "name"@) {
            Some(n) => n,
            None => Seq::<char>::empty(),
        }
    }
}

/// The entry a search match describes, when its title, singer list, album
/// and catalog id are all present.
pub open spec fn match_entry(m: JsonValue) -> Option<SongText> {
    match (
        str_field(m, "songname"@),
        array_field(m, "singer"@),
        str_field(m, "albumname"@),
        str_field(m, "songmid"@),
    ) {
        (Some(t), Some(s), Some(a), Some(id)) => Some((t, first_singer(s), a, id)),
        _ => None,
    }
}

/// How many matches are taken out of `n`.
pub open spec fn selected_count(n: nat) -> nat {
    if n > MAX_SONGS {
        MAX_SONGS as nat
    } else {
        n
    }
}

/// The response lists its matches, and each of the taken ones is complete.
pub open spec fn selectable(v: JsonValue) -> bool {
    match search_list(v) {
        Some(l) => forall|i: int|
            0 <= i < selected_count(l.len()) ==> (#[trigger] match_entry(l[i])) is Some,
        None => false,
    }
}

/// The entry of one search match.
pub fn entry_from(m: &JsonValue) -> (r: Result<RawSongEntry, ApiError>)
    ensures
        r is Ok <==> match_entry(*m) is Some,
        r matches Ok(e) ==> match_entry(*m) == Some(entry_view(e)),
        r is Err ==> fails_with(r, ErrorKind::InternalError),
{
    let title = match m.get_str("songname") {
        Some(t) => t.clone(),
        None => {
            return Err(internal("Failed to parse song title"));
        },
    };
    let singers = match m.get_array("singer") {
        Some(s) => s,
        None => {
            return Err(internal("Failed to parse song artist"));
        },
    };
    let artist = if singers.len() == 0 {
        String::new()
    } else {
        match singers[0].get_str("name") {
            Some(n) => n.clone(),
            None => String::new(),
        }
    };
    let album = match m.get_str("albumname") {
        Some(a) => a.clone(),
        None => {
            return Err(internal("Failed to parse song album"));
        },
    };
    let catalog_id = match m.get_str("songmid") {
        Some(id) => id.clone(),
        None => {
            return Err(internal("Failed to parse song mid"));
        },
    };
    Ok(RawSongEntry { title, artist, album, catalog_id })
}

fn internal(message: &str) -> (r: ApiError)
    ensures
        r.kind == ErrorKind::InternalError,
{
    ApiError { kind: ErrorKind::InternalError, message: String::from_str(message) }
}

/// The first (at most three) matches of a keyword search response, in order.
/// One incomplete match fails them all.
pub fn select_entries(search: &JsonValue) -> (r: Result<Vec<RawSongEntry>, ApiError>)
    ensures
        r is Ok <==> selectable(*search),
        r matches Ok(es) ==> es@.len() == selected_count(search_list(*search)->0.len()) && forall|
            i: int,
        |
            0 <= i < es@.len() ==> match_entry(search_list(*search)->0[i]) == Some(
                entry_view(#[trigger] es@[i]),
            ),
        r is Err ==> fails_with(r, ErrorKind::InternalError),
{
    let data = match search.get("data") {
        Some(d) => d,
        None => {
            return Err(internal("Failed to parse search API response"));
        },
    };
    let song = match data.get("song") {
        Some(s) => s,
        None => {
            return Err(internal("Failed to parse search API response"));
        },
    };
    let list = match song.get_array("list") {
        Some(l) => l,
        None => {
            return Err(internal("Failed to parse search API response"));
        },
    };
    let n = if list.len() > MAX_SONGS {
        MAX_SONGS
    } else {
        list.len()
    };
    let mut out: Vec<RawSongEntry> = Vec::new();
    let mut i: usize = 0;
    while i < n
        invariant
            search_list(*search) == Some(list@),
            n == selected_count(list@.len()),
            i <= n,
            out@.len() == i,
            forall|j: int| 0 <= j < i ==> match_entry(list@[j]) == Some(entry_view(#[trigger] out@[j])),
        decreases n - i,
    {
        match entry_from(&list[i]) {
            Ok(e) => out.push(e),
            Err(e) => {
                assert(match_entry(list@[i as int]) is None);
                return Err(e);
            },
        }
        i = i + 1;
    }
    assert forall|j: int| 0 <= j < selected_count(list@.len()) implies (#[trigger] match_entry(
        list@[j],
    )) is Some by {
        assert(match_entry(list@[j]) == Some(entry_view(out@[j])));
    }
    Ok(out)
}

/// What the driver of a song search does next.
#[derive(Debug)]
pub enum SongStep {
    /// Fetch the lyrics of the song with this catalog id, and hand the
    /// response to `SongSearch::on_lyrics`.
    FetchLyrics(String),
    /// The search is over, with this result.
    Done(Result<Songs, ApiError>),
}

/// The step ends the whole search with an internal error and no songs.
pub open spec fn fails_batch(step: SongStep) -> bool {
    step matches SongStep::Done(r) && fails_with(r, ErrorKind::InternalError)
}

/// The step ends the search successfully with songs of these views.
pub open spec fn finishes_with(step: SongStep, songs: Seq<SongText>) -> bool {
    step matches SongStep::Done(Ok(s)) && song_views(s.songs@) == songs
}

/// The step asks for the lyrics of this catalog id.
pub open spec fn fetches(step: SongStep, id: Seq<char>) -> bool {
    step matches SongStep::FetchLyrics(x) && x@ == id
}

/// A song search in progress: the selected matches, and the songs finished
/// so far, one per match, in order.
#[derive(Debug)]
pub struct SongSearch {
    pub entries: Vec<RawSongEntry>,
    pub songs: Vec<Song>,
}

/// The finished song for an entry and its lyrics excerpt.
pub open spec fn finished_song(e: RawSongEntry, fragment: Seq<char>) -> SongText {
    (e.title@, e.artist@, e.album@, fragment)
}

impl SongSearch {
    /// Lyrics are still owed for some selected entry, and every finished song
    /// belongs to the entry at its position.
    pub open spec fn pending(&self) -> bool {
        &&& self.songs@.len() < self.entries@.len() <= MAX_SONGS
        &&& forall|i: int|
            0 <= i < self.songs@.len() ==> {
                let s = #[trigger] self.songs@[i];
                let e = self.entries@[i];
                s.title@ == e.title@ && s.artist@ == e.artist@ && s.album@ == e.album@
            }
    }

    /// Starts a song search from the keyword search's response (or its
    /// transport error).
    pub fn begin(search: Result<JsonValue, String>) -> (r: (SongSearch, SongStep))
        ensures
            search is Err ==> fails_batch(r.1),
            search matches Ok(v) ==> {
                if !selectable(v) {
                    fails_batch(r.1)
                } else {
                    let l = search_list(v)->0;
                    let n = selected_count(l.len());
                    &&& r.0.songs@.len() == 0
                    &&& r.0.entries@.len() == n
                    &&& forall|i: int|
                        0 <= i < n ==> match_entry(l[i]) == Some(
                            entry_view(#[trigger] r.0.entries@[i]),
                        )
                    &&& n == 0 ==> finishes_with(r.1, seq![])
                    &&& n > 0 ==> r.0.pending() && fetches(r.1, r.0.entries@[0].catalog_id@)
                }
            },
    {
        let v = match search {
            Ok(v) => v,
            Err(detail) => {
                let e = ApiError {
                    kind: ErrorKind::InternalError,
                    message: String::from_str("Failed to send search request: ").concat(
                        detail.as_str(),
                    ),
                };
                let idle = SongSearch { entries: Vec::new(), songs: Vec::new() };
                return (idle, SongStep::Done(Err(e)));
            },
        };
        match select_entries(&v) {
            Err(e) => {
                let idle = SongSearch { entries: Vec::new(), songs: Vec::new() };
                (idle, SongStep::Done(Err(e)))
            },
            Ok(entries) => {
                if entries.len() == 0 {
                    let done = SongSearch { entries, songs: Vec::new() };
                    let step = SongStep::Done(Ok(Songs { songs: Vec::new() }));
                    assert(song_views(Seq::<Song>::empty()) =~= seq![]);
                    (done, step)
                } else {
                    let id = entries[0].catalog_id.clone();
                    (SongSearch { entries, songs: Vec::new() }, SongStep::FetchLyrics(id))
                }
            },
        }
    }

    /// Takes the lyrics response (or its transport error) for the next
    /// pending entry. Any failure ends the whole search with no songs; the
    /// last lyrics finish it with every song.
    pub fn on_lyrics(&mut self, response: Result<JsonValue, String>) -> (step: SongStep)
        requires
            old(self).pending(),
        ensures
            ({
                let k = old(self).songs@.len() as int;
                let e = old(self).entries@[k];
                let before = song_views(old(self).songs@);
                &&& final(self).entries@ == old(self).entries@
                &&& response is Err ==> fails_batch(step)
                &&& response matches Ok(v) ==> match str_field(v, "lyric"@) {
                    None => fails_batch(step),
                    Some(raw) => match decoded_excerpt(e.title@, raw) {
                        None => fails_batch(step),
                        Some(frag) => {
                            &&& k + 1 == old(self).entries@.len() ==> finishes_with(
                                step,
                                before.push(finished_song(e, frag)),
                            )
                            &&& k + 1 < old(self).entries@.len() ==> {
                                &&& final(self).pending()
                                &&& song_views(final(self).songs@) == before.push(
                                    finished_song(e, frag),
                                )
                                &&& fetches(step, old(self).entries@[k + 1].catalog_id@)
                            }
                        },
                    },
                }
            }),
    {
        let k = self.songs.len();
        let v = match response {
            Ok(v) => v,
            Err(detail) => {
                return SongStep::Done(
                    Err(
                        ApiError {
                            kind: ErrorKind::InternalError,
                            message: String::from_str("Failed to send lyrics request: ").concat(
                                detail.as_str(),
                            ),
                        },
                    ),
                );
            },
        };
        let raw = match v.get_str("lyric") {
            Some(raw) => raw,
            None => {
                return SongStep::Done(Err(internal("Failed to parse lyrics")));
            },
        };
        let fragment = match decode_and_format_lyrics(self.entries[k].title.as_str(), raw.as_str()) {
            Ok(f) => f,
            Err(e) => {
                return SongStep::Done(Err(e));
            },
        };
        let e = &self.entries[k];
        let song = Song {
            title: e.title.clone(),
            artist: e.artist.clone(),
            album: e.album.clone(),
            lyrics_fragment: fragment,
        };
        let ghost before = song_views(self.songs@);
        self.songs.push(song);
        assert(song_views(self.songs@) =~= before.push(finished_song(self.entries@[k as int], fragment@)));
        if k + 1 == self.entries.len() {
            let mut songs: Vec<Song> = Vec::new();
            std::mem::swap(&mut songs, &mut self.songs);
            SongStep::Done(Ok(Songs { songs }))
        } else {
            SongStep::FetchLyrics(self.entries[k + 1].catalog_id.clone())
        }
    }
}

} // verus!
