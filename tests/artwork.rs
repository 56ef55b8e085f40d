use music_api::artwork::{
    find_image, require_credentials, resolve_artwork, track_search_text, ArtworkSize,
    CatalogImage, GetArtworkQuery, SearchOutcome, Track,
};
use music_api::response::{ApiV1Response, ErrorKind};

fn image(url: &str, width: Option<u32>, height: Option<u32>) -> CatalogImage {
    CatalogImage { url: url.to_string(), width, height }
}

fn query(size: ArtworkSize) -> GetArtworkQuery {
    GetArtworkQuery { title: "Song".to_string(), artist: "Band".to_string(), size }
}

#[test]
fn sizes_map_to_distinct_square_pixels() {
    assert_eq!(ArtworkSize::Small.to_size(), (64, 64));
    assert_eq!(ArtworkSize::Medium.to_size(), (300, 300));
    assert_eq!(ArtworkSize::Large.to_size(), (640, 640));
    let all = [ArtworkSize::Small, ArtworkSize::Medium, ArtworkSize::Large];
    for a in all.iter() {
        for b in all.iter() {
            assert_eq!(a.to_size() == b.to_size(), a == b);
        }
    }
}

#[test]
fn medium_selects_the_only_300_image_in_any_order() {
    let imgs = vec![
        image("a", Some(640), Some(640)),
        image("b", Some(300), Some(300)),
        image("c", Some(64), Some(64)),
    ];
    let orders: [[usize; 3]; 3] = [[0, 1, 2], [1, 2, 0], [2, 0, 1]];
    for order in orders.iter() {
        let list: Vec<CatalogImage> = order.iter().map(|&i| imgs[i].clone()).collect();
        let tracks = vec![Track { album_images: list }];
        let r = resolve_artwork(&query(ArtworkSize::Medium), Ok(SearchOutcome::Tracks(tracks)));
        assert_eq!(r.unwrap(), "b");
    }
}

#[test]
fn first_exact_match_wins_and_partial_sizes_do_not_match() {
    let imgs = vec![
        image("w-only", Some(64), None),
        image("first", Some(64), Some(64)),
        image("second", Some(64), Some(64)),
    ];
    assert_eq!(find_image(&imgs, (64, 64)), Some(1));
    assert_eq!(find_image(&imgs, (640, 640)), None);
}

#[test]
fn zero_tracks_is_not_found() {
    let r = resolve_artwork(&query(ArtworkSize::Small), Ok(SearchOutcome::Tracks(vec![])));
    let e = r.unwrap_err();
    assert_eq!(e.kind, ErrorKind::NotFound);
    match ApiV1Response::from_error(e) {
        ApiV1Response::Error { status, .. } => assert_eq!(status, 404),
        _ => panic!("expected an error response"),
    }
}

#[test]
fn no_exact_size_is_internal_error() {
    let tracks = vec![Track {
        album_images: vec![image("x", Some(300), Some(299)), image("y", Some(640), Some(640))],
    }];
    let r = resolve_artwork(&query(ArtworkSize::Medium), Ok(SearchOutcome::Tracks(tracks)));
    let e = r.unwrap_err();
    assert_eq!(e.kind, ErrorKind::InternalError);
    assert_eq!(e.message, "No image found");
    assert_eq!(e.kind.status(), 500);
}

#[test]
fn only_the_first_track_is_considered() {
    let tracks = vec![
        Track { album_images: vec![image("x", Some(64), Some(64))] },
        Track { album_images: vec![image("y", Some(640), Some(640))] },
    ];
    let r = resolve_artwork(&query(ArtworkSize::Large), Ok(SearchOutcome::Tracks(tracks)));
    assert_eq!(r.unwrap_err().kind, ErrorKind::InternalError);
}

#[test]
fn search_failure_and_other_kind_are_internal_errors() {
    let r = resolve_artwork(&query(ArtworkSize::Large), Err("timeout".to_string()));
    let e = r.unwrap_err();
    assert_eq!(e.kind, ErrorKind::InternalError);
    assert_eq!(e.message, "Failed to search for artwork: timeout");
    let r = resolve_artwork(
        &query(ArtworkSize::Large),
        Ok(SearchOutcome::OtherKind("Albums".to_string())),
    );
    assert_eq!(r.unwrap_err().kind, ErrorKind::InternalError);
}

#[test]
fn not_found_message_names_title_and_artist() {
    let r = resolve_artwork(&query(ArtworkSize::Small), Ok(SearchOutcome::Tracks(vec![])));
    assert_eq!(
        r.unwrap_err().message,
        "No track found for song with title: Song and artist: Band"
    );
}

#[test]
fn search_text_combines_title_and_artist() {
    assert_eq!(track_search_text("Yellow", "Coldplay"), "track:Yellow artist:Coldplay");
}

#[test]
fn missing_credentials_are_internal_errors() {
    let e = require_credentials(None, Some("s".to_string())).unwrap_err();
    assert_eq!(e.kind, ErrorKind::InternalError);
    assert_eq!(e.message, "Failed to get client ID");
    let e = require_credentials(Some("i".to_string()), None).unwrap_err();
    assert_eq!(e.message, "Failed to get client secret");
    let ok = require_credentials(Some("i".to_string()), Some("s".to_string())).unwrap();
    assert_eq!(ok, ("i".to_string(), "s".to_string()));
}
