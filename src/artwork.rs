use vstd::prelude::*;
use crate::response::{fails_saying, ApiError, ErrorKind};

verus! {

/// The three artwork sizes a caller can ask for.
#[derive(Debug, Clone, Copy, PartialEq, Eq, Structural)]
pub enum ArtworkSize {
    Small,
    Medium,
    Large,
}

/// Pixel dimensions `(width, height)` of each artwork size.
pub open spec fn size_pixels(size: ArtworkSize) -> (u32, u32) {
    match size {
        ArtworkSize::Small => (64, 64),
        ArtworkSize::Medium => (300, 300),
        ArtworkSize::Large => (640, 640),
    }
}

impl ArtworkSize {
    pub fn to_size(&self) -> (r: (u32, u32))
        ensures
            r == size_pixels(*self),
    {
        match self {
            ArtworkSize::Small => (64, 64),
            ArtworkSize::Medium => (300, 300),
            ArtworkSize::Large => (640, 640),
        }
    }
}

/// Every size maps to one of the three square pixel pairs, and no two sizes
/// share a pair.
pub proof fn lemma_size_pixels_bijective(a: ArtworkSize, b: ArtworkSize)
    ensures
        size_pixels(a) == (64u32, 64u32) || size_pixels(a) == (300u32, 300u32)
            || size_pixels(a) == (640u32, 640u32),
        size_pixels(a) == size_pixels(b) <==> a == b,
        size_pixels(ArtworkSize::Small) == (64u32, 64u32),
        size_pixels(ArtworkSize::Medium) == (300u32, 300u32),
        size_pixels(ArtworkSize::Large) == (640u32, 640u32),
{
}

/// An artwork request: which track, and which image size.
#[derive(Debug, Clone)]
pub struct GetArtworkQuery {
    pub title: String,
    pub artist: String,
    pub size: ArtworkSize,
}

/// One image of an album, as the catalog lists it.
#[derive(Debug, Clone)]
pub struct CatalogImage {
    pub url: String,
    pub width: Option<u32>,
    pub height: Option<u32>,
}

/// A track found by the catalog search, with its album's images in catalog
/// order.
#[derive(Debug, Clone)]
pub struct Track {
    pub album_images: Vec<CatalogImage>,
}

/// What a track search answered.
#[derive(Debug, Clone)]
pub enum SearchOutcome {
    /// Tracks, best match first.
    Tracks(Vec<Track>),
    /// A result of another kind than tracks, described for the error message.
    OtherKind(String),
}

/// The image has exactly the given width and height.
pub open spec fn fits(img: CatalogImage, dims: (u32, u32)) -> bool {
    img.width == Some(dims.0) && img.height == Some(dims.1)
}

/// Position of the first image in `imgs` that has exactly the dimensions `dims`.
pub open spec fn first_fitting(imgs: Seq<CatalogImage>, dims: (u32, u32)) -> Option<int>
    decreases imgs.len(),
{
    if imgs.len() == 0 {
        None
    } else if fits(imgs[0], dims) {
        Some(0)
    } else {
        match first_fitting(imgs.drop_first(), dims) {
            Some(k) => Some(k + 1),
            None => None,
        }
    }
}

proof fn lemma_first_fitting(imgs: Seq<CatalogImage>, dims: (u32, u32), i: int)
    requires
        0 <= i <= imgs.len(),
        forall|j: int| 0 <= j < i ==> !fits(#[trigger] imgs[j], dims),
    ensures
        i < imgs.len() && fits(imgs[i], dims) ==> first_fitting(imgs, dims) == Some(i),
        i == imgs.len() ==> first_fitting(imgs, dims) is None,
    decreases i,
{
    if i > 0 {
        let d = imgs.drop_first();
        assert forall|j: int| 0 <= j < i - 1 implies !fits(#[trigger] d[j], dims) by {
            assert(d[j] == imgs[j + 1]);
        }
        lemma_first_fitting(d, dims, i - 1);
    }
}

/// When exactly one image has the dimensions of `size`, that image is the
/// one selected, wherever it stands in the list.
pub proof fn lemma_unique_fit_selected(imgs: Seq<CatalogImage>, size: ArtworkSize, i: int)
    requires
        0 <= i < imgs.len(),
        fits(imgs[i], size_pixels(size)),
        forall|j: int| 0 <= j < imgs.len() && j != i ==> !fits(#[trigger] imgs[j], size_pixels(size)),
    ensures
        first_fitting(imgs, size_pixels(size)) == Some(i),
{
    lemma_first_fitting(imgs, size_pixels(size), i);
}

/// Index of the first image with exactly the dimensions `dims`.
pub fn find_image(imgs: &Vec<CatalogImage>, dims: (u32, u32)) -> (r: Option<usize>)
    ensures
        r matches Some(i) ==> i < imgs@.len() && first_fitting(imgs@, dims) == Some(i as int),
        r is None ==> first_fitting(imgs@, dims) is None,
{
    let mut i: usize = 0;
    while i < imgs.len()
        invariant
            i <= imgs@.len(),
            forall|j: int| 0 <= j < i ==> !fits(#[trigger] imgs@[j], dims),
        decreases imgs@.len() - i,
    {
        let img = &imgs[i];
        if img.width == Some(dims.0) && img.height == Some(dims.1) {
            proof {
                lemma_first_fitting(imgs@, dims, i as int);
            }
            return Some(i);
        }
        i = i + 1;
    }
    proof {
        lemma_first_fitting(imgs@, dims, i as int);
    }
    None
}

/// The free-text search for a track by title and artist.
pub fn track_search_text(title: &str, artist: &str) -> (r: String)
    ensures
        r@ == "track:"@ + title@ + " artist:"@ + artist@,
{
    String::from_str("track:").concat(title).concat(" artist:").concat(artist)
}

/// Where a credential pair is incomplete, the request fails as an internal
/// error; otherwise the pair is handed on unchanged.
pub fn require_credentials(client_id: Option<String>, client_secret: Option<String>) -> (r: Result<
    (String, String),
    ApiError,
>)
    ensures
        r is Ok <==> client_id is Some && client_secret is Some,
        r matches Ok(p) ==> p.0@ == client_id->0@ && p.1@ == client_secret->0@,
        client_id is None ==> fails_saying(r, ErrorKind::InternalError, "Failed to get client ID"@),
        client_id is Some && client_secret is None ==> fails_saying(
            r,
            ErrorKind::InternalError,
            "Failed to get client secret"@,
        ),
{
    match client_id {
        None => Err(
            ApiError {
                kind: ErrorKind::InternalError,
                message: String::from_str("Failed to get client ID"),
            },
        ),
        Some(id) => match client_secret {
            None => Err(
                ApiError {
                    kind: ErrorKind::InternalError,
                    message: String::from_str("Failed to get client secret"),
                },
            ),
            Some(secret) => Ok((id, secret)),
        },
    }
}

/// A failed token request ends the request as an internal error.
pub fn check_token(token: Result<(), String>) -> (r: Result<(), ApiError>)
    ensures
        r is Ok <==> token is Ok,
        token matches Err(detail) ==> fails_saying(
            r,
            ErrorKind::InternalError,
            "Failed to request token: "@ + detail@,
        ),
{
    match token {
        Ok(()) => Ok(()),
        Err(detail) => Err(
            ApiError {
                kind: ErrorKind::InternalError,
                message: String::from_str("Failed to request token: ").concat(detail.as_str()),
            },
        ),
    }
}

/// Picks the artwork URL out of a track search: the first track's first album
/// image with exactly the requested dimensions. No track is `NotFound`; a
/// track without an image of that exact size counts as an internal error,
/// like every upstream failure.
pub fn resolve_artwork(query: &GetArtworkQuery, search: Result<SearchOutcome, String>) -> (r: Result<
    String,
    ApiError,
>)
    ensures
        search matches Err(detail) ==> fails_saying(
            r,
            ErrorKind::InternalError,
            "Failed to search for artwork: "@ + detail@,
        ),
        search matches Ok(SearchOutcome::OtherKind(desc)) ==> fails_saying(
            r,
            ErrorKind::InternalError,
            "Unexpected search result: "@ + desc@,
        ),
        search matches Ok(SearchOutcome::Tracks(ts)) ==> {
            if ts@.len() == 0 {
                fails_saying(
                    r,
                    ErrorKind::NotFound,
                    "No track found for song with title: "@ + query.title@ + " and artist: "@
                        + query.artist@,
                )
            } else {
                match first_fitting(ts@[0].album_images@, size_pixels(query.size)) {
                    Some(i) => (r matches Ok(url) && url@ == ts@[0].album_images@[i].url@),
                    None => fails_saying(r, ErrorKind::InternalError, "No image found"@),
                }
            }
        },
{
    match search {
        Err(detail) => Err(
            ApiError {
                kind: ErrorKind::InternalError,
                message: String::from_str("Failed to search for artwork: ").concat(
                    detail.as_str(),
                ),
            },
        ),
        Ok(SearchOutcome::OtherKind(desc)) => Err(
            ApiError {
                kind: ErrorKind::InternalError,
                message: String::from_str("Unexpected search result: ").concat(desc.as_str()),
            },
        ),
        Ok(SearchOutcome::Tracks(tracks)) => {
            if tracks.len() == 0 {
                return Err(
                    ApiError {
                        kind: ErrorKind::NotFound,
                        message: String::from_str("No track found for song with title: ").concat(
                            query.title.as_str(),
                        ).concat(" and artist: ").concat(query.artist.as_str()),
                    },
                );
            }
            let track = &tracks[0];
            let dims = query.size.to_size();
            match find_image(&track.album_images, dims) {
                Some(i) => Ok(track.album_images[i].url.clone()),
                None => Err(
                    ApiError {
                        kind: ErrorKind::InternalError,
                        message: String::from_str("No image found"),
                    },
                ),
            }
        },
    }
}

} // verus!
