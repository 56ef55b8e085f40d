//! Resolution logic of a small music metadata service: album artwork lookup
//! by exact image size, and song search with short lyrics excerpts.

pub mod artwork;
pub mod json;
pub mod lyrics;
pub mod response;
pub mod song;
pub mod text;
