//! A playlist store for a music library kept in a directory tree.
//!
//! The store holds the playlists of one library root, resolves which files
//! belong to each playlist, allocates card ids and tracks playback positions.
//! Reading and writing the documents on disk is left to the caller, which hands
//! the parsed playlists and the directory listings to [`Store::resolve`].
pub mod error;
pub mod playlist;
pub mod card_ids;
pub mod store;

pub use error::StoreError;
pub use playlist::{Playlist, PlaylistView};
pub use store::{Store, StoreView};
