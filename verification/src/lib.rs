//! Verified core of the Auralis music player: media container forensics,
//! download completeness decisions, HTTP range handling, the playback queue,
//! and the format and file-name rules of the library.
pub mod mp4;
pub mod text;
pub mod paths;
pub mod formats;
pub mod scanner;
pub mod range;
pub mod completeness;
pub mod publish;
pub mod queue;
pub mod names;
pub mod stream;
pub mod validation;
pub mod templates;
pub mod network;
pub mod artwork;
pub mod prune;
pub mod walk;
pub mod exclude;
pub mod topup;
pub mod tags;
pub mod headers;
pub mod mediastore;
pub mod libscan;
pub mod player;
