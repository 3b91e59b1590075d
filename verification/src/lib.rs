//! Save-slot bookkeeping and header decoding for a game that keeps a single
//! active save file.
//!
//! * [`bytes`]: bounds-checked little-endian reads at absolute offsets.
//! * [`header`]: the two header layouts and the preview decoded from them.
//! * [`slots`]: which files are slots, and the listing shown to the player.
//! * [`repository`]: save, restore, delete and backup as commands for the
//!   caller to perform, with a model of the disk that states what they do.
//! * [`update`]: the status line of the release check.

pub mod bytes;
pub mod header;
pub mod repository;
pub mod slots;
pub mod update;
