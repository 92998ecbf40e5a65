//! Build-time snapshots of a directory tree, replayable into an in-memory
//! virtual filesystem.
//!
//! A host directory is walked once at build time; each discovered path is
//! translated into a canonical, `/`-separated virtual path. The resulting
//! entry list is turned into an ordered list of construction instructions
//! (create a directory, or create a file with captured bytes) which can later
//! be replayed, all-or-nothing, into a fresh virtual filesystem.
//!
//! - [`paths`] translates host paths into the virtual path namespace;
//! - [`files`] turns one walk of the host tree into the ordered entry list;
//! - [`snapshot`] derives the construction instruction list from it;
//! - [`vfs`] replays instructions into an in-memory virtual filesystem.
//!
//! Host work — resolving and walking the scanned directory, capturing file
//! bytes — happens outside and is handed in as plain values, so everything
//! here is a pure function of its inputs.

pub mod files;
pub mod paths;
pub mod snapshot;
pub mod vfs;
