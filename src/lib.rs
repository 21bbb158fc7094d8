//! Catalog synchronization for a game-dump manager: datafile parsing, the
//! differential import of games, ROM-name compression, refresh scheduling and
//! cuesheet fingerprints.
pub mod catalog;
pub mod chdman;
pub mod cuesheet;
pub mod dump;
pub mod import;
pub mod laws;
pub mod logiqx;
pub mod naming;
pub mod schedule;
pub mod settings;
pub mod text;
