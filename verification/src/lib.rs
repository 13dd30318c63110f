//! A catalog of streaming channels, built from an extended M3U playlist.
//!
//! - [`playlist`] reads the lines of a playlist into a catalog.
//! - [`catalog`] holds the channels, grouped into named categories.
//! - [`query`] lists the categories and searches the channels.
//! - [`paginate`] computes which slice of a collection one page shows.
//! - [`image_cache`] names cached thumbnails and decides the steps of a fetch.
//! - [`player`] decides how an external player is launched and how that ended.
//! - [`config`] reads the settings of the program.
//! - [`sorting`] and [`text`] hold the ordering and the text operations that the others use.
//!
//! The library decides and computes; reading files, downloading and starting
//! programs are left to its caller.

pub mod catalog;
pub mod config;
pub mod image_cache;
pub mod paginate;
pub mod player;
pub mod playlist;
pub mod query;
pub mod sorting;
pub mod text;
