//! Loader for a chronological archive of translated comic strips.
//!
//! Each entry lives in a directory named by its date-formatted index,
//! with a metadata descriptor and two fixed-named image files. The
//! library parses and validates entries, derives per-post attributes
//! (weekday, holiday tag, staleness, revision state), and assembles
//! the corpus into an ordered list with prev/next navigation.

pub mod date;
pub mod list;
pub mod post;
pub mod site;
