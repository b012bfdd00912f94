//! Scans category listing pages for shows, normalizes Hebrew dates and
//! times into calendar values, diffs the result against the previous
//! snapshot, and renders a notification for the newly appeared shows.
pub mod dates;
pub mod diff;
pub mod errors;
pub mod extract;
pub mod hebrew;
pub mod message;
pub mod shows;
pub mod snapshot;
pub mod sort;
pub mod text;
