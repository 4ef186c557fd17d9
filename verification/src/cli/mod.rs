//! The decisions of the publishing pipeline: which revision a snapshot
//! names, what the feeds show, which cached datasets are stale, and the
//! pipeline's state records.
pub mod snapshots;
pub mod state;
pub mod feeds;
pub mod kanpo;
pub mod budget;
pub mod gian;
pub mod feed_items;
pub mod diffs;
pub mod revisions;
pub mod compress;
pub mod calendar;
pub mod pubcomment;
pub mod shingikai;
pub mod update;
pub mod manifest;
pub mod extract;
pub mod changes;
