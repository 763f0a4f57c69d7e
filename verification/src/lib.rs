//! A verified catalog engine for archiving photos and clips.
//!
//! The library keeps two catalogs of files (one per scanned root), diffs a
//! fresh scan against each catalog, collapses within-scan duplicates, decides
//! which files must be copied from one root to the other, and models the
//! copy-and-verify procedure as a state machine whose safety properties are
//! proved.  All file, database and metadata I/O lives outside the library;
//! callers hand in plain values and apply the decisions the library returns.

pub mod archive;
pub mod config;
pub mod images;
pub mod laws;
pub mod store;

pub use images::Date;
pub use images::ImageAdv;
pub use images::ImageBasic;
pub use store::CatalogRecord;
pub use store::Store;
pub use store::TableType;
