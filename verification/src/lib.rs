//! Safe archive ingestion and run bookkeeping for a report-hosting service.
//!
//! Two components carry the real risk and are verified here end to end:
//! the archive extractor, which turns an untrusted compressed archive into
//! a file tree without path escapes or resource exhaustion, and the run
//! store, which keeps per-project run counters, latest-run pointers and
//! status records as small files whose exact contents and meanings are
//! specified.  The surrounding service (HTTP, filesystem and renderer
//! plumbing) stays outside; it reads file contents and directory listings,
//! hands them to this crate, and writes back exactly the bytes this crate
//! produces, each metadata write going through a sibling temp file and an
//! atomic rename.

use vstd::prelude::*;

pub mod api;
pub mod entrypath;
pub mod json;
pub mod listing;
pub mod paths;
pub mod records;
pub mod storage;
pub mod text;
pub mod unzip;
pub mod util;
pub mod zipio;

verus! {

} // verus!
