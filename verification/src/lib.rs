//! Data-plane library of a lightweight Linux process inspector.
//!
//! The library decodes the textual and binary records under `/proc`:
//! the positional `stat` record, the `maps` table, and the packed
//! `pagemap` stream.  It assembles them into immutable snapshots of the
//! process table and models the single-slot hand-off through which a
//! background producer publishes snapshots to a polling consumer.
//!
//! All file and thread handling lives in the embedding host; the
//! functions here work on plain values.

use vstd::prelude::*;

pub mod errors;
pub mod maps;
pub mod page_frame;
pub mod physmap;
pub mod process;
pub mod scanner;
pub mod snapshot;
pub mod stat;
pub mod text;

verus! {

/// Page size assumed for the virtual address arithmetic.
pub const LINUX_PAGE_SIZE: usize = 4096;

} // verus!
