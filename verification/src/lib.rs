//! Extraction engine for GPU diagnostic dumps: locates labeled fields and
//! multi-line blocks in a loosely structured text report, aggregates repeated
//! per-unit facts into frequency tables, runs a fixed set of issue detectors
//! (error counters, temperatures, link degradation), and renders a sectioned
//! health summary.

pub mod counters;
pub mod detect;
pub mod extract;
pub mod freq;
pub mod gpu;
pub mod pattern;
pub mod pcie;
pub mod report;
pub mod summary;
pub mod text;
pub mod xid;
