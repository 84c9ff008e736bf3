//! Verified core of an interactive viewer for a fixed, named 3D point set.
//!
//! Coordinates are carried as fixed-point integers in milliunits (one
//! thousandth of a spatial unit) and color channels as fixed-point
//! fractions of 10000 (so 10000 stands for a full channel).  All of the
//! viewer's decisions — query matching, hemisphere filtering, sorting,
//! virtualized row ranges, marker sizing, color fallback and the
//! cross-view slab/highlight geometry — are computed here and proved
//! against their contracts; drawing and I/O live outside this crate.

pub mod filter;
pub mod link;
pub mod list;
pub mod order;
pub mod plot;
pub mod point;
pub mod query;
pub mod side;
pub mod store;
pub mod textfmt;
