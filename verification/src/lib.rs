//! Density-based clustering of 2D geographic points (DBSCAN).
//!
//! Coordinates are held in microdegrees and the neighbourhood radius in
//! micro-kilometres, so every distance comparison is exact integer
//! arithmetic: `point` models the data, `distance` the metric,
//! `neighbors` the range queries, `labels` the per-point state,
//! `dbscan` the cluster expansion, `summary` the aggregate counts,
//! `columns` the coordinate-column lookup, and `laws` the proved
//! properties of the whole.

pub mod point;
pub mod distance;
pub mod neighbors;
pub mod labels;
pub mod dbscan;
pub mod summary;
pub mod columns;
pub mod laws;
