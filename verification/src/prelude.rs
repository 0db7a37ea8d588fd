//! Convenience re-exports of the items most callers need.

pub use crate::kmeans;
pub use crate::kmeans_seeded;
pub use crate::try_kmeans;
pub use crate::KmeansError;
pub use crate::types::Cluster;
pub use crate::types::DataPoint;
