//! Parses a comment-annotated, comma-delimited cluster topology file into a
//! validated, strongly typed `Cluster` aggregate, or a classified error.

pub mod cluster;
pub mod error;
pub mod node;
pub mod numeric;
pub mod text;

pub use cluster::Cluster;
pub use cluster::read_cluster;
pub use error::ClusterError;
pub use node::Node;
