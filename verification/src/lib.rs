pub mod simple_graph;

pub use simple_graph::EdgeID;
pub use simple_graph::NodeID;
pub use simple_graph::SimpleGraph;
