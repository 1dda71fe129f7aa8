//! Evaluation core for a tree-shaped digital audio processing graph.
//!
//! Nodes pull audio from their inputs, mix the pulled signals with a
//! per-channel gain derived from volume and stereo pan, and then apply their
//! own processing, producing one interleaved buffer per call. Samples, volume
//! and pan are fixed-point integers with [`gain::UNIT`] standing for one, so
//! that every arithmetic step of a pull has an exact, machine-checked meaning.
//!
//! The graph is an arena: a node refers to its inputs by index, and every
//! input index points strictly below the node's own index, which makes every
//! graph finite and acyclic and every pull terminating.

pub mod gain;
pub mod node;

pub use gain::Panning;
pub use gain::Volume;
pub use gain::UNIT;
pub use node::Graph;
pub use node::InputNode;
pub use node::Node;
pub use node::NodeKind;
pub use node::Settings;
