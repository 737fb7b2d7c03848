//! An image-compositing dataflow graph: processing nodes with named input and
//! output slots, a graph that owns them under generated names and wires them
//! together, and the blending step of a single node. Beside the graph stand
//! the image buffers that the host hands in and takes back, and the state of
//! the keys and mouse buttons that it steers with.
//!
//! The samples of an image are of a type that the host chooses, and the
//! operation that blends two of them is a value that the host hands in.

pub mod controls;
pub mod graph;
pub mod image;
pub mod mixer;
pub mod naming;
pub mod node;
pub mod nodes;
pub mod port;
pub mod slots;
pub mod text;
pub mod wiring;
