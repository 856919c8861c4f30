//! Parsing, traversal, construction and serialization of Flattened Device
//! Tree (FDT) blobs.
//!
//! The read-only API is centered around [`fdt::Fdt`], a zero-copy view of
//! an FDT blob that is checked once, when it is made. Nodes and properties
//! of either kind of tree offer the capabilities of the [`Node`] and
//! [`Property`] traits.

pub mod cells;
pub mod codec;
pub mod dts;
pub mod error;
pub mod fdt;
pub mod memreserve;
pub mod node;
pub mod property;
pub mod standard;
pub mod text;

pub use cells::Cells;
pub use node::Node;
pub use property::Property;
pub mod model;
