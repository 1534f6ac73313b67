//! Decoding of OpenStreetMap data blocks into nodes, ways and relations.
//!
//! The crate works on values that are already in memory: the bytes of a
//! block stream, the messages of one block, and the elements that come out
//! of them. Every function carries a contract that Verus proves.

pub mod delta;
pub mod error;
pub mod file;
pub mod node;
pub mod proto;
pub mod relation;
pub mod tag;
pub mod way;

pub use error::Error;
pub use file::{Element, File};
pub use node::Node;
pub use relation::{Member, Relation};
pub use tag::Tag;
pub use way::{NodeRef, Way};
