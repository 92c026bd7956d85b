//! Bidirectional codec layer for a packed game-asset binary format.
//!
//! Objects are pairs of a header and a body, each with a little-endian
//! binary form built from a small set of field codecs. Every decodable
//! object kind also reports its outgoing hard and soft reference IDs,
//! which a downstream archive builder unions into a dependency graph.

use vstd::prelude::*;

pub mod bitmap;
pub mod codec;
pub mod engine;
pub mod objects;
pub mod records;
pub mod strings;
pub mod wire;

verus! {

/// Which half of an object a failure belongs to.
#[derive(Clone, Copy, Debug, PartialEq, Eq, Structural)]
pub enum ObjectHalf {
    Header,
    Body,
}

/// Terminal failures of a single pack or unpack transaction.
#[derive(Clone, Copy, Debug, PartialEq, Eq, Structural)]
pub enum WalleError {
    /// A byte slice does not match the expected binary grammar.
    MalformedBinary(ObjectHalf),
    /// A logical value does not fit the shape its codec demands,
    /// such as a fixed-count field given the wrong element count.
    MalformedDocument,
    /// A texture payload too short to carry the format discriminator
    /// and the container header.
    UnsupportedFormatDiscriminant,
}

} // verus!

