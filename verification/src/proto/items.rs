//! The messages of the block format, as plain values.
//!
//! Each type holds the fields of one message that decoding reads. A field
//! that the format marks optional is an `Option`, a repeated one a `Vec`.

use vstd::prelude::*;

verus! {

/// Announces one blob: the kind of block it holds and its length in bytes.
#[derive(Clone, Debug, PartialEq, Eq, Default)]
pub struct BlobHeader {
    /// The kind of block: `"OSMHeader"` or `"OSMData"`.
    pub kind: String,
    /// The number of bytes of the blob message that follows.
    pub datasize: i32,
}

/// The payload of a blob, by the way it is packed.
#[derive(Clone, Debug, PartialEq, Eq)]
pub enum Data {
    /// The block itself, not packed.
    Raw(Vec<u8>),
    /// The block as a zlib stream.
    ZlibData(Vec<u8>),
    /// The block packed with LZMA.
    LzmaData(Vec<u8>),
    /// The block packed with bzip2.
    ObsoleteBzip2Data(Vec<u8>),
    /// The block packed with LZ4.
    Lz4Data(Vec<u8>),
    /// The block packed with Zstandard.
    ZstdData(Vec<u8>),
}

/// One block as it travels: packed or not, with the size it unpacks to.
#[derive(Clone, Debug, PartialEq, Eq, Default)]
pub struct Blob {
    /// The number of bytes of the block once unpacked.
    pub raw_size: Option<i32>,
    /// The payload.
    pub data: Option<Data>,
}

/// The block that opens a file. Nothing of it reaches the decoded elements.
#[derive(Clone, Debug, PartialEq, Eq, Default)]
pub struct HeaderBlock {
    /// Features a reader must support to read the file.
    pub required_features: Vec<String>,
    /// Features a reader may ignore.
    pub optional_features: Vec<String>,
    /// The program that wrote the file.
    pub writingprogram: Option<String>,
    /// Where the data comes from.
    pub source: Option<String>,
}

/// The strings of one data block. Tags and roles refer to them by index.
#[derive(Clone, Debug, PartialEq, Eq, Default)]
pub struct StringTable {
    /// The strings, as bytes.
    pub s: Vec<Vec<u8>>,
}

/// A node that stands alone, with absolute identifier and coordinates.
#[derive(Clone, Debug, PartialEq, Eq, Default)]
pub struct Node {
    pub id: i64,
    /// String table indices of the tag keys.
    pub keys: Vec<u32>,
    /// String table indices of the tag values, parallel to `keys`.
    pub vals: Vec<u32>,
    /// Latitude in units of the block's granularity.
    pub lat: i64,
    /// Longitude in units of the block's granularity.
    pub lon: i64,
}

/// Many nodes in columns: each column holds differences from node to node.
#[derive(Clone, Debug, PartialEq, Eq, Default)]
pub struct DenseNodes {
    pub id: Vec<i64>,
    pub lat: Vec<i64>,
    pub lon: Vec<i64>,
    /// The tags of all nodes in one array: for each node pairs of key and
    /// value index, closed by a zero.
    pub keys_vals: Vec<i32>,
}

/// A way: its node references are differences from one to the next.
#[derive(Clone, Debug, PartialEq, Eq, Default)]
pub struct Way {
    pub id: i64,
    pub keys: Vec<u32>,
    pub vals: Vec<u32>,
    pub refs: Vec<i64>,
}

/// A relation: its members are three parallel columns.
#[derive(Clone, Debug, PartialEq, Eq, Default)]
pub struct Relation {
    pub id: i64,
    pub keys: Vec<u32>,
    pub vals: Vec<u32>,
    /// String table index of each member's role.
    pub roles_sid: Vec<i32>,
    /// Identifier of each member, as a difference from the one before.
    pub memids: Vec<i64>,
    /// Type code of each member.
    pub types: Vec<i32>,
}

/// A changeset. It carries no geometry.
#[derive(Clone, Debug, PartialEq, Eq, Default)]
pub struct ChangeSet {
    pub id: i64,
}

/// A batch of elements of one kind.
#[derive(Clone, Debug, PartialEq, Eq, Default)]
pub struct PrimitiveGroup {
    pub nodes: Vec<Node>,
    pub dense: Option<DenseNodes>,
    pub ways: Vec<Way>,
    pub relations: Vec<Relation>,
    pub changesets: Vec<ChangeSet>,
}

/// A data block: a string table, groups of elements, and the scale of its
/// coordinates.
#[derive(Clone, Debug, PartialEq, Eq, Default)]
pub struct PrimitiveBlock {
    pub stringtable: StringTable,
    pub primitivegroup: Vec<PrimitiveGroup>,
    /// Nanodegrees per coordinate unit; 100 where absent.
    pub granularity: Option<i32>,
    /// Nanodegrees added to every latitude; 0 where absent.
    pub lat_offset: Option<i64>,
    /// Nanodegrees added to every longitude; 0 where absent.
    pub lon_offset: Option<i64>,
}


/// What a member of a relation is.
#[derive(Clone, Copy, Debug, PartialEq, Eq, Structural)]
pub enum MemberType {
    Node,
    Way,
    Relation,
}

/// The member type that a type code stands for: 0 a node, 1 a way, 2 a
/// relation. Other codes stand for nothing.
pub open spec fn member_type_of(code: i32) -> Option<MemberType> {
    if code == 0 {
        Some(MemberType::Node)
    } else if code == 1 {
        Some(MemberType::Way)
    } else if code == 2 {
        Some(MemberType::Relation)
    } else {
        None
    }
}

impl MemberType {
    /// The member type for a type code, if the code is a known one.
    pub fn from_i32(code: i32) -> (res: Option<MemberType>)
        ensures
            res == member_type_of(code),
    {
        if code == 0 {
            Some(MemberType::Node)
        } else if code == 1 {
            Some(MemberType::Way)
        } else if code == 2 {
            Some(MemberType::Relation)
        } else {
            None
        }
    }

    /// The name of the member type as the format's schema writes it.
    pub open spec fn spec_str_name(&self) -> &'static str {
        match self {
            MemberType::Node => "NODE",
            MemberType::Way => "WAY",
            MemberType::Relation => "RELATION",
        }
    }

    /// The name of the member type as the format's schema writes it:
    /// `"NODE"`, `"WAY"` or `"RELATION"`.
    pub fn as_str_name(&self) -> (name: &'static str)
        ensures
            name@ == self.spec_str_name()@,
    {
        match self {
            MemberType::Node => "NODE",
            MemberType::Way => "WAY",
            MemberType::Relation => "RELATION",
        }
    }
}

} // verus!
