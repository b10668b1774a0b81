//! The data model of the ranking index: query parameters, decoded entries,
//! the edges handed in from the substrate, errors, and the index
//! configuration.
use vstd::prelude::*;

verus! {

/// Whether a range query walks the shards from the lowest ranking upward or
/// from the highest ranking downward.
#[derive(Clone, Copy, Debug, PartialEq, Eq, Structural)]
pub enum GetRankingDirection {
    Ascendent,
    Descendent,
}

/// A resumption point for a paginated query. Ascending queries collect
/// entries with `ranking >= from_ranking`; descending queries collect entries
/// with `ranking <= from_ranking`.
#[derive(Clone, Copy, Debug, PartialEq, Eq, Structural)]
pub struct GetRankingCursor {
    pub from_ranking: i64,
}

/// The decoded payload carried by one edge: the entry's ranking and the
/// caller's optional opaque tag.
#[derive(Clone, Debug, PartialEq, Eq)]
pub struct RankingTag {
    pub ranking: i64,
    pub custom_tag: Option<Vec<u8>>,
}

/// One entry of a query result: the target identifier together with the
/// custom tag it was inserted with.
#[derive(Clone, Debug, PartialEq, Eq)]
pub struct HashWithTag {
    pub hash: Vec<u8>,
    pub tag: Option<Vec<u8>>,
}

/// The mathematical value of a [`HashWithTag`].
pub struct HashWithTagV {
    pub hash: Seq<u8>,
    pub tag: Option<Seq<u8>>,
}

impl View for HashWithTag {
    type V = HashWithTagV;

    open spec fn view(&self) -> HashWithTagV {
        HashWithTagV { hash: self.hash@, tag: spec_opt_bytes(self.tag) }
    }
}

/// One edge fetched from a shard node, as the substrate reports it: the
/// edge's own identifier (used to delete it), the target it points at, and
/// the raw tag bytes.
#[derive(Clone, Debug, PartialEq, Eq)]
pub struct Link {
    pub create_link_hash: Vec<u8>,
    pub target: Vec<u8>,
    pub tag: Vec<u8>,
}

/// The mathematical value of a [`Link`].
pub struct LinkV {
    pub create_link_hash: Seq<u8>,
    pub target: Seq<u8>,
    pub tag: Seq<u8>,
}

impl View for Link {
    type V = LinkV;

    open spec fn view(&self) -> LinkV {
        LinkV {
            create_link_hash: self.create_link_hash@,
            target: self.target@,
            tag: self.tag@,
        }
    }
}

/// The value of an optional byte buffer.
pub open spec fn spec_opt_bytes(b: Option<Vec<u8>>) -> Option<Seq<u8>> {
    match b {
        Some(v) => Some(v@),
        None => None,
    }
}

/// Why a tag payload could not be decoded. Decoding never panics; a malformed
/// payload is reported through this type.
#[derive(Clone, Copy, Debug, PartialEq, Eq, Structural)]
pub enum CodecError {
    /// The payload is shorter than the fixed envelope header.
    Truncated,
    /// The envelope's marker byte is not one of the two defined values.
    UnknownMarker,
    /// The envelope says no custom tag follows, yet bytes follow.
    TrailingBytes,
}

/// The configuration of one ranking index: every ranking `r` lives in the
/// shard numbered `r / index_interval` (integer division truncating toward
/// zero). Two indexes with the same interval width shard identically.
pub struct RankingIndex {
    pub index_interval: u64,
}

impl RankingIndex {
    /// A usable configuration: the interval width is positive, and small
    /// enough that it keeps its value when read as a signed ranking.
    pub open spec fn wf(&self) -> bool {
        1 <= self.index_interval <= i64::MAX as u64
    }

    /// The configuration used when no explicit interval width is chosen.
    pub fn new_with_default_mod() -> (index: RankingIndex)
        ensures
            index.index_interval == 100u64,
            index.wf(),
    {
        RankingIndex { index_interval: 100 }
    }
}

} // verus!
