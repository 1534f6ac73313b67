//! Ways: ordered lists of node references with tags.

use crate::delta::{decode_deltas, delta_decode};
use crate::error::Error;
use crate::proto::items;
use crate::tag::{tags_from_kvs, Tag, TagView};
use vstd::prelude::*;

verus! {

/// A reference to a node, by the node's identifier.
#[derive(Clone, Copy, Debug, PartialEq, Eq, Default)]
pub struct NodeRef {
    pub reference: i64,
}

impl View for NodeRef {
    type V = i64;

    open spec fn view(&self) -> i64 {
        self.reference
    }
}

impl DeepView for NodeRef {
    type V = i64;

    open spec fn deep_view(&self) -> i64 {
        self.reference
    }
}

/// A line or the outline of an area: the nodes it runs through, in order.
#[derive(Clone, Debug, PartialEq, Eq, Default)]
pub struct Way {
    pub id: i64,
    pub nodes: Vec<NodeRef>,
    pub tags: Vec<Tag>,
}

/// What a [`Way`] holds.
pub ghost struct WayView {
    pub id: i64,
    pub nodes: Seq<i64>,
    pub tags: Seq<TagView>,
}

impl View for Way {
    type V = WayView;

    open spec fn view(&self) -> WayView {
        WayView { id: self.id, nodes: self.nodes.deep_view(), tags: self.tags.deep_view() }
    }
}

impl DeepView for Way {
    type V = WayView;

    open spec fn deep_view(&self) -> WayView {
        self@
    }
}

/// The way that a way message stands for: its node references are the
/// running totals of the stored differences.
pub open spec fn way_from_proto(w: items::Way, st: Seq<Seq<char>>) -> Result<WayView, Error> {
    match tags_from_kvs(w.keys@, w.vals@, st) {
        Ok(tags) => Ok(WayView { id: w.id, nodes: delta_decode(w.refs@), tags }),
        Err(e) => Err(e),
    }
}

impl Way {
    /// Decodes a way.
    pub fn from_proto(w: &items::Way, st: &Vec<String>) -> (res: Result<Way, Error>)
        ensures
            match res {
                Ok(way) => way_from_proto(*w, st.deep_view()) == Ok::<WayView, Error>(way@),
                Err(e) => way_from_proto(*w, st.deep_view()) == Err::<WayView, Error>(e),
            },
    {
        let ids = decode_deltas(&w.refs);
        let mut ns: Vec<NodeRef> = Vec::with_capacity(ids.len());
        let mut i: usize = 0;
        while i < ids.len()
            invariant
                0 <= i <= ids.len(),
                ns.len() == i,
                forall|m: int| 0 <= m < i ==> (#[trigger] ns[m]).reference == ids[m],
            decreases ids.len() - i,
        {
            ns.push(NodeRef { reference: ids[i] });
            i += 1;
        }
        assert(ns.deep_view() =~= delta_decode(w.refs@));
        let tags = match Tag::from_kvs(&w.keys, &w.vals, st) {
            Ok(tags) => tags,
            Err(e) => {
                return Err(e);
            },
        };
        Ok(Way { id: w.id, nodes: ns, tags })
    }
}

} // verus!
