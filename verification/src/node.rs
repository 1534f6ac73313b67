//! Nodes: points with an identifier, a position and tags.

use crate::delta::running_total;
use crate::error::Error;
use crate::proto::items;
use crate::tag::{dense_tags, tags_from_kvs, DenseTags, Tag, TagView};
use vstd::prelude::*;

verus! {

/// A point of the map. Latitude and longitude are whole nanodegrees: a
/// billion of them make one degree.
#[derive(Clone, Debug, PartialEq, Eq, Default)]
pub struct Node {
    pub id: i64,
    /// Latitude in nanodegrees.
    pub lat: i128,
    /// Longitude in nanodegrees.
    pub lon: i128,
    pub tags: Vec<Tag>,
}

/// What a [`Node`] holds.
pub ghost struct NodeView {
    pub id: i64,
    pub lat: int,
    pub lon: int,
    pub tags: Seq<TagView>,
}

impl View for Node {
    type V = NodeView;

    open spec fn view(&self) -> NodeView {
        NodeView { id: self.id, lat: self.lat as int, lon: self.lon as int, tags: self.tags.deep_view() }
    }
}

impl DeepView for Node {
    type V = NodeView;

    open spec fn deep_view(&self) -> NodeView {
        self@
    }
}

/// The offset of a block's coordinates: zero where the block names none.
pub open spec fn offset_or_default(offset: Option<i64>) -> int {
    match offset {
        Some(o) => o as int,
        None => 0,
    }
}

/// The granularity of a block's coordinates: 100 nanodegrees where the
/// block names none.
pub open spec fn granularity_or_default(granularity: Option<i32>) -> int {
    match granularity {
        Some(g) => g as int,
        None => 100,
    }
}

/// The coordinate, in nanodegrees, that the stored value `raw` stands for
/// in a block with the given offset and granularity.
pub open spec fn nanodegrees(raw: i64, offset: Option<i64>, granularity: Option<i32>) -> int {
    offset_or_default(offset) + granularity_or_default(granularity) * raw
}

/// A block that names no offset and no granularity scales its coordinates
/// as one that names the offset 0 and the granularity 100.
pub proof fn lemma_scaling_defaults(raw: i64)
    ensures
        nanodegrees(raw, None, None) == nanodegrees(raw, Some(0i64), Some(100i32)),
        nanodegrees(raw, None, None) == 100 * raw,
{
}

/// Scales a stored coordinate to nanodegrees.
pub fn coord(raw: i64, offset: Option<i64>, granularity: Option<i32>) -> (c: i128)
    ensures
        c == nanodegrees(raw, offset, granularity),
{
    let off: i128 = match offset {
        Some(o) => o as i128,
        None => 0,
    };
    let gran: i128 = match granularity {
        Some(g) => g as i128,
        None => 100,
    };
    let wide: i128 = raw as i128;
    assert(-0x4000_0000_0000_0000_0000_0000 <= gran * wide <= 0x4000_0000_0000_0000_0000_0000)
        by (nonlinear_arith)
        requires
            -0x8000_0000 <= gran <= 0x8000_0000,
            -0x8000_0000_0000_0000 <= wide <= 0x8000_0000_0000_0000,
    ;
    off + gran * wide
}

/// The node that a stand-alone node message stands for.
pub open spec fn node_from_proto(
    n: items::Node,
    st: Seq<Seq<char>>,
    pb: items::PrimitiveBlock,
) -> Result<NodeView, Error> {
    match tags_from_kvs(n.keys@, n.vals@, st) {
        Ok(tags) => Ok(
            NodeView {
                id: n.id,
                lat: nanodegrees(n.lat, pb.lat_offset, pb.granularity),
                lon: nanodegrees(n.lon, pb.lon_offset, pb.granularity),
                tags,
            },
        ),
        Err(e) => Err(e),
    }
}

/// The number of nodes in a dense group: the shortest of its three columns
/// decides.
pub open spec fn dense_count(dense: items::DenseNodes) -> int {
    let a = dense.id@.len() as int;
    let b = dense.lat@.len() as int;
    let c = dense.lon@.len() as int;
    if a <= b && a <= c {
        a
    } else if b <= c {
        b
    } else {
        c
    }
}

/// The first `n` nodes of a dense group, and the place in the packed tag
/// array where the tags of the node behind them begin.
pub ghost struct DenseRun {
    pub nodes: Seq<NodeView>,
    pub cursor: int,
}

/// The first `n` nodes of a dense group.
///
/// Node `i` has as identifier, latitude and longitude the running totals of
/// the three columns up to and with entry `i`, the two coordinates scaled.
/// Its tags are the share of the packed tag array that begins where the
/// share of node `i - 1` ended; the first share begins at 0.
pub open spec fn dense_nodes_upto(
    dense: items::DenseNodes,
    st: Seq<Seq<char>>,
    pb: items::PrimitiveBlock,
    n: int,
) -> Result<DenseRun, Error>
    decreases n,
{
    if n <= 0 {
        Ok(DenseRun { nodes: Seq::empty(), cursor: 0 })
    } else {
        match dense_nodes_upto(dense, st, pb, n - 1) {
            Err(e) => Err(e),
            Ok(run) => match dense_tags(dense.keys_vals@, st, run.cursor) {
                Err(e) => Err(e),
                Ok(share) => Ok(
                    DenseRun {
                        nodes: run.nodes.push(
                            NodeView {
                                id: running_total(dense.id@, n),
                                lat: nanodegrees(
                                    running_total(dense.lat@, n),
                                    pb.lat_offset,
                                    pb.granularity,
                                ),
                                lon: nanodegrees(
                                    running_total(dense.lon@, n),
                                    pb.lon_offset,
                                    pb.granularity,
                                ),
                                tags: share.tags,
                            },
                        ),
                        cursor: share.next,
                    },
                ),
            },
        }
    }
}

/// Where the first `n` nodes of a dense group come out, there are `n` of
/// them, node `i` has the running totals of the three columns up to and
/// with entry `i`, and the tag cursor lies within the packed tag array.
pub proof fn lemma_dense_nodes_shape(
    dense: items::DenseNodes,
    st: Seq<Seq<char>>,
    pb: items::PrimitiveBlock,
    n: int,
)
    requires
        0 <= n,
    ensures
        match dense_nodes_upto(dense, st, pb, n) {
            Ok(run) => {
                &&& run.nodes.len() == n
                &&& 0 <= run.cursor <= dense.keys_vals@.len()
                &&& forall|i: int|
                    0 <= i < n ==> {
                        &&& (#[trigger] run.nodes[i]).id == running_total(dense.id@, i + 1)
                        &&& run.nodes[i].lat == nanodegrees(
                            running_total(dense.lat@, i + 1),
                            pb.lat_offset,
                            pb.granularity,
                        )
                        &&& run.nodes[i].lon == nanodegrees(
                            running_total(dense.lon@, i + 1),
                            pb.lon_offset,
                            pb.granularity,
                        )
                    }
            },
            Err(e) => e == Error::StringTableIndexOutOfRange || e == Error::DanglingTagKey,
        },
    decreases n,
{
    if n > 0 {
        lemma_dense_nodes_shape(dense, st, pb, n - 1);
        match dense_nodes_upto(dense, st, pb, n - 1) {
            Ok(run) => {
                crate::tag::lemma_dense_tags_layout(dense.keys_vals@, st, run.cursor);
                crate::tag::lemma_dense_tags_errors(dense.keys_vals@, st, run.cursor);
            },
            Err(_) => {},
        }
    }
}

/// The nodes of a dense group.
pub open spec fn nodes_from_dense(
    dense: items::DenseNodes,
    st: Seq<Seq<char>>,
    pb: items::PrimitiveBlock,
) -> Result<Seq<NodeView>, Error> {
    match dense_nodes_upto(dense, st, pb, dense_count(dense)) {
        Ok(run) => Ok(run.nodes),
        Err(e) => Err(e),
    }
}

impl Node {
    /// Decodes the nodes of a dense group, in the group's order.
    pub fn from_proto_dense_nodes(
        dense: &items::DenseNodes,
        st: &Vec<String>,
        pb: &items::PrimitiveBlock,
    ) -> (res: Result<Vec<Node>, Error>)
        ensures
            match res {
                Ok(nodes) => nodes_from_dense(*dense, st.deep_view(), *pb) == Ok::<
                    Seq<NodeView>,
                    Error,
                >(nodes.deep_view()),
                Err(e) => nodes_from_dense(*dense, st.deep_view(), *pb) == Err::<
                    Seq<NodeView>,
                    Error,
                >(e),
            },
    {
        let ghost table = st.deep_view();
        let mut n: usize = dense.id.len();
        if dense.lat.len() < n {
            n = dense.lat.len();
        }
        if dense.lon.len() < n {
            n = dense.lon.len();
        }
        let mut id: i64 = 0;
        let mut lat: i64 = 0;
        let mut lon: i64 = 0;
        let mut ti: usize = 0;
        let mut nodes: Vec<Node> = Vec::with_capacity(n);
        let mut i: usize = 0;
        assert(nodes.deep_view() =~= Seq::<NodeView>::empty());
        while i < n
            invariant
                table == st.deep_view(),
                n == dense_count(*dense),
                0 <= i <= n,
                id == running_total(dense.id@, i as int),
                lat == running_total(dense.lat@, i as int),
                lon == running_total(dense.lon@, i as int),
                dense_nodes_upto(*dense, table, *pb, i as int) == Ok::<DenseRun, Error>(
                    (DenseRun { nodes: nodes.deep_view(), cursor: ti as int }),
                ),
            decreases n - i,
        {
            id = id.wrapping_add(dense.id[i]);
            lat = lat.wrapping_add(dense.lat[i]);
            lon = lon.wrapping_add(dense.lon[i]);
            let tags = match Tag::from_dense_nodes_kvs(&dense.keys_vals, st, &mut ti) {
                Ok(tags) => tags,
                Err(e) => {
                    proof {
                        lemma_dense_error_stays(*dense, table, *pb, i as int + 1, n as int);
                    }
                    return Err(e);
                },
            };
            let node = Node {
                id,
                lat: coord(lat, pb.lat_offset, pb.granularity),
                lon: coord(lon, pb.lon_offset, pb.granularity),
                tags,
            };
            let ghost before = nodes.deep_view();
            nodes.push(node);
            assert(nodes.deep_view() =~= before.push(node@));
            i += 1;
        }
        Ok(nodes)
    }

    /// Decodes a stand-alone node.
    pub fn from_proto(n: &items::Node, st: &Vec<String>, pb: &items::PrimitiveBlock) -> (res:
        Result<Node, Error>)
        ensures
            match res {
                Ok(node) => node_from_proto(*n, st.deep_view(), *pb) == Ok::<NodeView, Error>(
                    node@,
                ),
                Err(e) => node_from_proto(*n, st.deep_view(), *pb) == Err::<NodeView, Error>(e),
            },
    {
        let tags = match Tag::from_kvs(&n.keys, &n.vals, st) {
            Ok(tags) => tags,
            Err(e) => {
                return Err(e);
            },
        };
        Ok(
            Node {
                id: n.id,
                lat: coord(n.lat, pb.lat_offset, pb.granularity),
                lon: coord(n.lon, pb.lon_offset, pb.granularity),
                tags,
            },
        )
    }
}

/// Once a prefix of a dense group fails, every longer prefix fails with the
/// same error.
proof fn lemma_dense_error_stays(
    dense: items::DenseNodes,
    st: Seq<Seq<char>>,
    pb: items::PrimitiveBlock,
    m: int,
    n: int,
)
    requires
        m <= n,
        dense_nodes_upto(dense, st, pb, m) is Err,
    ensures
        dense_nodes_upto(dense, st, pb, n) == dense_nodes_upto(dense, st, pb, m),
    decreases n - m,
{
    if m < n {
        lemma_dense_error_stays(dense, st, pb, m, n - 1);
    }
}

} // verus!
