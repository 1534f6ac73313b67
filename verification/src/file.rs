//! The elements of a whole file, gathered block by block.

use crate::error::Error;
use crate::node::{node_from_proto, nodes_from_dense, Node, NodeView};
use crate::proto::items;
use crate::proto::{parse_str_tbl, string_table, FileBlock};
use crate::relation::{relation_from_proto, Relation, RelationView};
use crate::way::{way_from_proto, Way, WayView};
use vstd::prelude::*;

verus! {

/// One element of the map.
#[derive(Clone, Debug, PartialEq, Eq)]
pub enum Element {
    Node(Node),
    Way(Way),
    Relation(Relation),
}

/// The elements of a file, each kind in the order in which the file holds
/// it.
#[derive(Clone, Debug, PartialEq, Eq, Default)]
pub struct File {
    pub nodes: Vec<Node>,
    pub ways: Vec<Way>,
    pub relations: Vec<Relation>,
}

/// What a [`File`] holds.
pub ghost struct FileView {
    pub nodes: Seq<NodeView>,
    pub ways: Seq<WayView>,
    pub relations: Seq<RelationView>,
}

impl FileView {
    /// No elements.
    pub open spec fn empty() -> FileView {
        FileView { nodes: Seq::empty(), ways: Seq::empty(), relations: Seq::empty() }
    }

    /// The elements of `self` followed, kind by kind, by those of `other`.
    pub open spec fn concat(self, other: FileView) -> FileView {
        FileView {
            nodes: self.nodes + other.nodes,
            ways: self.ways + other.ways,
            relations: self.relations + other.relations,
        }
    }
}

impl View for File {
    type V = FileView;

    open spec fn view(&self) -> FileView {
        FileView {
            nodes: self.nodes.deep_view(),
            ways: self.ways.deep_view(),
            relations: self.relations.deep_view(),
        }
    }
}

/// The first `n` stand-alone nodes of a group. The first node that cannot
/// be decoded decides the error.
pub open spec fn nodes_upto(
    ns: Seq<items::Node>,
    st: Seq<Seq<char>>,
    pb: items::PrimitiveBlock,
    n: int,
) -> Result<Seq<NodeView>, Error>
    decreases n,
{
    if n <= 0 {
        Ok(Seq::empty())
    } else {
        match nodes_upto(ns, st, pb, n - 1) {
            Err(e) => Err(e),
            Ok(done) => match node_from_proto(ns[n - 1], st, pb) {
                Err(e) => Err(e),
                Ok(node) => Ok(done.push(node)),
            },
        }
    }
}

/// The first `n` ways of a group.
pub open spec fn ways_upto(ws: Seq<items::Way>, st: Seq<Seq<char>>, n: int) -> Result<
    Seq<WayView>,
    Error,
>
    decreases n,
{
    if n <= 0 {
        Ok(Seq::empty())
    } else {
        match ways_upto(ws, st, n - 1) {
            Err(e) => Err(e),
            Ok(done) => match way_from_proto(ws[n - 1], st) {
                Err(e) => Err(e),
                Ok(way) => Ok(done.push(way)),
            },
        }
    }
}

/// The first `n` relations of a group.
pub open spec fn relations_upto(rs: Seq<items::Relation>, st: Seq<Seq<char>>, n: int) -> Result<
    Seq<RelationView>,
    Error,
>
    decreases n,
{
    if n <= 0 {
        Ok(Seq::empty())
    } else {
        match relations_upto(rs, st, n - 1) {
            Err(e) => Err(e),
            Ok(done) => match relation_from_proto(rs[n - 1], st) {
                Err(e) => Err(e),
                Ok(relation) => Ok(done.push(relation)),
            },
        }
    }
}

/// The elements of one group.
///
/// A group holds one kind of element. Which one is asked in a fixed order:
/// dense nodes, ways, relations, stand-alone nodes. The first kind that is
/// there is decoded and the others are not looked at. A group with none of
/// them, such as one of changesets, gives no element.
pub open spec fn group_elements(
    g: items::PrimitiveGroup,
    st: Seq<Seq<char>>,
    pb: items::PrimitiveBlock,
) -> Result<FileView, Error> {
    if let Some(dense) = g.dense {
        match nodes_from_dense(dense, st, pb) {
            Ok(nodes) => Ok(FileView { nodes, ..FileView::empty() }),
            Err(e) => Err(e),
        }
    } else if g.ways@.len() > 0 {
        match ways_upto(g.ways@, st, g.ways@.len() as int) {
            Ok(ways) => Ok(FileView { ways, ..FileView::empty() }),
            Err(e) => Err(e),
        }
    } else if g.relations@.len() > 0 {
        match relations_upto(g.relations@, st, g.relations@.len() as int) {
            Ok(relations) => Ok(FileView { relations, ..FileView::empty() }),
            Err(e) => Err(e),
        }
    } else if g.nodes@.len() > 0 {
        match nodes_upto(g.nodes@, st, pb, g.nodes@.len() as int) {
            Ok(nodes) => Ok(FileView { nodes, ..FileView::empty() }),
            Err(e) => Err(e),
        }
    } else {
        Ok(FileView::empty())
    }
}

/// The elements of the first `n` groups of a block, read with the string
/// table `st`.
pub open spec fn groups_upto(pb: items::PrimitiveBlock, st: Seq<Seq<char>>, n: int) -> Result<
    FileView,
    Error,
>
    decreases n,
{
    if n <= 0 {
        Ok(FileView::empty())
    } else {
        match groups_upto(pb, st, n - 1) {
            Err(e) => Err(e),
            Ok(done) => match group_elements(pb.primitivegroup@[n - 1], st, pb) {
                Err(e) => Err(e),
                Ok(more) => Ok(done.concat(more)),
            },
        }
    }
}

/// The elements of a data block. Its string table is read first, then its
/// groups in order, each with that table.
pub open spec fn block_elements(pb: items::PrimitiveBlock) -> Result<FileView, Error> {
    match string_table(pb.stringtable.s@) {
        Err(e) => Err(e),
        Ok(st) => groups_upto(pb, st, pb.primitivegroup@.len() as int),
    }
}

/// The elements that a block adds to a file: those of a data block, none
/// for the block that opens the file.
pub open spec fn file_block_elements(block: FileBlock) -> Result<FileView, Error> {
    match block {
        FileBlock::Header(_) => Ok(FileView::empty()),
        FileBlock::Primitive(pb) => block_elements(pb),
    }
}

/// The elements of the first `n` blocks of a stream. The first block that
/// cannot be decoded decides the error.
pub open spec fn blocks_upto(blocks: Seq<FileBlock>, n: int) -> Result<FileView, Error>
    decreases n,
{
    if n <= 0 {
        Ok(FileView::empty())
    } else {
        match blocks_upto(blocks, n - 1) {
            Err(e) => Err(e),
            Ok(done) => match file_block_elements(blocks[n - 1]) {
                Err(e) => Err(e),
                Ok(more) => Ok(done.concat(more)),
            },
        }
    }
}

/// The first `n` stand-alone nodes come out if and only if each of them
/// can be decoded, and then in their order. Otherwise the error is that of
/// the first node that cannot be decoded.
pub proof fn lemma_nodes_shape(
    ns: Seq<items::Node>,
    st: Seq<Seq<char>>,
    pb: items::PrimitiveBlock,
    n: int,
)
    requires
        0 <= n,
    ensures
        match nodes_upto(ns, st, pb, n) {
            Ok(out) => out.len() == n && forall|i: int|
                0 <= i < n ==> #[trigger] node_from_proto(ns[i], st, pb) == Ok::<NodeView, Error>(
                    out[i],
                ),
            Err(e) => exists|i: int|
                {
                    &&& 0 <= i < n
                    &&& #[trigger] node_from_proto(ns[i], st, pb) == Err::<NodeView, Error>(e)
                    &&& forall|j: int| 0 <= j < i ==> #[trigger] node_from_proto(ns[j], st, pb) is Ok
                },
        },
    decreases n,
{
    if n > 0 {
        lemma_nodes_shape(ns, st, pb, n - 1);
        match nodes_upto(ns, st, pb, n - 1) {
            Ok(_) => {},
            Err(e) => {
                let i = choose|i: int|
                    {
                        &&& 0 <= i < n - 1
                        &&& #[trigger] node_from_proto(ns[i], st, pb) == Err::<NodeView, Error>(e)
                        &&& forall|j: int|
                            0 <= j < i ==> #[trigger] node_from_proto(ns[j], st, pb) is Ok
                    };
                assert(0 <= i < n && node_from_proto(ns[i], st, pb) == Err::<NodeView, Error>(e));
            },
        }
    }
}

/// The first `n` ways come out if and only if each of them can be decoded,
/// and then in their order. Otherwise the error is that of the first way
/// that cannot be decoded.
pub proof fn lemma_ways_shape(ws: Seq<items::Way>, st: Seq<Seq<char>>, n: int)
    requires
        0 <= n,
    ensures
        match ways_upto(ws, st, n) {
            Ok(out) => out.len() == n && forall|i: int|
                0 <= i < n ==> #[trigger] way_from_proto(ws[i], st) == Ok::<WayView, Error>(out[i]),
            Err(e) => exists|i: int|
                {
                    &&& 0 <= i < n
                    &&& #[trigger] way_from_proto(ws[i], st) == Err::<WayView, Error>(e)
                    &&& forall|j: int| 0 <= j < i ==> #[trigger] way_from_proto(ws[j], st) is Ok
                },
        },
    decreases n,
{
    if n > 0 {
        lemma_ways_shape(ws, st, n - 1);
        match ways_upto(ws, st, n - 1) {
            Ok(_) => {},
            Err(e) => {
                let i = choose|i: int|
                    {
                        &&& 0 <= i < n - 1
                        &&& #[trigger] way_from_proto(ws[i], st) == Err::<WayView, Error>(e)
                        &&& forall|j: int| 0 <= j < i ==> #[trigger] way_from_proto(ws[j], st) is Ok
                    };
                assert(0 <= i < n && way_from_proto(ws[i], st) == Err::<WayView, Error>(e));
            },
        }
    }
}

/// The first `n` relations come out if and only if each of them can be
/// decoded, and then in their order. Otherwise the error is that of the
/// first relation that cannot be decoded.
pub proof fn lemma_relations_shape(rs: Seq<items::Relation>, st: Seq<Seq<char>>, n: int)
    requires
        0 <= n,
    ensures
        match relations_upto(rs, st, n) {
            Ok(out) => out.len() == n && forall|i: int|
                0 <= i < n ==> #[trigger] relation_from_proto(rs[i], st) == Ok::<
                    RelationView,
                    Error,
                >(out[i]),
            Err(e) => exists|i: int|
                {
                    &&& 0 <= i < n
                    &&& #[trigger] relation_from_proto(rs[i], st) == Err::<RelationView, Error>(e)
                    &&& forall|j: int|
                        0 <= j < i ==> #[trigger] relation_from_proto(rs[j], st) is Ok
                },
        },
    decreases n,
{
    if n > 0 {
        lemma_relations_shape(rs, st, n - 1);
        match relations_upto(rs, st, n - 1) {
            Ok(_) => {},
            Err(e) => {
                let i = choose|i: int|
                    {
                        &&& 0 <= i < n - 1
                        &&& #[trigger] relation_from_proto(rs[i], st) == Err::<RelationView, Error>(
                            e,
                        )
                        &&& forall|j: int|
                            0 <= j < i ==> #[trigger] relation_from_proto(rs[j], st) is Ok
                    };
                assert(0 <= i < n && relation_from_proto(rs[i], st) == Err::<RelationView, Error>(
                    e,
                ));
            },
        }
    }
}

proof fn lemma_nodes_error_stays(
    ns: Seq<items::Node>,
    st: Seq<Seq<char>>,
    pb: items::PrimitiveBlock,
    m: int,
    n: int,
)
    requires
        m <= n,
        nodes_upto(ns, st, pb, m) is Err,
    ensures
        nodes_upto(ns, st, pb, n) == nodes_upto(ns, st, pb, m),
    decreases n - m,
{
    if m < n {
        lemma_nodes_error_stays(ns, st, pb, m, n - 1);
    }
}

proof fn lemma_ways_error_stays(ws: Seq<items::Way>, st: Seq<Seq<char>>, m: int, n: int)
    requires
        m <= n,
        ways_upto(ws, st, m) is Err,
    ensures
        ways_upto(ws, st, n) == ways_upto(ws, st, m),
    decreases n - m,
{
    if m < n {
        lemma_ways_error_stays(ws, st, m, n - 1);
    }
}

proof fn lemma_relations_error_stays(
    rs: Seq<items::Relation>,
    st: Seq<Seq<char>>,
    m: int,
    n: int,
)
    requires
        m <= n,
        relations_upto(rs, st, m) is Err,
    ensures
        relations_upto(rs, st, n) == relations_upto(rs, st, m),
    decreases n - m,
{
    if m < n {
        lemma_relations_error_stays(rs, st, m, n - 1);
    }
}

proof fn lemma_groups_error_stays(pb: items::PrimitiveBlock, st: Seq<Seq<char>>, m: int, n: int)
    requires
        m <= n,
        groups_upto(pb, st, m) is Err,
    ensures
        groups_upto(pb, st, n) == groups_upto(pb, st, m),
    decreases n - m,
{
    if m < n {
        lemma_groups_error_stays(pb, st, m, n - 1);
    }
}

proof fn lemma_blocks_error_stays(blocks: Seq<FileBlock>, m: int, n: int)
    requires
        m <= n,
        blocks_upto(blocks, m) is Err,
    ensures
        blocks_upto(blocks, n) == blocks_upto(blocks, m),
    decreases n - m,
{
    if m < n {
        lemma_blocks_error_stays(blocks, m, n - 1);
    }
}

/// Decodes the stand-alone nodes of a group.
fn decode_nodes(ns: &Vec<items::Node>, st: &Vec<String>, pb: &items::PrimitiveBlock) -> (res:
    Result<Vec<Node>, Error>)
    ensures
        match res {
            Ok(nodes) => nodes_upto(ns@, st.deep_view(), *pb, ns@.len() as int) == Ok::<
                Seq<NodeView>,
                Error,
            >(nodes.deep_view()),
            Err(e) => nodes_upto(ns@, st.deep_view(), *pb, ns@.len() as int) == Err::<
                Seq<NodeView>,
                Error,
            >(e),
        },
{
    let mut nodes: Vec<Node> = Vec::with_capacity(ns.len());
    let mut i: usize = 0;
    assert(nodes.deep_view() =~= Seq::<NodeView>::empty());
    while i < ns.len()
        invariant
            0 <= i <= ns.len(),
            nodes_upto(ns@, st.deep_view(), *pb, i as int) == Ok::<Seq<NodeView>, Error>(
                nodes.deep_view(),
            ),
        decreases ns.len() - i,
    {
        match Node::from_proto(&ns[i], st, pb) {
            Ok(node) => {
                let ghost before = nodes.deep_view();
                let ghost added = node@;
                nodes.push(node);
                assert(nodes.deep_view() =~= before.push(added));
            },
            Err(e) => {
                proof {
                    lemma_nodes_error_stays(
                        ns@,
                        st.deep_view(),
                        *pb,
                        i as int + 1,
                        ns@.len() as int,
                    );
                }
                return Err(e);
            },
        }
        i += 1;
    }
    Ok(nodes)
}

/// Decodes the ways of a group.
fn decode_ways(ws: &Vec<items::Way>, st: &Vec<String>) -> (res: Result<Vec<Way>, Error>)
    ensures
        match res {
            Ok(ways) => ways_upto(ws@, st.deep_view(), ws@.len() as int) == Ok::<
                Seq<WayView>,
                Error,
            >(ways.deep_view()),
            Err(e) => ways_upto(ws@, st.deep_view(), ws@.len() as int) == Err::<
                Seq<WayView>,
                Error,
            >(e),
        },
{
    let mut ways: Vec<Way> = Vec::with_capacity(ws.len());
    let mut i: usize = 0;
    assert(ways.deep_view() =~= Seq::<WayView>::empty());
    while i < ws.len()
        invariant
            0 <= i <= ws.len(),
            ways_upto(ws@, st.deep_view(), i as int) == Ok::<Seq<WayView>, Error>(
                ways.deep_view(),
            ),
        decreases ws.len() - i,
    {
        match Way::from_proto(&ws[i], st) {
            Ok(way) => {
                let ghost before = ways.deep_view();
                let ghost added = way@;
                ways.push(way);
                assert(ways.deep_view() =~= before.push(added));
            },
            Err(e) => {
                proof {
                    lemma_ways_error_stays(ws@, st.deep_view(), i as int + 1, ws@.len() as int);
                }
                return Err(e);
            },
        }
        i += 1;
    }
    Ok(ways)
}

/// Decodes the relations of a group.
fn decode_relations(rs: &Vec<items::Relation>, st: &Vec<String>) -> (res: Result<
    Vec<Relation>,
    Error,
>)
    ensures
        match res {
            Ok(relations) => relations_upto(rs@, st.deep_view(), rs@.len() as int) == Ok::<
                Seq<RelationView>,
                Error,
            >(relations.deep_view()),
            Err(e) => relations_upto(rs@, st.deep_view(), rs@.len() as int) == Err::<
                Seq<RelationView>,
                Error,
            >(e),
        },
{
    let mut relations: Vec<Relation> = Vec::with_capacity(rs.len());
    let mut i: usize = 0;
    assert(relations.deep_view() =~= Seq::<RelationView>::empty());
    while i < rs.len()
        invariant
            0 <= i <= rs.len(),
            relations_upto(rs@, st.deep_view(), i as int) == Ok::<Seq<RelationView>, Error>(
                relations.deep_view(),
            ),
        decreases rs.len() - i,
    {
        match Relation::from_proto(&rs[i], st) {
            Ok(relation) => {
                let ghost before = relations.deep_view();
                let ghost added = relation@;
                relations.push(relation);
                assert(relations.deep_view() =~= before.push(added));
            },
            Err(e) => {
                proof {
                    lemma_relations_error_stays(
                        rs@,
                        st.deep_view(),
                        i as int + 1,
                        rs@.len() as int,
                    );
                }
                return Err(e);
            },
        }
        i += 1;
    }
    Ok(relations)
}

impl File {
    /// A file without elements.
    pub fn new() -> (file: File)
        ensures
            file@ == FileView::empty(),
    {
        let file = File { nodes: Vec::new(), ways: Vec::new(), relations: Vec::new() };
        assert(file.nodes.deep_view() =~= Seq::<NodeView>::empty());
        assert(file.ways.deep_view() =~= Seq::<WayView>::empty());
        assert(file.relations.deep_view() =~= Seq::<RelationView>::empty());
        file
    }

    /// Puts the elements of `other` behind those of `self`, kind by kind.
    pub fn append(&mut self, other: File)
        ensures
            final(self)@ == old(self)@.concat(other@),
    {
        let mut other = other;
        let ghost a = self@;
        let ghost b = other@;
        self.nodes.append(&mut other.nodes);
        self.ways.append(&mut other.ways);
        self.relations.append(&mut other.relations);
        assert(self.nodes.deep_view() =~= a.nodes + b.nodes);
        assert(self.ways.deep_view() =~= a.ways + b.ways);
        assert(self.relations.deep_view() =~= a.relations + b.relations);
    }

    /// Decodes the elements of one group of the block `pb`, whose string
    /// table is `st`.
    pub fn from_group(g: &items::PrimitiveGroup, st: &Vec<String>, pb: &items::PrimitiveBlock) -> (res:
        Result<File, Error>)
        ensures
            match res {
                Ok(file) => group_elements(*g, st.deep_view(), *pb) == Ok::<FileView, Error>(
                    file@,
                ),
                Err(e) => group_elements(*g, st.deep_view(), *pb) == Err::<FileView, Error>(e),
            },
    {
        let mut file = File::new();
        if let Some(dense) = &g.dense {
            match Node::from_proto_dense_nodes(dense, st, pb) {
                Ok(nodes) => {
                    file.nodes = nodes;
                },
                Err(e) => {
                    return Err(e);
                },
            }
        } else if g.ways.len() > 0 {
            match decode_ways(&g.ways, st) {
                Ok(ways) => {
                    file.ways = ways;
                },
                Err(e) => {
                    return Err(e);
                },
            }
        } else if g.relations.len() > 0 {
            match decode_relations(&g.relations, st) {
                Ok(relations) => {
                    file.relations = relations;
                },
                Err(e) => {
                    return Err(e);
                },
            }
        } else if g.nodes.len() > 0 {
            match decode_nodes(&g.nodes, st, pb) {
                Ok(nodes) => {
                    file.nodes = nodes;
                },
                Err(e) => {
                    return Err(e);
                },
            }
        }
        Ok(file)
    }

    /// Decodes the elements of one data block.
    pub fn from_block(pb: &items::PrimitiveBlock) -> (res: Result<File, Error>)
        ensures
            match res {
                Ok(file) => block_elements(*pb) == Ok::<FileView, Error>(file@),
                Err(e) => block_elements(*pb) == Err::<FileView, Error>(e),
            },
    {
        let st = match parse_str_tbl(pb) {
            Ok(st) => st,
            Err(e) => {
                return Err(e);
            },
        };
        let mut file = File::new();
        let mut i: usize = 0;
        while i < pb.primitivegroup.len()
            invariant
                0 <= i <= pb.primitivegroup.len(),
                string_table(pb.stringtable.s@) == Ok::<Seq<Seq<char>>, Error>(st.deep_view()),
                groups_upto(*pb, st.deep_view(), i as int) == Ok::<FileView, Error>(file@),
            decreases pb.primitivegroup.len() - i,
        {
            match File::from_group(&pb.primitivegroup[i], &st, pb) {
                Ok(more) => {
                    file.append(more);
                },
                Err(e) => {
                    proof {
                        lemma_groups_error_stays(
                            *pb,
                            st.deep_view(),
                            i as int + 1,
                            pb.primitivegroup@.len() as int,
                        );
                    }
                    return Err(e);
                },
            }
            i += 1;
        }
        Ok(file)
    }

    /// Adds the elements of one block of a stream. On an error the file
    /// stays as it was.
    pub fn push_block(&mut self, block: &FileBlock) -> (res: Result<(), Error>)
        ensures
            match res {
                Ok(()) => file_block_elements(*block) == Ok::<FileView, Error>(
                    file_block_elements(*block).unwrap(),
                ) && final(self)@ == old(self)@.concat(file_block_elements(*block).unwrap()),
                Err(e) => file_block_elements(*block) == Err::<FileView, Error>(e) && final(self)@
                    == old(self)@,
            },
    {
        match block {
            FileBlock::Header(_) => {
                assert(self@.concat(FileView::empty()).nodes =~= self@.nodes);
                assert(self@.concat(FileView::empty()).ways =~= self@.ways);
                assert(self@.concat(FileView::empty()).relations =~= self@.relations);
                Ok(())
            },
            FileBlock::Primitive(pb) => match File::from_block(pb) {
                Ok(more) => {
                    self.append(more);
                    Ok(())
                },
                Err(e) => Err(e),
            },
        }
    }

    /// Gathers the elements of the blocks of a stream, in the order of the
    /// blocks. The first block that cannot be decoded ends the decoding.
    pub fn from_proto_reader(blocks: &Vec<FileBlock>) -> (res: Result<File, Error>)
        ensures
            match res {
                Ok(file) => blocks_upto(blocks@, blocks@.len() as int) == Ok::<FileView, Error>(
                    file@,
                ),
                Err(e) => blocks_upto(blocks@, blocks@.len() as int) == Err::<FileView, Error>(e),
            },
    {
        let mut file = File::new();
        let mut i: usize = 0;
        while i < blocks.len()
            invariant
                0 <= i <= blocks.len(),
                blocks_upto(blocks@, i as int) == Ok::<FileView, Error>(file@),
            decreases blocks.len() - i,
        {
            match file.push_block(&blocks[i]) {
                Ok(()) => {},
                Err(e) => {
                    proof {
                        lemma_blocks_error_stays(blocks@, i as int + 1, blocks@.len() as int);
                    }
                    return Err(e);
                },
            }
            i += 1;
        }
        Ok(file)
    }
}


/// Two blocks scale coordinates alike: their offsets and granularities are
/// the same once an absent one is taken as its default.
pub open spec fn same_scale(a: items::PrimitiveBlock, b: items::PrimitiveBlock) -> bool {
    &&& crate::node::granularity_or_default(a.granularity)
        == crate::node::granularity_or_default(b.granularity)
    &&& crate::node::offset_or_default(a.lat_offset) == crate::node::offset_or_default(
        b.lat_offset,
    )
    &&& crate::node::offset_or_default(a.lon_offset) == crate::node::offset_or_default(
        b.lon_offset,
    )
}

proof fn lemma_dense_same_scale(
    dense: items::DenseNodes,
    st: Seq<Seq<char>>,
    a: items::PrimitiveBlock,
    b: items::PrimitiveBlock,
    n: int,
)
    requires
        same_scale(a, b),
    ensures
        crate::node::dense_nodes_upto(dense, st, a, n) == crate::node::dense_nodes_upto(
            dense,
            st,
            b,
            n,
        ),
    decreases n,
{
    if n > 0 {
        lemma_dense_same_scale(dense, st, a, b, n - 1);
    }
}

proof fn lemma_nodes_same_scale(
    ns: Seq<items::Node>,
    st: Seq<Seq<char>>,
    a: items::PrimitiveBlock,
    b: items::PrimitiveBlock,
    n: int,
)
    requires
        same_scale(a, b),
    ensures
        nodes_upto(ns, st, a, n) == nodes_upto(ns, st, b, n),
    decreases n,
{
    if n > 0 {
        lemma_nodes_same_scale(ns, st, a, b, n - 1);
    }
}

proof fn lemma_groups_same_scale(
    a: items::PrimitiveBlock,
    b: items::PrimitiveBlock,
    st: Seq<Seq<char>>,
    n: int,
)
    requires
        same_scale(a, b),
        a.primitivegroup@ == b.primitivegroup@,
        n <= a.primitivegroup@.len(),
    ensures
        groups_upto(a, st, n) == groups_upto(b, st, n),
    decreases n,
{
    if n > 0 {
        lemma_groups_same_scale(a, b, st, n - 1);
        let g = a.primitivegroup@[n - 1];
        if let Some(dense) = g.dense {
            lemma_dense_same_scale(dense, st, a, b, crate::node::dense_count(dense));
        } else if g.ways@.len() > 0 {
        } else if g.relations@.len() > 0 {
        } else if g.nodes@.len() > 0 {
            lemma_nodes_same_scale(g.nodes@, st, a, b, g.nodes@.len() as int);
        }
    }
}

/// Two blocks with the same strings and groups that scale coordinates alike
/// decode to the same elements. So a block that names no offset and no
/// granularity decodes as one that names the offsets 0 and the granularity
/// 100.
pub proof fn lemma_absent_scale_is_default(a: items::PrimitiveBlock, b: items::PrimitiveBlock)
    requires
        a.stringtable.s@ == b.stringtable.s@,
        a.primitivegroup@ == b.primitivegroup@,
        same_scale(a, b),
    ensures
        block_elements(a) == block_elements(b),
{
    match string_table(a.stringtable.s@) {
        Ok(st) => {
            lemma_groups_same_scale(a, b, st, a.primitivegroup@.len() as int);
        },
        Err(_) => {},
    }
}

} // verus!
