//! Tags, and the two ways in which a block stores them.

use crate::error::Error;
use vstd::prelude::*;

verus! {

/// A key and a value. Keys may repeat within one element.
#[derive(Clone, Debug, PartialEq, Eq, Default)]
pub struct Tag {
    pub k: String,
    pub v: String,
}

/// What a [`Tag`] holds.
pub ghost struct TagView {
    pub k: Seq<char>,
    pub v: Seq<char>,
}

impl View for Tag {
    type V = TagView;

    open spec fn view(&self) -> TagView {
        TagView { k: self.k@, v: self.v@ }
    }
}

impl DeepView for Tag {
    type V = TagView;

    open spec fn deep_view(&self) -> TagView {
        self@
    }
}

/// The number of tags that two parallel index arrays hold: the shorter one
/// decides.
pub open spec fn pair_count(k: Seq<u32>, v: Seq<u32>) -> int {
    if k.len() <= v.len() {
        k.len() as int
    } else {
        v.len() as int
    }
}

/// Every index of the first `n` pairs refers to a string of the table.
pub open spec fn pairs_in_table(k: Seq<u32>, v: Seq<u32>, n: int, table_len: int) -> bool {
    forall|i: int| 0 <= i < n ==> k[i] < table_len && v[i] < table_len
}

/// The tags that parallel key and value index arrays stand for.
pub open spec fn tags_from_kvs(k: Seq<u32>, v: Seq<u32>, st: Seq<Seq<char>>) -> Result<
    Seq<TagView>,
    Error,
> {
    let n = pair_count(k, v);
    if pairs_in_table(k, v, n, st.len() as int) {
        Ok(Seq::new(n as nat, |i: int| TagView { k: st[k[i] as int], v: st[v[i] as int] }))
    } else {
        Err(Error::StringTableIndexOutOfRange)
    }
}

/// One node's share of a packed tag array: its tags, and where the next
/// node's share begins.
pub ghost struct DenseTags {
    pub tags: Seq<TagView>,
    pub next: int,
}

/// The tags of the node whose share of the packed array `kvs` begins at
/// `start`.
///
/// A share is a run of pairs of key and value index, closed by a zero in a
/// key's place. The zero belongs to the share. Where the array ends before a
/// zero, the share ends with it.
pub open spec fn dense_tags(kvs: Seq<i32>, st: Seq<Seq<char>>, start: int) -> Result<
    DenseTags,
    Error,
>
    decreases kvs.len() - start,
{
    if start < 0 || start >= kvs.len() {
        Ok(DenseTags { tags: Seq::empty(), next: start })
    } else if kvs[start] == 0 {
        Ok(DenseTags { tags: Seq::empty(), next: start + 1 })
    } else if !(0 < kvs[start] < st.len()) {
        Err(Error::StringTableIndexOutOfRange)
    } else if start + 1 >= kvs.len() {
        Err(Error::DanglingTagKey)
    } else if !(0 <= kvs[start + 1] < st.len()) {
        Err(Error::StringTableIndexOutOfRange)
    } else {
        let first = TagView { k: st[kvs[start] as int], v: st[kvs[start + 1] as int] };
        match dense_tags(kvs, st, start + 2) {
            Ok(rest) => Ok(DenseTags { tags: seq![first] + rest.tags, next: rest.next }),
            Err(e) => Err(e),
        }
    }
}

/// `r` with `prefix` put in front of its tags.
pub open spec fn with_prefix(prefix: Seq<TagView>, r: Result<DenseTags, Error>) -> Result<
    DenseTags,
    Error,
> {
    match r {
        Ok(d) => Ok(DenseTags { tags: prefix + d.tags, next: d.next }),
        Err(e) => Err(e),
    }
}

/// A share that starts with a well-formed pair is that pair followed by the
/// share that starts behind it.
proof fn lemma_dense_tags_step(
    kvs: Seq<i32>,
    st: Seq<Seq<char>>,
    start: int,
    prefix: Seq<TagView>,
    i: int,
)
    requires
        0 <= i,
        i + 1 < kvs.len(),
        0 < kvs[i] < st.len(),
        0 <= kvs[i + 1] < st.len(),
        dense_tags(kvs, st, start) == with_prefix(prefix, dense_tags(kvs, st, i)),
    ensures
        dense_tags(kvs, st, start) == with_prefix(
            prefix.push((TagView { k: st[kvs[i] as int], v: st[kvs[i + 1] as int] })),
            dense_tags(kvs, st, i + 2),
        ),
{
    let first = TagView { k: st[kvs[i] as int], v: st[kvs[i + 1] as int] };
    match dense_tags(kvs, st, i + 2) {
        Ok(rest) => {
            assert(prefix + (seq![first] + rest.tags) =~= prefix.push(first) + rest.tags);
        },
        Err(_) => {},
    }
}

/// The shape of a share of a packed tag array: tag `i` is made of the
/// indices at `start + 2 * i` and `start + 2 * i + 1`, the key's index is
/// never zero, and the next share begins behind the tags and their closing
/// zero, at most at the array's end.
pub proof fn lemma_dense_tags_layout(kvs: Seq<i32>, st: Seq<Seq<char>>, start: int)
    requires
        0 <= start <= kvs.len(),
    ensures
        match dense_tags(kvs, st, start) {
            Ok(d) => {
                let n = d.tags.len() as int;
                &&& start + 2 * n <= d.next <= kvs.len()
                &&& d.next == start + 2 * n + 1 <==> start + 2 * n < kvs.len()
                &&& d.next == start + 2 * n <==> start + 2 * n == kvs.len()
                &&& start + 2 * n < kvs.len() ==> kvs[start + 2 * n] == 0
                &&& forall|i: int|
                    0 <= i < n ==> {
                        &&& 0 < #[trigger] kvs[start + 2 * i] < st.len()
                        &&& 0 <= kvs[start + 2 * i + 1] < st.len()
                        &&& d.tags[i] == (TagView {
                            k: st[kvs[start + 2 * i] as int],
                            v: st[kvs[start + 2 * i + 1] as int],
                        })
                    }
            },
            Err(_) => true,
        },
    decreases kvs.len() - start,
{
    if start >= kvs.len() {
    } else if kvs[start] == 0 {
    } else if !(0 < kvs[start] < st.len()) {
    } else if start + 1 >= kvs.len() {
    } else if !(0 <= kvs[start + 1] < st.len()) {
    } else {
        lemma_dense_tags_layout(kvs, st, start + 2);
        match dense_tags(kvs, st, start + 2) {
            Ok(rest) => {
                let d = dense_tags(kvs, st, start).unwrap();
                let first = TagView { k: st[kvs[start] as int], v: st[kvs[start + 1] as int] };
                let n = d.tags.len() as int;
                assert(d.tags == seq![first] + rest.tags);
                assert(n == rest.tags.len() + 1);
                assert forall|i: int| 0 <= i < n implies {
                    &&& 0 < #[trigger] kvs[start + 2 * i] < st.len()
                    &&& 0 <= kvs[start + 2 * i + 1] < st.len()
                    &&& d.tags[i] == (TagView {
                        k: st[kvs[start + 2 * i] as int],
                        v: st[kvs[start + 2 * i + 1] as int],
                    })
                } by {
                    if i > 0 {
                        assert(start + 2 * i == (start + 2) + 2 * (i - 1));
                        assert(0 < kvs[(start + 2) + 2 * (i - 1)] < st.len());
                        assert(d.tags[i] == rest.tags[i - 1]);
                    }
                }
            },
            Err(_) => {},
        }
    }
}

/// A share fails in one of two ways only: on an index that refers to no
/// string, or on a last key without a value.
pub proof fn lemma_dense_tags_errors(kvs: Seq<i32>, st: Seq<Seq<char>>, start: int)
    ensures
        match dense_tags(kvs, st, start) {
            Ok(_) => true,
            Err(e) => e == Error::StringTableIndexOutOfRange || e == Error::DanglingTagKey,
        },
    decreases kvs.len() - start,
{
    if 0 <= start < kvs.len() && kvs[start] != 0 && 0 < kvs[start] < st.len() && start + 1
        < kvs.len() && 0 <= kvs[start + 1] < st.len() {
        lemma_dense_tags_errors(kvs, st, start + 2);
    }
}

impl Tag {
    /// Reads the tags of one node from the packed tag array of a dense
    /// group, starting at `*j`, and leaves in `*j` the place where the next
    /// node's tags begin. On an error `*j` stays as it was.
    pub fn from_dense_nodes_kvs(kvs: &Vec<i32>, st: &Vec<String>, j: &mut usize) -> (res: Result<
        Vec<Tag>,
        Error,
    >)
        ensures
            match res {
                Ok(tags) => dense_tags(kvs@, st.deep_view(), *old(j) as int) == Ok::<
                    DenseTags,
                    Error,
                >((DenseTags { tags: tags.deep_view(), next: *final(j) as int })),
                Err(e) => dense_tags(kvs@, st.deep_view(), *old(j) as int) == Err::<
                    DenseTags,
                    Error,
                >(e) && *final(j) == *old(j),
            },
    {
        let ghost table = st.deep_view();
        let ghost start = *j as int;
        let mut i: usize = *j;
        let mut tags: Vec<Tag> = Vec::new();
        assert(tags.deep_view() =~= Seq::<TagView>::empty());
        assert(with_prefix(tags.deep_view(), dense_tags(kvs@, table, start)) =~= dense_tags(
            kvs@,
            table,
            start,
        )) by {
            match dense_tags(kvs@, table, start) {
                Ok(d) => {
                    assert(Seq::<TagView>::empty() + d.tags =~= d.tags);
                },
                Err(_) => {},
            }
        }
        while i < kvs.len()
            invariant
                table == st.deep_view(),
                start == *old(j),
                *j == *old(j),
                start <= i,
                dense_tags(kvs@, table, start) == with_prefix(
                    tags.deep_view(),
                    dense_tags(kvs@, table, i as int),
                ),
            decreases kvs.len() - i,
        {
            let key: i32 = kvs[i];
            if key == 0 {
                *j = i + 1;
                assert(tags.deep_view() + Seq::<TagView>::empty() =~= tags.deep_view());
                return Ok(tags);
            }
            if key < 0 || key as usize >= st.len() {
                return Err(Error::StringTableIndexOutOfRange);
            }
            if i + 1 >= kvs.len() {
                return Err(Error::DanglingTagKey);
            }
            let val: i32 = kvs[i + 1];
            if val < 0 || val as usize >= st.len() {
                return Err(Error::StringTableIndexOutOfRange);
            }
            let tag = Tag { k: st[key as usize].clone(), v: st[val as usize].clone() };
            proof {
                lemma_dense_tags_step(kvs@, table, start, tags.deep_view(), i as int);
                assert(table[key as int] == st[key as int]@);
                assert(table[val as int] == st[val as int]@);
            }
            let ghost before = tags.deep_view();
            tags.push(tag);
            assert(tags.deep_view() =~= before.push(tag@));
            i += 2;
        }
        *j = i;
        assert(tags.deep_view() + Seq::<TagView>::empty() =~= tags.deep_view());
        Ok(tags)
    }

    /// Makes the tags of an element from its parallel arrays of key and
    /// value indices. Where one array is longer, its surplus is left out.
    pub fn from_kvs(k: &Vec<u32>, v: &Vec<u32>, st: &Vec<String>) -> (res: Result<Vec<Tag>, Error>)
        ensures
            match res {
                Ok(tags) => tags_from_kvs(k@, v@, st.deep_view()) == Ok::<Seq<TagView>, Error>(
                    tags.deep_view(),
                ),
                Err(e) => tags_from_kvs(k@, v@, st.deep_view()) == Err::<Seq<TagView>, Error>(e),
            },
    {
        let ghost table = st.deep_view();
        let n: usize = if k.len() <= v.len() {
            k.len()
        } else {
            v.len()
        };
        let mut tags: Vec<Tag> = Vec::with_capacity(n);
        let mut i: usize = 0;
        while i < n
            invariant
                table == st.deep_view(),
                n == pair_count(k@, v@),
                0 <= i <= n,
                pairs_in_table(k@, v@, i as int, st.len() as int),
                tags.len() == i,
                forall|m: int|
                    0 <= m < i ==> (#[trigger] tags[m])@ == (TagView {
                        k: table[k[m] as int],
                        v: table[v[m] as int],
                    }),
            decreases n - i,
        {
            let key: u32 = k[i];
            let val: u32 = v[i];
            if key as usize >= st.len() || val as usize >= st.len() {
                assert(!(k@[i as int] < st.len() && v@[i as int] < st.len()));
                return Err(Error::StringTableIndexOutOfRange);
            }
            let tag = Tag { k: st[key as usize].clone(), v: st[val as usize].clone() };
            assert(table[key as int] == st[key as int]@);
            assert(table[val as int] == st[val as int]@);
            tags.push(tag);
            i += 1;
        }
        assert(tags.deep_view() =~= tags_from_kvs(k@, v@, table).unwrap());
        Ok(tags)
    }
}


/// The first `m` pairs of the share that begins at `start` are whole and
/// refer to strings of the table.
pub open spec fn pairs_resolve(kvs: Seq<i32>, table_len: int, start: int, m: int) -> bool {
    &&& 0 <= start
    &&& 0 <= m
    &&& start + 2 * m <= kvs.len()
    &&& forall|i: int|
        0 <= i < m ==> 0 < #[trigger] kvs[start + 2 * i] < table_len && 0 <= kvs[start + 2 * i
            + 1] < table_len
}

/// A share whose first `m` pairs resolve is decided by what stands behind
/// them.
pub proof fn lemma_dense_tags_skip(kvs: Seq<i32>, st: Seq<Seq<char>>, start: int, m: int)
    requires
        pairs_resolve(kvs, st.len() as int, start, m),
    ensures
        dense_tags(kvs, st, start) is Err <==> dense_tags(kvs, st, start + 2 * m) is Err,
        dense_tags(kvs, st, start) is Err ==> dense_tags(kvs, st, start) == dense_tags(
            kvs,
            st,
            start + 2 * m,
        ),
    decreases m,
{
    if m > 0 {
        assert(0 < kvs[start + 2 * 0] < st.len() && 0 <= kvs[start + 2 * 0 + 1] < st.len());
        assert forall|i: int| 0 <= i < m - 1 implies 0 < #[trigger] kvs[(start + 2) + 2 * i]
            < st.len() && 0 <= kvs[(start + 2) + 2 * i + 1] < st.len() by {
            assert(start + 2 * (i + 1) == (start + 2) + 2 * i);
            assert(0 < kvs[start + 2 * (i + 1)] < st.len());
        }
        lemma_dense_tags_skip(kvs, st, start + 2, m - 1);
        assert(start + 2 + 2 * (m - 1) == start + 2 * m);
    }
}

/// An index of a packed tag array that refers to no string of the table
/// fails the share it stands in: a key's index that is not zero, or a
/// value's index, zero included, since only a key's place can close a
/// share. The pairs before it must resolve.
pub proof fn lemma_dense_index_out_of_range(
    kvs: Seq<i32>,
    st: Seq<Seq<char>>,
    start: int,
    m: int,
)
    requires
        pairs_resolve(kvs, st.len() as int, start, m),
        start + 2 * m < kvs.len(),
        ({
            let key = kvs[start + 2 * m];
            &&& key != 0
            &&& {
                ||| key < 0
                ||| key >= st.len()
                ||| (start + 2 * m + 1 < kvs.len() && !(0 <= kvs[start + 2 * m + 1] < st.len()))
            }
        }),
    ensures
        dense_tags(kvs, st, start) == Err::<DenseTags, Error>(Error::StringTableIndexOutOfRange),
{
    lemma_dense_tags_skip(kvs, st, start, m);
}


/// A key index and a value index.
pub ghost struct IndexPair {
    pub key: i32,
    pub val: i32,
}

/// One node's tags as a packed array holds them: the pairs in order, then
/// the closing zero.
pub open spec fn packed_share(pairs: Seq<IndexPair>) -> Seq<i32>
    decreases pairs.len(),
{
    if pairs.len() == 0 {
        seq![0i32]
    } else {
        seq![pairs[0].key, pairs[0].val] + packed_share(pairs.drop_first())
    }
}

/// The packed array of the first `n` nodes' tags.
pub open spec fn packed_shares(shares: Seq<Seq<IndexPair>>, n: int) -> Seq<i32>
    decreases n,
{
    if n <= 0 {
        Seq::empty()
    } else {
        packed_shares(shares, n - 1) + packed_share(shares[n - 1])
    }
}

/// Every pair has a key index that is not zero, and both its indices refer
/// to strings of the table.
pub open spec fn share_resolves(pairs: Seq<IndexPair>, table_len: int) -> bool {
    forall|i: int|
        0 <= i < pairs.len() ==> 0 < (#[trigger] pairs[i]).key < table_len && 0 <= pairs[i].val
            < table_len
}

/// The tags that index pairs stand for.
pub open spec fn resolved(pairs: Seq<IndexPair>, st: Seq<Seq<char>>) -> Seq<TagView> {
    Seq::new(
        pairs.len(),
        |i: int| TagView { k: st[pairs[i].key as int], v: st[pairs[i].val as int] },
    )
}

proof fn lemma_packed_share_len(pairs: Seq<IndexPair>)
    ensures
        packed_share(pairs).len() == 2 * pairs.len() + 1,
    decreases pairs.len(),
{
    if pairs.len() > 0 {
        lemma_packed_share_len(pairs.drop_first());
    }
}

/// A share that lies in a packed array at `start` is read back from there,
/// and the next share begins right behind its closing zero.
pub proof fn lemma_share_reads_back(
    kvs: Seq<i32>,
    st: Seq<Seq<char>>,
    start: int,
    pairs: Seq<IndexPair>,
)
    requires
        share_resolves(pairs, st.len() as int),
        0 <= start,
        start + packed_share(pairs).len() <= kvs.len(),
        kvs.subrange(start, start + packed_share(pairs).len()) == packed_share(pairs),
    ensures
        dense_tags(kvs, st, start) == Ok::<DenseTags, Error>(
            (DenseTags { tags: resolved(pairs, st), next: start + 2 * pairs.len() + 1 }),
        ),
    decreases pairs.len(),
{
    let whole = packed_share(pairs);
    lemma_packed_share_len(pairs);
    assert forall|i: int| 0 <= i < whole.len() implies kvs[start + i] == whole[i] by {
        assert(kvs.subrange(start, start + whole.len())[i] == kvs[start + i]);
    }
    if pairs.len() == 0 {
        assert(kvs[start + 0] == whole[0]);
        assert(resolved(pairs, st) =~= Seq::<TagView>::empty());
    } else {
        let rest = pairs.drop_first();
        let tail = packed_share(rest);
        lemma_packed_share_len(rest);
        assert(kvs[start + 0] == whole[0]);
        assert(kvs[start + 1] == whole[1]);
        assert(0 < pairs[0].key < st.len() && 0 <= pairs[0].val < st.len());
        assert forall|i: int| 0 <= i < rest.len() implies 0 < (#[trigger] rest[i]).key < st.len()
            && 0 <= rest[i].val < st.len() by {
            assert(rest[i] == pairs[i + 1]);
        }
        assert(kvs.subrange(start + 2, start + 2 + tail.len()) =~= tail) by {
            assert forall|i: int| 0 <= i < tail.len() implies kvs.subrange(
                start + 2,
                start + 2 + tail.len(),
            )[i] == tail[i] by {
                assert(kvs[start + (2 + i)] == whole[2 + i]);
            }
        }
        lemma_share_reads_back(kvs, st, start + 2, rest);
        let first = TagView { k: st[pairs[0].key as int], v: st[pairs[0].val as int] };
        assert(seq![first] + resolved(rest, st) =~= resolved(pairs, st)) by {
            assert forall|i: int| 0 <= i < pairs.len() implies (seq![first] + resolved(
                rest,
                st,
            ))[i] == resolved(pairs, st)[i] by {
                if i > 0 {
                    assert(rest[i - 1] == pairs[i]);
                }
            }
        }
    }
}

proof fn lemma_packed_prefix(shares: Seq<Seq<IndexPair>>, m: int, n: int)
    requires
        0 <= m <= n,
    ensures
        packed_shares(shares, m).len() <= packed_shares(shares, n).len(),
        packed_shares(shares, n).subrange(0, packed_shares(shares, m).len() as int)
            == packed_shares(shares, m),
    decreases n - m,
{
    if m == n {
        assert(packed_shares(shares, n).subrange(0, packed_shares(shares, n).len() as int)
            =~= packed_shares(shares, n));
    } else {
        lemma_packed_prefix(shares, m, n - 1);
        let k = packed_shares(shares, m).len() as int;
        assert(packed_shares(shares, n).subrange(0, k) =~= packed_shares(shares, n - 1).subrange(
            0,
            k,
        ));
    }
}

/// A packed array is cut back into the tag lists it was made of: read at
/// the place where share `k` begins, it gives the tags of share `k` and the
/// place where share `k + 1` begins. Behind the last share that place is
/// the end of the array.
pub proof fn lemma_packed_tags_read_back(shares: Seq<Seq<IndexPair>>, st: Seq<Seq<char>>, k: int)
    requires
        forall|i: int|
            0 <= i < shares.len() ==> share_resolves(#[trigger] shares[i], st.len() as int),
        0 <= k < shares.len(),
    ensures
        dense_tags(
            packed_shares(shares, shares.len() as int),
            st,
            packed_shares(shares, k).len() as int,
        ) == Ok::<DenseTags, Error>(
            (DenseTags {
                tags: resolved(shares[k], st),
                next: packed_shares(shares, k + 1).len() as int,
            }),
        ),
{
    let kvs = packed_shares(shares, shares.len() as int);
    let start = packed_shares(shares, k).len() as int;
    let share = packed_share(shares[k]);
    let upto = packed_shares(shares, k + 1);
    lemma_packed_prefix(shares, k + 1, shares.len() as int);
    lemma_packed_share_len(shares[k]);
    assert(upto == packed_shares(shares, k) + share);
    assert(kvs.subrange(start, start + share.len()) =~= share) by {
        assert forall|i: int| 0 <= i < share.len() implies kvs.subrange(
            start,
            start + share.len(),
        )[i] == share[i] by {
            assert(kvs.subrange(0, upto.len() as int)[start + i] == upto[start + i]);
        }
    }
    lemma_share_reads_back(kvs, st, start, shares[k]);
}

} // verus!
