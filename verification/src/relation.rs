//! Relations: groups of elements, each member with a role.

use crate::delta::running_total;
use crate::error::Error;
use crate::proto::items;
use crate::proto::items::{member_type_of, MemberType};
use crate::tag::{tags_from_kvs, Tag, TagView};
use vstd::prelude::*;

verus! {

/// One member of a relation: the element it refers to, what kind of element
/// that is, and the part it plays.
#[derive(Clone, Debug, PartialEq, Eq)]
pub struct Member {
    pub reference: i64,
    pub role: String,
    pub member_type: MemberType,
}

/// What a [`Member`] holds.
pub ghost struct MemberView {
    pub reference: i64,
    pub role: Seq<char>,
    pub member_type: MemberType,
}

impl View for Member {
    type V = MemberView;

    open spec fn view(&self) -> MemberView {
        MemberView { reference: self.reference, role: self.role@, member_type: self.member_type }
    }
}

impl DeepView for Member {
    type V = MemberView;

    open spec fn deep_view(&self) -> MemberView {
        self@
    }
}

/// A group of elements that belong together.
#[derive(Clone, Debug, PartialEq, Eq, Default)]
pub struct Relation {
    pub id: i64,
    pub tags: Vec<Tag>,
    pub members: Vec<Member>,
}

/// What a [`Relation`] holds.
pub ghost struct RelationView {
    pub id: i64,
    pub tags: Seq<TagView>,
    pub members: Seq<MemberView>,
}

impl View for Relation {
    type V = RelationView;

    open spec fn view(&self) -> RelationView {
        RelationView { id: self.id, tags: self.tags.deep_view(), members: self.members.deep_view() }
    }
}

impl DeepView for Relation {
    type V = RelationView;

    open spec fn deep_view(&self) -> RelationView {
        self@
    }
}

/// The number of members in three parallel columns: the shortest decides.
pub open spec fn member_count(ids: Seq<i64>, roles: Seq<i32>, types: Seq<i32>) -> int {
    let a = ids.len() as int;
    let b = roles.len() as int;
    let c = types.len() as int;
    if a <= b && a <= c {
        a
    } else if b <= c {
        b
    } else {
        c
    }
}

/// The first `n` members of three parallel columns.
///
/// Member `i` refers to the running total of the identifier column up to
/// and with entry `i`; its role is the string at its role index, its type
/// the one its type code stands for. The first member with a role index
/// outside the table or an unknown type code decides the error; within one
/// member the role is looked at first.
pub open spec fn members_upto(
    ids: Seq<i64>,
    roles: Seq<i32>,
    types: Seq<i32>,
    st: Seq<Seq<char>>,
    n: int,
) -> Result<Seq<MemberView>, Error>
    decreases n,
{
    if n <= 0 {
        Ok(Seq::empty())
    } else {
        match members_upto(ids, roles, types, st, n - 1) {
            Err(e) => Err(e),
            Ok(ms) => if !(0 <= roles[n - 1] < st.len()) {
                Err(Error::StringTableIndexOutOfRange)
            } else {
                match member_type_of(types[n - 1]) {
                    None => Err(Error::UnrecognizedMemberType),
                    Some(t) => Ok(
                        ms.push(
                            MemberView {
                                reference: running_total(ids, n),
                                role: st[roles[n - 1] as int],
                                member_type: t,
                            },
                        ),
                    ),
                }
            },
        }
    }
}

/// The members that three parallel columns stand for.
pub open spec fn members_from_proto(
    ids: Seq<i64>,
    roles: Seq<i32>,
    types: Seq<i32>,
    st: Seq<Seq<char>>,
) -> Result<Seq<MemberView>, Error> {
    members_upto(ids, roles, types, st, member_count(ids, roles, types))
}

/// Member `i` of three parallel columns can be decoded: its role index
/// refers to a string of the table and its type code is a known one.
pub open spec fn member_resolves(roles: Seq<i32>, types: Seq<i32>, table_len: int, i: int) -> bool {
    0 <= roles[i] < table_len && member_type_of(types[i]) is Some
}

/// The error that member `i` gives where it cannot be decoded.
pub open spec fn member_error(roles: Seq<i32>, table_len: int, i: int) -> Error {
    if 0 <= roles[i] < table_len {
        Error::UnrecognizedMemberType
    } else {
        Error::StringTableIndexOutOfRange
    }
}

/// The first `n` members come out if and only if each of them can be
/// decoded, and then member `i` holds the running total of the identifiers,
/// the string at its role index and the type of its code. Otherwise the
/// error is that of the first member that cannot be decoded.
pub proof fn lemma_members_shape(
    ids: Seq<i64>,
    roles: Seq<i32>,
    types: Seq<i32>,
    st: Seq<Seq<char>>,
    n: int,
)
    requires
        0 <= n,
    ensures
        match members_upto(ids, roles, types, st, n) {
            Ok(ms) => {
                &&& ms.len() == n
                &&& forall|i: int|
                    0 <= i < n ==> {
                        &&& #[trigger] member_resolves(roles, types, st.len() as int, i)
                        &&& ms[i] == (MemberView {
                            reference: running_total(ids, i + 1),
                            role: st[roles[i] as int],
                            member_type: member_type_of(types[i]).unwrap(),
                        })
                    }
            },
            Err(e) => exists|i: int|
                {
                    &&& 0 <= i < n
                    &&& !#[trigger] member_resolves(roles, types, st.len() as int, i)
                    &&& e == member_error(roles, st.len() as int, i)
                    &&& forall|j: int|
                        0 <= j < i ==> #[trigger] member_resolves(roles, types, st.len() as int, j)
                },
        },
    decreases n,
{
    if n > 0 {
        lemma_members_shape(ids, roles, types, st, n - 1);
        match members_upto(ids, roles, types, st, n - 1) {
            Ok(ms) => {
                if !member_resolves(roles, types, st.len() as int, n - 1) {
                    assert(members_upto(ids, roles, types, st, n) == Err::<
                        Seq<MemberView>,
                        Error,
                    >(member_error(roles, st.len() as int, n - 1)));
                }
            },
            Err(e) => {
                let i = choose|i: int|
                    {
                        &&& 0 <= i < n - 1
                        &&& !#[trigger] member_resolves(roles, types, st.len() as int, i)
                        &&& e == member_error(roles, st.len() as int, i)
                        &&& forall|j: int|
                            0 <= j < i ==> #[trigger] member_resolves(
                                roles,
                                types,
                                st.len() as int,
                                j,
                            )
                    };
                assert(0 <= i < n && !member_resolves(roles, types, st.len() as int, i));
            },
        }
    }
}

/// Once a prefix of the members fails, every longer prefix fails with the
/// same error.
proof fn lemma_member_error_stays(
    ids: Seq<i64>,
    roles: Seq<i32>,
    types: Seq<i32>,
    st: Seq<Seq<char>>,
    m: int,
    n: int,
)
    requires
        m <= n,
        members_upto(ids, roles, types, st, m) is Err,
    ensures
        members_upto(ids, roles, types, st, n) == members_upto(ids, roles, types, st, m),
    decreases n - m,
{
    if m < n {
        lemma_member_error_stays(ids, roles, types, st, m, n - 1);
    }
}

/// The relation that a relation message stands for. A fault in the tags is
/// reported before one in the members.
pub open spec fn relation_from_proto(r: items::Relation, st: Seq<Seq<char>>) -> Result<
    RelationView,
    Error,
> {
    match tags_from_kvs(r.keys@, r.vals@, st) {
        Err(e) => Err(e),
        Ok(tags) => match members_from_proto(r.memids@, r.roles_sid@, r.types@, st) {
            Err(e) => Err(e),
            Ok(members) => Ok(RelationView { id: r.id, tags, members }),
        },
    }
}

impl Member {
    /// Decodes the members of one relation from its three columns.
    pub fn from_proto(ids: &Vec<i64>, roles: &Vec<i32>, types: &Vec<i32>, st: &Vec<String>) -> (res:
        Result<Vec<Member>, Error>)
        ensures
            match res {
                Ok(members) => members_from_proto(ids@, roles@, types@, st.deep_view()) == Ok::<
                    Seq<MemberView>,
                    Error,
                >(members.deep_view()),
                Err(e) => members_from_proto(ids@, roles@, types@, st.deep_view()) == Err::<
                    Seq<MemberView>,
                    Error,
                >(e),
            },
    {
        let ghost table = st.deep_view();
        let mut n: usize = ids.len();
        if roles.len() < n {
            n = roles.len();
        }
        if types.len() < n {
            n = types.len();
        }
        let mut total: i64 = 0;
        let mut members: Vec<Member> = Vec::with_capacity(n);
        let mut i: usize = 0;
        assert(members.deep_view() =~= Seq::<MemberView>::empty());
        while i < n
            invariant
                table == st.deep_view(),
                n == member_count(ids@, roles@, types@),
                0 <= i <= n,
                total == running_total(ids@, i as int),
                members_upto(ids@, roles@, types@, table, i as int) == Ok::<
                    Seq<MemberView>,
                    Error,
                >(members.deep_view()),
            decreases n - i,
        {
            total = total.wrapping_add(ids[i]);
            let role: i32 = roles[i];
            if role < 0 || role as usize >= st.len() {
                proof {
                    lemma_member_error_stays(ids@, roles@, types@, table, i as int + 1, n as int);
                }
                return Err(Error::StringTableIndexOutOfRange);
            }
            let member_type = match MemberType::from_i32(types[i]) {
                Some(t) => t,
                None => {
                    proof {
                        lemma_member_error_stays(
                            ids@,
                            roles@,
                            types@,
                            table,
                            i as int + 1,
                            n as int,
                        );
                    }
                    return Err(Error::UnrecognizedMemberType);
                },
            };
            let member = Member { reference: total, role: st[role as usize].clone(), member_type };
            assert(table[role as int] == st[role as int]@);
            let ghost before = members.deep_view();
            members.push(member);
            assert(members.deep_view() =~= before.push(member@));
            i += 1;
        }
        Ok(members)
    }
}

impl Relation {
    /// Decodes a relation.
    pub fn from_proto(r: &items::Relation, st: &Vec<String>) -> (res: Result<Relation, Error>)
        ensures
            match res {
                Ok(relation) => relation_from_proto(*r, st.deep_view()) == Ok::<
                    RelationView,
                    Error,
                >(relation@),
                Err(e) => relation_from_proto(*r, st.deep_view()) == Err::<RelationView, Error>(e),
            },
    {
        let tags = match Tag::from_kvs(&r.keys, &r.vals, st) {
            Ok(tags) => tags,
            Err(e) => {
                return Err(e);
            },
        };
        let members = match Member::from_proto(&r.memids, &r.roles_sid, &r.types, st) {
            Ok(members) => members,
            Err(e) => {
                return Err(e);
            },
        };
        Ok(Relation { id: r.id, tags, members })
    }
}

} // verus!
