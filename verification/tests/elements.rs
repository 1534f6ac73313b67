use osm::delta::decode_deltas;
use osm::node::coord;
use osm::proto::items;
use osm::proto::items::MemberType;
use osm::{Error, Member, Node, NodeRef, Relation, Tag, Way};

fn table(words: &[&str]) -> Vec<String> {
    words.iter().map(|w| w.to_string()).collect()
}

fn tag(k: &str, v: &str) -> Tag {
    Tag { k: k.to_string(), v: v.to_string() }
}

#[test]
fn deltas_accumulate_from_zero() {
    assert_eq!(decode_deltas(&vec![5, 3, -2, 0, 10]), vec![5, 8, 6, 6, 16]);
}

#[test]
fn deltas_of_nothing_are_nothing() {
    assert_eq!(decode_deltas(&vec![]), Vec::<i64>::new());
}

#[test]
fn all_zero_deltas_stay_at_zero() {
    assert_eq!(decode_deltas(&vec![0, 0, 0]), vec![0, 0, 0]);
}

#[test]
fn negative_deltas_go_below_zero() {
    assert_eq!(decode_deltas(&vec![-1, -1, 4]), vec![-1, -2, 2]);
}

#[test]
fn deltas_wrap_in_two_complement() {
    assert_eq!(decode_deltas(&vec![i64::MAX, 1]), vec![i64::MAX, i64::MIN]);
    assert_eq!(decode_deltas(&vec![i64::MIN, -1]), vec![i64::MIN, i64::MAX]);
}

#[test]
fn delta_round_trip_on_chosen_values() {
    let values: Vec<i64> = vec![7, 7, -3, i64::MAX, i64::MIN, 0, 12];
    let mut deltas: Vec<i64> = Vec::new();
    let mut last: i64 = 0;
    for v in &values {
        deltas.push(v.wrapping_sub(last));
        last = *v;
    }
    assert_eq!(decode_deltas(&deltas), values);
}

#[test]
fn parallel_arrays_give_tags_in_order() {
    let st = table(&["", "highway", "primary", "name", "Main"]);
    let tags = Tag::from_kvs(&vec![1, 3], &vec![2, 4], &st).unwrap();
    assert_eq!(tags, vec![tag("highway", "primary"), tag("name", "Main")]);
}

#[test]
fn parallel_arrays_may_use_index_zero() {
    let st = table(&["zero", "one"]);
    let tags = Tag::from_kvs(&vec![0], &vec![1], &st).unwrap();
    assert_eq!(tags, vec![tag("zero", "one")]);
}

#[test]
fn parallel_arrays_stop_at_the_shorter() {
    let st = table(&["", "a", "b", "c"]);
    let tags = Tag::from_kvs(&vec![1, 2, 3], &vec![2], &st).unwrap();
    assert_eq!(tags, vec![tag("a", "b")]);
    let tags = Tag::from_kvs(&vec![1], &vec![2, 3, 1], &st).unwrap();
    assert_eq!(tags, vec![tag("a", "b")]);
}

#[test]
fn parallel_arrays_reject_an_index_behind_the_table() {
    let st = table(&["", "a", "b"]);
    assert_eq!(Tag::from_kvs(&vec![3], &vec![1], &st), Err(Error::StringTableIndexOutOfRange));
    assert_eq!(Tag::from_kvs(&vec![1], &vec![3], &st), Err(Error::StringTableIndexOutOfRange));
    assert_eq!(
        Tag::from_kvs(&vec![1, u32::MAX], &vec![2, 1], &st),
        Err(Error::StringTableIndexOutOfRange)
    );
}

#[test]
fn parallel_arrays_ignore_a_bad_index_in_the_surplus() {
    let st = table(&["", "a", "b"]);
    let tags = Tag::from_kvs(&vec![1, 99], &vec![2], &st).unwrap();
    assert_eq!(tags, vec![tag("a", "b")]);
}

#[test]
fn dense_tag_cursor_walks_two_nodes() {
    let st = table(&["", "kA", "vA", "kB", "vB", "kC", "vC"]);
    let kvs: Vec<i32> = vec![1, 2, 0, 3, 4, 5, 6, 0];
    let mut j: usize = 0;
    let first = Tag::from_dense_nodes_kvs(&kvs, &st, &mut j).unwrap();
    assert_eq!(first, vec![tag("kA", "vA")]);
    assert_eq!(j, 3);
    let second = Tag::from_dense_nodes_kvs(&kvs, &st, &mut j).unwrap();
    assert_eq!(second, vec![tag("kB", "vB"), tag("kC", "vC")]);
    assert_eq!(j, 8);
    assert_eq!(j, kvs.len());
}

#[test]
fn dense_tags_of_a_node_without_tags() {
    let st = table(&["", "k", "v"]);
    let kvs: Vec<i32> = vec![0, 1, 2, 0];
    let mut j: usize = 0;
    assert_eq!(Tag::from_dense_nodes_kvs(&kvs, &st, &mut j).unwrap(), vec![]);
    assert_eq!(j, 1);
    assert_eq!(Tag::from_dense_nodes_kvs(&kvs, &st, &mut j).unwrap(), vec![tag("k", "v")]);
    assert_eq!(j, 4);
}

#[test]
fn dense_tags_behind_the_array_are_empty() {
    let st = table(&["", "k", "v"]);
    let kvs: Vec<i32> = vec![1, 2, 0];
    let mut j: usize = 3;
    assert_eq!(Tag::from_dense_nodes_kvs(&kvs, &st, &mut j).unwrap(), vec![]);
    assert_eq!(j, 3);
    let mut j: usize = 10;
    assert_eq!(Tag::from_dense_nodes_kvs(&kvs, &st, &mut j).unwrap(), vec![]);
    assert_eq!(j, 10);
    let mut j: usize = 0;
    assert_eq!(Tag::from_dense_nodes_kvs(&vec![], &st, &mut j).unwrap(), vec![]);
    assert_eq!(j, 0);
}

#[test]
fn dense_tags_without_closing_zero_end_with_the_array() {
    let st = table(&["", "k", "v"]);
    let kvs: Vec<i32> = vec![1, 2];
    let mut j: usize = 0;
    assert_eq!(Tag::from_dense_nodes_kvs(&kvs, &st, &mut j).unwrap(), vec![tag("k", "v")]);
    assert_eq!(j, 2);
}

#[test]
fn dense_tags_never_emit_a_zero_key() {
    let st = table(&["reserved", "k", "v"]);
    let kvs: Vec<i32> = vec![1, 2, 0, 0, 1, 0, 0];
    let mut j: usize = 0;
    let mut all: Vec<Vec<Tag>> = Vec::new();
    while j < kvs.len() {
        all.push(Tag::from_dense_nodes_kvs(&kvs, &st, &mut j).unwrap());
    }
    assert_eq!(all, vec![vec![tag("k", "v")], vec![], vec![tag("k", "reserved")]]);
    for tags in &all {
        for t in tags {
            assert_ne!(t.k, "reserved");
        }
    }
}

#[test]
fn dense_tags_reject_an_index_behind_the_table() {
    let st = table(&["", "k", "v"]);
    let mut j: usize = 0;
    assert_eq!(
        Tag::from_dense_nodes_kvs(&vec![3, 1, 0], &st, &mut j),
        Err(Error::StringTableIndexOutOfRange)
    );
    assert_eq!(j, 0);
    assert_eq!(
        Tag::from_dense_nodes_kvs(&vec![1, 3, 0], &st, &mut j),
        Err(Error::StringTableIndexOutOfRange)
    );
    assert_eq!(
        Tag::from_dense_nodes_kvs(&vec![1, 2, -1, 2, 0], &st, &mut j),
        Err(Error::StringTableIndexOutOfRange)
    );
    assert_eq!(
        Tag::from_dense_nodes_kvs(&vec![1, -5, 0], &st, &mut j),
        Err(Error::StringTableIndexOutOfRange)
    );
    assert_eq!(j, 0);
}

#[test]
fn dense_tags_reject_a_key_without_value() {
    let st = table(&["", "k", "v"]);
    let mut j: usize = 0;
    assert_eq!(Tag::from_dense_nodes_kvs(&vec![1, 2, 1], &st, &mut j), Err(Error::DanglingTagKey));
    assert_eq!(j, 0);
    let mut j: usize = 2;
    assert_eq!(Tag::from_dense_nodes_kvs(&vec![0, 0, 2], &st, &mut j), Err(Error::DanglingTagKey));
    assert_eq!(j, 2);
}

#[test]
fn dense_tags_check_the_last_key_before_missing_its_value() {
    let st = table(&["", "k", "v"]);
    let mut j: usize = 0;
    assert_eq!(
        Tag::from_dense_nodes_kvs(&vec![9], &st, &mut j),
        Err(Error::StringTableIndexOutOfRange)
    );
}

#[test]
fn coordinates_scale_by_offset_and_granularity() {
    assert_eq!(coord(120, None, None), 12_000);
    assert_eq!(coord(120, Some(7), Some(10)), 1_207);
    assert_eq!(coord(-3, Some(-5), Some(1000)), -3_005);
    assert_eq!(coord(0, Some(42), Some(0)), 42);
}

#[test]
fn coordinates_with_absent_scale_equal_explicit_defaults() {
    for raw in [0i64, 1, -1, 515_000_000, -1_800_000_000, i64::MAX, i64::MIN] {
        assert_eq!(coord(raw, None, None), coord(raw, Some(0), Some(100)));
        assert_eq!(coord(raw, None, Some(100)), coord(raw, Some(0), None));
    }
}

#[test]
fn coordinates_do_not_overflow() {
    assert_eq!(
        coord(i64::MIN, Some(i64::MIN), Some(i32::MIN)),
        (i64::MIN as i128) + (i32::MIN as i128) * (i64::MIN as i128)
    );
    assert_eq!(
        coord(i64::MAX, Some(i64::MAX), Some(i32::MAX)),
        (i64::MAX as i128) + (i32::MAX as i128) * (i64::MAX as i128)
    );
}

#[test]
fn plain_node_keeps_id_and_scales_coordinates() {
    let st = table(&["", "amenity", "cafe"]);
    let pb = items::PrimitiveBlock {
        granularity: Some(1000),
        lat_offset: Some(10),
        lon_offset: Some(-20),
        ..Default::default()
    };
    let n = items::Node { id: -77, keys: vec![1], vals: vec![2], lat: 5, lon: 6 };
    let node = Node::from_proto(&n, &st, &pb).unwrap();
    assert_eq!(node, Node { id: -77, lat: 5_010, lon: 5_980, tags: vec![tag("amenity", "cafe")] });
}

#[test]
fn plain_node_with_bad_tag_index_fails() {
    let st = table(&["", "a"]);
    let pb = items::PrimitiveBlock::default();
    let n = items::Node { id: 1, keys: vec![1], vals: vec![2], lat: 0, lon: 0 };
    assert_eq!(Node::from_proto(&n, &st, &pb), Err(Error::StringTableIndexOutOfRange));
}

#[test]
fn one_dense_node_end_to_end() {
    let st = table(&[""]);
    let pb = items::PrimitiveBlock {
        granularity: Some(100),
        lat_offset: Some(0),
        lon_offset: Some(0),
        ..Default::default()
    };
    let dense =
        items::DenseNodes { id: vec![5], lat: vec![120], lon: vec![340], keys_vals: vec![] };
    let nodes = Node::from_proto_dense_nodes(&dense, &st, &pb).unwrap();
    assert_eq!(nodes, vec![Node { id: 5, lat: 12_000, lon: 34_000, tags: vec![] }]);
    let lat = 1e-9 * (nodes[0].lat as f64);
    let lon = 1e-9 * (nodes[0].lon as f64);
    assert!((lat - 0.000012).abs() < 1e-15);
    assert!((lon - 0.000034).abs() < 1e-15);
}

#[test]
fn dense_nodes_accumulate_three_columns_in_lockstep() {
    let st = table(&["", "k1", "v1", "k2", "v2"]);
    let pb = items::PrimitiveBlock::default();
    let dense = items::DenseNodes {
        id: vec![10, 1, -4],
        lat: vec![100, -10, 0],
        lon: vec![-200, 20, 5],
        keys_vals: vec![1, 2, 0, 0, 3, 4, 1, 2, 0],
    };
    let nodes = Node::from_proto_dense_nodes(&dense, &st, &pb).unwrap();
    assert_eq!(
        nodes,
        vec![
            Node { id: 10, lat: 10_000, lon: -20_000, tags: vec![tag("k1", "v1")] },
            Node { id: 11, lat: 9_000, lon: -18_000, tags: vec![] },
            Node { id: 7, lat: 9_000, lon: -17_500, tags: vec![tag("k2", "v2"), tag("k1", "v1")] },
        ]
    );
}

#[test]
fn dense_nodes_stop_at_the_shortest_column() {
    let st = table(&[""]);
    let pb = items::PrimitiveBlock::default();
    let dense =
        items::DenseNodes { id: vec![1, 1, 1], lat: vec![1, 1], lon: vec![1, 1, 1, 1], keys_vals: vec![] };
    let nodes = Node::from_proto_dense_nodes(&dense, &st, &pb).unwrap();
    assert_eq!(nodes.len(), 2);
    assert_eq!(nodes[1], Node { id: 2, lat: 200, lon: 200, tags: vec![] });
}

#[test]
fn dense_nodes_fail_on_a_corrupt_tag_array() {
    let st = table(&["", "k", "v"]);
    let pb = items::PrimitiveBlock::default();
    let dense =
        items::DenseNodes { id: vec![1, 1], lat: vec![0, 0], lon: vec![0, 0], keys_vals: vec![1, 2, 0, 7, 1, 0] };
    assert_eq!(
        Node::from_proto_dense_nodes(&dense, &st, &pb),
        Err(Error::StringTableIndexOutOfRange)
    );
    let dense =
        items::DenseNodes { id: vec![1, 1], lat: vec![0, 0], lon: vec![0, 0], keys_vals: vec![1, 2, 0, 1] };
    assert_eq!(Node::from_proto_dense_nodes(&dense, &st, &pb), Err(Error::DanglingTagKey));
}

#[test]
fn dense_nodes_ignore_faults_behind_the_last_node() {
    let st = table(&["", "k", "v"]);
    let pb = items::PrimitiveBlock::default();
    let dense =
        items::DenseNodes { id: vec![1], lat: vec![0], lon: vec![0], keys_vals: vec![1, 2, 0, 99, 99] };
    let nodes = Node::from_proto_dense_nodes(&dense, &st, &pb).unwrap();
    assert_eq!(nodes, vec![Node { id: 1, lat: 0, lon: 0, tags: vec![tag("k", "v")] }]);
}

#[test]
fn way_refs_are_running_totals() {
    let st = table(&["", "highway", "path"]);
    let w = items::Way { id: 900, keys: vec![1], vals: vec![2], refs: vec![100, 1, 1, -50] };
    let way = Way::from_proto(&w, &st).unwrap();
    assert_eq!(
        way,
        Way {
            id: 900,
            nodes: vec![
                NodeRef { reference: 100 },
                NodeRef { reference: 101 },
                NodeRef { reference: 102 },
                NodeRef { reference: 52 },
            ],
            tags: vec![tag("highway", "path")],
        }
    );
}

#[test]
fn way_with_bad_tag_index_fails() {
    let st = table(&["", "a"]);
    let w = items::Way { id: 1, keys: vec![5], vals: vec![1], refs: vec![1] };
    assert_eq!(Way::from_proto(&w, &st), Err(Error::StringTableIndexOutOfRange));
}

#[test]
fn members_zip_three_columns() {
    let st = table(&["", "outer", "inner", "stop"]);
    let members =
        Member::from_proto(&vec![10, 5, -3], &vec![1, 2, 3], &vec![1, 1, 0], &st).unwrap();
    assert_eq!(
        members,
        vec![
            Member { reference: 10, role: "outer".to_string(), member_type: MemberType::Way },
            Member { reference: 15, role: "inner".to_string(), member_type: MemberType::Way },
            Member { reference: 12, role: "stop".to_string(), member_type: MemberType::Node },
        ]
    );
}

#[test]
fn members_may_have_the_empty_role_at_index_zero() {
    let st = table(&[""]);
    let members = Member::from_proto(&vec![3], &vec![0], &vec![2], &st).unwrap();
    assert_eq!(
        members,
        vec![Member { reference: 3, role: String::new(), member_type: MemberType::Relation }]
    );
}

#[test]
fn members_stop_at_the_shortest_column() {
    let st = table(&["", "r"]);
    let members = Member::from_proto(&vec![1, 1, 1], &vec![1, 1], &vec![0], &st).unwrap();
    assert_eq!(members.len(), 1);
}

#[test]
fn members_reject_an_unknown_type_code() {
    let st = table(&["", "r"]);
    assert_eq!(
        Member::from_proto(&vec![1], &vec![1], &vec![3], &st),
        Err(Error::UnrecognizedMemberType)
    );
    assert_eq!(
        Member::from_proto(&vec![1, 1], &vec![1, 1], &vec![0, -1], &st),
        Err(Error::UnrecognizedMemberType)
    );
}

#[test]
fn members_reject_a_role_behind_the_table() {
    let st = table(&["", "r"]);
    assert_eq!(
        Member::from_proto(&vec![1], &vec![2], &vec![0], &st),
        Err(Error::StringTableIndexOutOfRange)
    );
    assert_eq!(
        Member::from_proto(&vec![1], &vec![-1], &vec![0], &st),
        Err(Error::StringTableIndexOutOfRange)
    );
}

#[test]
fn members_look_at_the_role_before_the_type() {
    let st = table(&["", "r"]);
    assert_eq!(
        Member::from_proto(&vec![1], &vec![7], &vec![7], &st),
        Err(Error::StringTableIndexOutOfRange)
    );
    assert_eq!(
        Member::from_proto(&vec![1, 1], &vec![1, 7], &vec![7, 0], &st),
        Err(Error::UnrecognizedMemberType)
    );
}

#[test]
fn relation_member_ids_restart_for_each_relation() {
    let st = table(&["", "type", "route", "stop"]);
    let r = items::Relation {
        id: 4,
        keys: vec![1],
        vals: vec![2],
        roles_sid: vec![3, 3],
        memids: vec![100, 1],
        types: vec![0, 0],
    };
    let first = Relation::from_proto(&r, &st).unwrap();
    let second = Relation::from_proto(&items::Relation { id: 5, ..r.clone() }, &st).unwrap();
    assert_eq!(first.id, 4);
    assert_eq!(second.id, 5);
    assert_eq!(first.tags, vec![tag("type", "route")]);
    assert_eq!(first.members[0].reference, 100);
    assert_eq!(first.members[1].reference, 101);
    assert_eq!(second.members, first.members);
}

#[test]
fn relation_reports_its_tags_before_its_members() {
    let st = table(&["", "a"]);
    let r = items::Relation {
        id: 1,
        keys: vec![9],
        vals: vec![1],
        roles_sid: vec![1],
        memids: vec![1],
        types: vec![9],
    };
    assert_eq!(Relation::from_proto(&r, &st), Err(Error::StringTableIndexOutOfRange));
    let r = items::Relation { keys: vec![1], ..r };
    assert_eq!(Relation::from_proto(&r, &st), Err(Error::UnrecognizedMemberType));
}

#[test]
fn member_type_codes_and_names() {
    assert_eq!(MemberType::from_i32(0), Some(MemberType::Node));
    assert_eq!(MemberType::from_i32(1), Some(MemberType::Way));
    assert_eq!(MemberType::from_i32(2), Some(MemberType::Relation));
    assert_eq!(MemberType::from_i32(3), None);
    assert_eq!(MemberType::from_i32(-1), None);
    assert_eq!(MemberType::Node.as_str_name(), "NODE");
    assert_eq!(MemberType::Way.as_str_name(), "WAY");
    assert_eq!(MemberType::Relation.as_str_name(), "RELATION");
}
