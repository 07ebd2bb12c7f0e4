use osmpbf_parser::proto::osmformat::{
    DenseInfo, DenseNodes, Info, Node, PrimitiveBlock, PrimitiveGroup, Relation, Way,
};
use osmpbf_parser::{Element, Error};

fn table(strings: &[&str]) -> Vec<Vec<u8>> {
    strings.iter().map(|s| s.as_bytes().to_vec()).collect()
}

fn empty_group() -> PrimitiveGroup {
    PrimitiveGroup { nodes: Vec::new(), dense: None, ways: Vec::new(), relations: Vec::new() }
}

fn block(strings: &[&str], group: PrimitiveGroup) -> PrimitiveBlock {
    PrimitiveBlock {
        stringtable: table(strings),
        primitivegroup: vec![group],
        granularity: 100,
        lat_offset: 0,
        lon_offset: 0,
    }
}

#[test]
fn dense_tag_runs_recover_ids_coordinates_and_tags() {
    // Three points with tag runs of length 0, 1 and 3, each run closed by
    // a zero sentinel key.
    let strings = ["", "k1", "v1", "k2", "v2", "k3", "v3", "k4", "v4"];
    let dense = DenseNodes {
        id: vec![100, 1, 1],
        lat: vec![10, 10, 10],
        lon: vec![-5, 1, 1],
        denseinfo: None,
        keys_vals: vec![
            0, // first point: empty run
            1, 2, 0, // second point: one pair
            3, 4, 5, 6, 7, 8, 0, // third point: three pairs
        ],
    };
    let pb = block(&strings, PrimitiveGroup { dense: Some(dense), ..empty_group() });
    let items = pb.decode().unwrap();
    assert_eq!(items.len(), 3);
    match &items[0] {
        Element::Node(n) => {
            assert_eq!(n.id, 100);
            assert_eq!(n.lat, 1000);
            assert_eq!(n.lon, -500);
            assert!(n.tags.is_empty());
            assert!(n.info.is_none());
        },
        other => panic!("expected a point, got {:?}", other),
    }
    match &items[1] {
        Element::Node(n) => {
            assert_eq!(n.id, 101);
            assert_eq!(n.lat, 2000);
            assert_eq!(n.lon, -400);
            assert_eq!(n.tags, vec![("k1".to_string(), "v1".to_string())]);
        },
        other => panic!("expected a point, got {:?}", other),
    }
    match &items[2] {
        Element::Node(n) => {
            assert_eq!(n.id, 102);
            assert_eq!(n.lat, 3000);
            assert_eq!(n.lon, -300);
            assert_eq!(
                n.tags,
                vec![
                    ("k2".to_string(), "v2".to_string()),
                    ("k3".to_string(), "v3".to_string()),
                    ("k4".to_string(), "v4".to_string()),
                ]
            );
        },
        other => panic!("expected a point, got {:?}", other),
    }
}

#[test]
fn dense_info_with_visible_but_no_changeset() {
    let dense = DenseNodes {
        id: vec![1, 1, 1],
        lat: vec![0, 0, 0],
        lon: vec![0, 0, 0],
        denseinfo: Some(DenseInfo {
            version: vec![7, 8, 9],
            timestamp: vec![1000, 5, -3],
            changeset: Vec::new(),
            uid: Vec::new(),
            user_sid: Vec::new(),
            visible: vec![true, false, true],
        }),
        keys_vals: Vec::new(),
    };
    let pb = block(&[""], PrimitiveGroup { dense: Some(dense), ..empty_group() });
    let items = pb.decode().unwrap();
    assert_eq!(items.len(), 3);
    let expected_ts = [1000i64, 1005, 1002];
    let expected_visible = [true, false, true];
    let expected_version = [7, 8, 9];
    for (i, item) in items.iter().enumerate() {
        match item {
            Element::Node(n) => {
                let info = n.info.as_ref().unwrap();
                assert_eq!(info.changeset, None, "changeset column is absent");
                assert_eq!(info.visible, Some(expected_visible[i]));
                assert_eq!(info.timestamp, Some(expected_ts[i]));
                assert_eq!(info.version, expected_version[i]);
                assert_eq!(info.uid, None);
                assert_eq!(info.user, None);
            },
            other => panic!("expected a point, got {:?}", other),
        }
    }
}

#[test]
fn dense_info_columns_shorter_than_ids_stop_contributing() {
    let dense = DenseNodes {
        id: vec![1, 1, 1],
        lat: vec![0, 0, 0],
        lon: vec![0, 0, 0],
        denseinfo: Some(DenseInfo {
            version: vec![1],
            timestamp: vec![50, 50],
            changeset: Vec::new(),
            uid: Vec::new(),
            user_sid: Vec::new(),
            visible: Vec::new(),
        }),
        keys_vals: Vec::new(),
    };
    let pb = block(&[""], PrimitiveGroup { dense: Some(dense), ..empty_group() });
    let items = pb.decode().unwrap();
    let versions: Vec<i32> = items
        .iter()
        .map(|e| match e {
            Element::Node(n) => n.info.as_ref().unwrap().version,
            _ => unreachable!(),
        })
        .collect();
    assert_eq!(versions, vec![1, 0, 0]);
    let timestamps: Vec<Option<i64>> = items
        .iter()
        .map(|e| match e {
            Element::Node(n) => n.info.as_ref().unwrap().timestamp,
            _ => unreachable!(),
        })
        .collect();
    assert_eq!(timestamps, vec![Some(50), Some(100), None]);
}

#[test]
fn plain_node_scales_coordinates() {
    let node = Node { id: 42, keys: vec![1], vals: vec![2], info: None, lat: 7, lon: -7 };
    let mut pb = block(&["", "name", "value"], PrimitiveGroup {
        nodes: vec![node],
        ..empty_group()
    });
    pb.granularity = 1000;
    pb.lat_offset = 5;
    pb.lon_offset = -5;
    let items = pb.decode().unwrap();
    match &items[0] {
        Element::Node(n) => {
            assert_eq!(n.id, 42);
            assert_eq!(n.lat, 5 + 1000 * 7);
            assert_eq!(n.lon, -5 + 1000 * (-7));
            assert_eq!(n.tags, vec![("name".to_string(), "value".to_string())]);
        },
        other => panic!("expected a point, got {:?}", other),
    }
}

#[test]
fn way_refs_fold_from_deltas() {
    let way = Way {
        id: 9,
        keys: Vec::new(),
        vals: Vec::new(),
        info: None,
        refs: vec![100, 2, -1, 10],
    };
    let pb = block(&[""], PrimitiveGroup { ways: vec![way], ..empty_group() });
    let items = pb.decode().unwrap();
    match &items[0] {
        Element::Way(w) => {
            assert_eq!(w.id, 9);
            assert_eq!(w.refs, vec![100, 102, 101, 111]);
        },
        other => panic!("expected a polyline, got {:?}", other),
    }
}

#[test]
fn relation_members_zip_three_columns() {
    let rel = Relation {
        id: 77,
        keys: Vec::new(),
        vals: Vec::new(),
        info: None,
        roles_sid: vec![1, 2, 1],
        memids: vec![10, -2, 5],
        types: vec![0, 1, 2],
    };
    let pb = block(&["", "outer", "inner"], PrimitiveGroup {
        relations: vec![rel],
        ..empty_group()
    });
    let items = pb.decode().unwrap();
    match &items[0] {
        Element::Relation(r) => {
            assert_eq!(r.id, 77);
            assert_eq!(r.members.len(), 3);
            assert_eq!(r.members[0].id, 10);
            assert_eq!(r.members[1].id, 8);
            assert_eq!(r.members[2].id, 13);
            assert_eq!(r.members[0].role, "outer");
            assert_eq!(r.members[1].role, "inner");
            assert_eq!(r.members[0].member_type, osmpbf_parser::MemberType::Node);
            assert_eq!(r.members[1].member_type, osmpbf_parser::MemberType::Way);
            assert_eq!(r.members[2].member_type, osmpbf_parser::MemberType::Relation);
        },
        other => panic!("expected a relation, got {:?}", other),
    }
}

#[test]
fn relation_member_column_mismatch_is_malformed() {
    let rel = Relation {
        id: 1,
        keys: Vec::new(),
        vals: Vec::new(),
        info: None,
        roles_sid: vec![0, 0],
        memids: vec![1, 2, 3],
        types: vec![0, 0, 0],
    };
    let pb = block(&[""], PrimitiveGroup { relations: vec![rel], ..empty_group() });
    assert_eq!(pb.decode().unwrap_err(), Error::MalformedBlock);
}

#[test]
fn unknown_member_kind_tag_is_malformed() {
    let rel = Relation {
        id: 1,
        keys: Vec::new(),
        vals: Vec::new(),
        info: None,
        roles_sid: vec![0],
        memids: vec![1],
        types: vec![3],
    };
    let pb = block(&[""], PrimitiveGroup { relations: vec![rel], ..empty_group() });
    assert_eq!(pb.decode().unwrap_err(), Error::MalformedBlock);
}

#[test]
fn out_of_range_string_index_is_malformed() {
    let node = Node { id: 1, keys: vec![5], vals: vec![5], info: None, lat: 0, lon: 0 };
    let pb = block(&[""], PrimitiveGroup { nodes: vec![node], ..empty_group() });
    assert_eq!(pb.decode().unwrap_err(), Error::MalformedBlock);
}

#[test]
fn invalid_text_in_string_table_is_malformed() {
    let mut pb = block(&[""], empty_group());
    pb.stringtable.push(vec![0xff, 0xfe]);
    assert_eq!(pb.get_string(1).unwrap_err(), Error::MalformedBlock);
    assert_eq!(pb.get_string(9).unwrap_err(), Error::MalformedBlock);
}

#[test]
fn multibyte_text_resolves() {
    let pb = block(&["", "zürich"], empty_group());
    assert_eq!(pb.get_string(1).unwrap(), "zürich");
}

#[test]
fn info_resolves_user_name() {
    let node = Node {
        id: 1,
        keys: Vec::new(),
        vals: Vec::new(),
        info: Some(Info {
            version: 3,
            timestamp: Some(44),
            changeset: Some(55),
            uid: Some(66),
            user_sid: Some(1),
            visible: Some(true),
        }),
        lat: 0,
        lon: 0,
    };
    let pb = block(&["", "mapper"], PrimitiveGroup { nodes: vec![node], ..empty_group() });
    let items = pb.decode().unwrap();
    match &items[0] {
        Element::Node(n) => {
            let info = n.info.as_ref().unwrap();
            assert_eq!(info.version, 3);
            assert_eq!(info.timestamp, Some(44));
            assert_eq!(info.changeset, Some(55));
            assert_eq!(info.uid, Some(66));
            assert_eq!(info.user.as_deref(), Some("mapper"));
            assert_eq!(info.visible, Some(true));
        },
        other => panic!("expected a point, got {:?}", other),
    }
}

#[test]
fn group_order_is_points_dense_ways_relations() {
    let node = Node { id: 1, keys: Vec::new(), vals: Vec::new(), info: None, lat: 0, lon: 0 };
    let dense = DenseNodes {
        id: vec![2],
        lat: vec![0],
        lon: vec![0],
        denseinfo: None,
        keys_vals: Vec::new(),
    };
    let way = Way { id: 3, keys: Vec::new(), vals: Vec::new(), info: None, refs: Vec::new() };
    let rel = Relation {
        id: 4,
        keys: Vec::new(),
        vals: Vec::new(),
        info: None,
        roles_sid: Vec::new(),
        memids: Vec::new(),
        types: Vec::new(),
    };
    let pb = block(&[""], PrimitiveGroup {
        nodes: vec![node],
        dense: Some(dense),
        ways: vec![way],
        relations: vec![rel],
    });
    let items = pb.decode().unwrap();
    let ids: Vec<i64> = items
        .iter()
        .map(|e| match e {
            Element::Node(n) => n.id,
            Element::Way(w) => w.id,
            Element::Relation(r) => r.id,
        })
        .collect();
    assert_eq!(ids, vec![1, 2, 3, 4]);
}
