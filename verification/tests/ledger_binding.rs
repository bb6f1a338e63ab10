use adc::compile::{bind_anchors, datum_ids, pattern_key, pattern_key_2d, req_id, AnchorDecl};
use adc::ledger::{
    forward_edge, forward_entry, forward_face, forward_face_set, AnchorKindTag, BindError,
    BoundAnchorRef, ElemRef, EntryHistory, Ledger, Provided,
};

type P = Provided<u32, u32, u32>;

fn s(x: &str) -> String {
    x.to_string()
}

fn sample() -> Ledger<u32, u32, u32> {
    let mut l = Ledger::new();
    l.insert(s("base"), s("top"), Provided::Face(1));
    l.insert(s("bore"), s("wall"), Provided::Face(2));
    l.insert(s("bore"), s("axis"), Provided::Axis(7));
    l.insert(s("pocket"), s("walls"), Provided::FaceSet(vec![3, 4, 5]));
    l.insert(s("base"), s("edge_a"), Provided::Edge(9));
    l
}

#[test]
fn kind_names() {
    assert_eq!(P::Face(1).kind_name(), "face");
    assert_eq!(P::FaceSet(vec![]).kind_name(), "face集合");
    assert_eq!(P::Axis(1).kind_name(), "axis");
    assert_eq!(P::Edge(1).kind_name(), "edge");
    assert_eq!(P::Deleted { by_feature: s("f") }.kind_name(), "(消滅)");
    assert_eq!(P::Ambiguous { by_feature: s("f"), count: 2 }.kind_name(), "(多義)");
}

#[test]
fn single_face_forwarding() {
    assert!(matches!(forward_face::<u32, u32, u32>(1, vec![], false, "fil"), Provided::Face(1)));
    assert!(matches!(forward_face::<u32, u32, u32>(1, vec![8], false, "fil"), Provided::Face(8)));
    match forward_face::<u32, u32, u32>(1, vec![], true, "cut") {
        Provided::Deleted { by_feature } => assert_eq!(by_feature, "cut"),
        other => panic!("{other:?}"),
    }
    match forward_face::<u32, u32, u32>(1, vec![8, 9], false, "split") {
        Provided::Ambiguous { by_feature, count } => {
            assert_eq!(by_feature, "split");
            assert_eq!(count, 2);
        }
        other => panic!("{other:?}"),
    }
    assert!(matches!(forward_edge::<u32, u32, u32>(4, vec![6], true, "x"), Provided::Edge(6)));
    assert!(matches!(
        forward_edge::<u32, u32, u32>(4, vec![], true, "x"),
        Provided::Deleted { .. }
    ));
}

#[test]
fn face_sets_absorb_splits_and_deletions() {
    // face 3 split into 30, 31; face 4 removed; face 5 untouched
    let out = forward_face_set(vec![3, 4, 5], vec![vec![30, 31], vec![], vec![]], vec![false, true, false]);
    assert_eq!(out, vec![30, 31, 5]);
    // a set never becomes deleted, even when every face goes
    match forward_entry::<u32, u32, u32>(
        Provided::FaceSet(vec![3]),
        EntryHistory::FaceSet { mapped_each: vec![vec![]], removed_each: vec![true] },
        "cut",
    ) {
        Provided::FaceSet(v) => assert!(v.is_empty()),
        other => panic!("{other:?}"),
    }
    // axes and failed entries pass through unchanged
    assert!(matches!(
        forward_entry::<u32, u32, u32>(Provided::Axis(7), EntryHistory::NoQuery, "cut"),
        Provided::Axis(7)
    ));
}

#[test]
fn insert_replaces_in_place() {
    let mut l = sample();
    assert_eq!(l.len(), 5);
    l.insert(s("bore"), s("wall"), Provided::Face(20));
    assert_eq!(l.len(), 5);
    let (f, n, p) = l.entry(1);
    assert_eq!((f.as_str(), n.as_str()), ("bore", "wall"));
    assert!(matches!(p, Provided::Face(20)));
    assert_eq!(l.provided_face("bore", "wall"), Some(&20));
    assert_eq!(l.provided_axis("bore", "axis"), Some(&7));
    assert_eq!(l.provided_edge("base", "edge_a"), Some(&9));
    assert_eq!(l.provided_face_set("pocket", "walls"), Some(&vec![3, 4, 5]));
    assert_eq!(l.provided_face("pocket", "walls"), None);
    assert!(l.get("nope", "top").is_none());
}

#[test]
fn forward_all_carries_every_entry() {
    let mut l = sample();
    l.forward_all(
        vec![
            EntryHistory::Face { mapped: vec![11], removed: false },
            EntryHistory::Face { mapped: vec![], removed: true },
            EntryHistory::NoQuery,
            EntryHistory::FaceSet {
                mapped_each: vec![vec![], vec![40, 41], vec![]],
                removed_each: vec![false, false, true],
            },
            EntryHistory::Edge { mapped_edges: vec![12, 13], removed: false },
        ],
        "fillet1",
    );
    assert_eq!(l.provided_face("base", "top"), Some(&11));
    assert!(matches!(l.get("bore", "wall"), Some(Provided::Deleted { .. })));
    assert_eq!(l.provided_axis("bore", "axis"), Some(&7));
    assert_eq!(l.provided_face_set("pocket", "walls"), Some(&vec![3, 40, 41]));
    match l.get("base", "edge_a") {
        Some(Provided::Ambiguous { by_feature, count }) => {
            assert_eq!(by_feature, "fillet1");
            assert_eq!(*count, 2);
        }
        other => panic!("{other:?}"),
    }
}

#[test]
fn binding_anchors() {
    let mut l = sample();
    l.insert(s("bore"), s("rim"), Provided::Deleted { by_feature: s("cut2") });
    l.insert(s("base"), s("side"), Provided::Ambiguous { by_feature: s("split1"), count: 3 });
    assert_eq!(
        l.bind_anchor("a_top", AnchorKindTag::Face, "base", &ElemRef::Face(s("top"))).unwrap(),
        (s("base"), s("top"))
    );
    assert_eq!(
        l.bind_anchor("d_top", AnchorKindTag::Datum, "base", &ElemRef::Face(s("top"))).unwrap(),
        (s("base"), s("top"))
    );
    match l.bind_anchor("x", AnchorKindTag::Face, "base", &ElemRef::Face(s("nope"))) {
        Err(BindError::UnknownProvides { feature_id, elem }) => {
            assert_eq!(feature_id, "base");
            assert_eq!(elem, "nope");
        }
        other => panic!("{other:?}"),
    }
    match l.bind_anchor("p", AnchorKindTag::Point, "base", &ElemRef::Point(s("c"))) {
        Err(BindError::UnknownProvides { elem, .. }) => {
            assert_eq!(elem, "point(c) はT1語彙で未提供")
        }
        other => panic!("{other:?}"),
    }
    match l.bind_anchor("r", AnchorKindTag::Edge, "bore", &ElemRef::Edge(s("rim"))) {
        Err(BindError::Deleted { anchor_id, by_feature }) => {
            assert_eq!(anchor_id, "r");
            assert_eq!(by_feature, "cut2");
        }
        other => panic!("{other:?}"),
    }
    match l.bind_anchor("sd", AnchorKindTag::Face, "base", &ElemRef::Face(s("side"))) {
        Err(BindError::Ambiguous { anchor_id, by_feature, count }) => {
            assert_eq!(anchor_id, "sd");
            assert_eq!(by_feature, "split1");
            assert_eq!(count, 3);
        }
        other => panic!("{other:?}"),
    }
    // a face anchor on a set of faces is ambiguous, caused by the feature itself
    match l.bind_anchor("w", AnchorKindTag::Face, "pocket", &ElemRef::Face(s("walls"))) {
        Err(BindError::Ambiguous { by_feature, count, .. }) => {
            assert_eq!(by_feature, "pocket");
            assert_eq!(count, 3);
        }
        other => panic!("{other:?}"),
    }
    match l.bind_anchor("ax", AnchorKindTag::Axis, "base", &ElemRef::Face(s("top"))) {
        Err(BindError::KindMismatch { anchor_id, expected, found }) => {
            assert_eq!(anchor_id, "ax");
            assert_eq!(expected, "axis");
            assert_eq!(found, "face");
        }
        other => panic!("{other:?}"),
    }
}

#[test]
fn anchor_targets() {
    let l = sample();
    assert!(matches!(l.anchor_target("base", "top"), Some(BoundAnchorRef::Face(&1))));
    assert!(matches!(l.anchor_target("bore", "axis"), Some(BoundAnchorRef::Axis(&7))));
    assert!(matches!(l.anchor_target("base", "edge_a"), Some(BoundAnchorRef::Edge(&9))));
    assert!(l.anchor_target("pocket", "walls").is_none());
    assert!(l.anchor_target("x", "y").is_none());
}

#[test]
fn bind_all_anchors_or_first_error() {
    let l = sample();
    let ok = vec![
        AnchorDecl { id: s("t"), kind: AnchorKindTag::Face, feature: s("base"), elem: ElemRef::Face(s("top")) },
        AnchorDecl { id: s("ax"), kind: AnchorKindTag::Axis, feature: s("bore"), elem: ElemRef::Axis(s("axis")) },
    ];
    let keys = bind_anchors(&l, &ok).unwrap();
    assert_eq!(keys, vec![(s("t"), (s("base"), s("top"))), (s("ax"), (s("bore"), s("axis")))]);
    let bad = vec![
        AnchorDecl { id: s("t"), kind: AnchorKindTag::Face, feature: s("base"), elem: ElemRef::Face(s("top")) },
        AnchorDecl { id: s("m"), kind: AnchorKindTag::Face, feature: s("gone"), elem: ElemRef::Face(s("x")) },
        AnchorDecl { id: s("n"), kind: AnchorKindTag::Axis, feature: s("base"), elem: ElemRef::Face(s("top")) },
    ];
    match bind_anchors(&l, &bad) {
        Err(BindError::UnknownProvides { feature_id, .. }) => assert_eq!(feature_id, "gone"),
        other => panic!("{other:?}"),
    }
}

#[test]
fn feature_ids_and_pattern_keys() {
    assert_eq!(req_id(&Some(s("base")), "Block").unwrap(), "base");
    let e = req_id(&None, "Block").unwrap_err();
    assert_eq!(e.feature_id, "(無名)");
    assert_eq!(e.what, "トップレベルのBlockにはidが必要です");
    assert_eq!(pattern_key("holes", 0), "holes[0]");
    assert_eq!(pattern_key("holes", 12), "holes[12]");
    assert_eq!(pattern_key_2d("grid", 3, 105), "grid[3][105]");
    assert_eq!(pattern_key("p", usize::MAX), format!("p[{}]", usize::MAX));
}

#[test]
fn datum_anchor_ids_in_order() {
    let anchors = vec![
        (s("d_b"), AnchorKindTag::Datum),
        (s("top"), AnchorKindTag::Face),
        (s("d_a"), AnchorKindTag::Datum),
        (s("ax"), AnchorKindTag::Axis),
    ];
    assert_eq!(datum_ids(&anchors), vec![s("d_b"), s("d_a")]);
}

#[test]
fn read_after_write() {
    let mut l = sample();
    l.insert(s("base"), s("top"), Provided::Face(100));
    l.insert(s("new"), s("face"), Provided::Face(200));
    assert_eq!(l.provided_face("base", "top"), Some(&100));
    assert_eq!(l.provided_face("new", "face"), Some(&200));
    // other keys are untouched
    assert_eq!(l.provided_face("bore", "wall"), Some(&2));
    assert_eq!(l.provided_axis("bore", "axis"), Some(&7));
    assert_eq!(l.len(), 6);
}
