use adc::assembly::{dof_report, mates_into, MateTag};
use adc::check::{all_pairs, sorted_unique, stable_order};
use adc::topo::placement_order;

fn s(x: &str) -> String {
    x.to_string()
}

#[test]
fn chain_is_placed_in_dependency_order() {
    assert_eq!(placement_order(3, &vec![(0, 1), (1, 2)]), Some(vec![0, 1, 2]));
    assert_eq!(placement_order(3, &vec![(2, 1), (1, 0)]), Some(vec![2, 1, 0]));
    assert_eq!(placement_order(0, &vec![]), Some(vec![]));
}

#[test]
fn ties_are_broken_by_least_instance() {
    // 0 waits for 2; 1 and 2 are ready, the least comes first
    assert_eq!(placement_order(3, &vec![(2, 0)]), Some(vec![1, 2, 0]));
    assert_eq!(placement_order(4, &vec![]), Some(vec![0, 1, 2, 3]));
}

#[test]
fn cycle_has_no_order() {
    assert_eq!(placement_order(2, &vec![(0, 1), (1, 0)]), None);
    assert_eq!(placement_order(3, &vec![(0, 1), (1, 2), (2, 1)]), None);
    // a mate on itself never becomes ready
    assert_eq!(placement_order(1, &vec![(0, 0)]), None);
}

#[test]
fn undefined_reference_is_never_placed() {
    assert_eq!(placement_order(2, &vec![(5, 1)]), None);
}

#[test]
fn mate_declaration_order_does_not_change_the_placement() {
    let a = vec![(0, 2), (1, 2), (0, 1), (3, 0)];
    let b = vec![(3, 0), (0, 1), (1, 2), (0, 2)];
    let c = vec![(1, 2), (0, 1), (3, 0), (0, 2), (0, 1)];
    let o = placement_order(4, &a);
    assert_eq!(o, Some(vec![3, 0, 1, 2]));
    assert_eq!(placement_order(4, &b), o);
    assert_eq!(placement_order(4, &c), o);
}

#[test]
fn placement_respects_every_mate() {
    let edges = vec![(4, 0), (2, 3), (0, 3), (1, 4), (2, 1)];
    let o = placement_order(5, &edges).unwrap();
    let pos = |v: usize| o.iter().position(|&x| x == v).unwrap();
    for (a, b) in edges {
        assert!(pos(a) < pos(b));
    }
}

#[test]
fn dof_of_ground_and_mated_instances() {
    // ground: fixed
    let (d, note) = dof_report(&vec![], true);
    assert_eq!(d, 0);
    assert_eq!(note, "ground(固定)");
    // shaft: coaxial(-4) + distance(-3) -> 0 (approximate count)
    let (d, note) =
        dof_report(&vec![(s("m_coax"), MateTag::Coaxial), (s("m_lift"), MateTag::Distance)], false);
    assert_eq!(d, 0);
    assert_eq!(note, "m_coax: coaxial(-4), m_lift: distance(-3)");
    // housing: coincident(-3) only -> 3 left
    let (d, note) = dof_report(&vec![(s("m_house"), MateTag::Coincident)], false);
    assert_eq!(d, 3);
    assert!(note.contains("coincident"));
    // slider: coaxial(-4) + angle(-1) -> 1 left
    let (d, note) =
        dof_report(&vec![(s("m_ax"), MateTag::Coaxial), (s("m_ang"), MateTag::Angle)], false);
    assert_eq!(d, 1);
    assert_eq!(note, "m_ax: coaxial(-4), m_ang: angle(-1)");
    // unconstrained
    let (d, note) = dof_report(&vec![], false);
    assert_eq!(d, 6);
    assert_eq!(note, "未拘束(6DOF、構想段階では正常)");
}

#[test]
fn dof_saturates_with_many_mates() {
    let many: Vec<(String, MateTag)> = (0..100).map(|i| (format!("m{i}"), MateTag::Coaxial)).collect();
    let (d, note) = dof_report(&many, false);
    assert_eq!(d, 0);
    assert!(note.starts_with("m0: coaxial(-4), m1: coaxial(-4)"));
}

#[test]
fn mates_into_keeps_declaration_order() {
    let edges = vec![(0, 2), (1, 2), (0, 1), (3, 2)];
    assert_eq!(mates_into(&edges, 2), vec![0, 1, 3]);
    assert_eq!(mates_into(&edges, 1), vec![2]);
    assert_eq!(mates_into(&edges, 0), Vec::<usize>::new());
}

#[test]
fn every_pair_once_in_order() {
    let parts = vec![s("a"), s("b"), s("c")];
    assert_eq!(all_pairs(&parts), vec![(s("a"), s("b")), (s("a"), s("c")), (s("b"), s("c"))]);
    assert!(all_pairs(&vec![s("a")]).is_empty());
    assert!(all_pairs(&vec![]).is_empty());
}

#[test]
fn stable_order_sorts_by_id_keeping_ties() {
    let ids = vec![s("b"), s("a"), s("b"), s("A"), s("a")];
    assert_eq!(stable_order(&ids), vec![3, 1, 4, 0, 2]);
    assert_eq!(stable_order(&vec![]), Vec::<usize>::new());
}

#[test]
fn sorted_unique_values() {
    let v = vec![s("shaft"), s("bracket"), s("shaft"), s("housing")];
    assert_eq!(sorted_unique(&v), vec![s("bracket"), s("housing"), s("shaft")]);
}
