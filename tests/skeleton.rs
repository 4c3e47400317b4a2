use bearcub::skeleton::{SkeletonError, SkeletonHandle, SkeletonNode};

#[test]
fn test_node_skeleton() {
    let mut h = SkeletonHandle::new();
    let n1 = SkeletonNode::new("n1", "top-level-node");
    let _ = h.add_node(n1, None);
    let tl = h.top_level_ids();
    assert_eq!(tl.len(), 1);
    let n2 = SkeletonNode::new("n2", "child-node");
    let _ = h.add_node(n2, Some("n1"));
    let tl2 = h.top_level_ids();
    assert_eq!(tl2.len(), 1);
    let gn1 = h.get("n2").unwrap();
    assert_eq!(gn1.title().eq("child-node"), true);
    let gp1 = h.get_by_path("top").unwrap();
    assert_eq!(gp1.id().eq("n1"), true);
    let gp2 = h.get_by_path("top:chi").unwrap();
    assert_eq!(gp2.id().eq("n2"), true);

    let h2 = SkeletonHandle::from_parts(h.root(), h.nodes()).unwrap();
    let h2_tlis = h2.top_level_ids();
    assert_eq!(h2_tlis.len(), 1);
    assert_eq!(h2_tlis[0], "n1");
}

#[test]
fn add_node_with_unknown_parent_fails_and_changes_nothing() {
    let mut h = SkeletonHandle::new();
    let _ = h.add_node(SkeletonNode::new("a", "alpha"), None);
    let r = h.add_node(SkeletonNode::new("b", "beta"), Some("missing"));
    assert_eq!(r, Err(SkeletonError::NoSuchParent));
    assert!(h.get("b").is_none());
    assert_eq!(h.top_level_ids(), vec!["a".to_string()]);
    assert_eq!(h.get("a").unwrap().child_ids().len(), 0);
}

#[test]
fn duplicate_children_are_suppressed() {
    let mut h = SkeletonHandle::new();
    h.add_node(SkeletonNode::new("a", "alpha"), None).unwrap();
    h.add_node(SkeletonNode::new("a", "alpha again"), None).unwrap();
    assert_eq!(h.top_level_ids(), vec!["a".to_string()]);
    assert_eq!(h.get("a").unwrap().title(), "alpha again");
    h.add_node(SkeletonNode::new("b", "beta"), Some("a")).unwrap();
    h.add_node(SkeletonNode::new("b", "beta"), Some("a")).unwrap();
    assert_eq!(h.get("a").unwrap().child_ids(), vec!["b".to_string()]);
}

#[test]
fn set_node_upserts_without_touching_parents() {
    let mut h = SkeletonHandle::new();
    h.set_node(SkeletonNode::new("x", "first")).unwrap();
    assert!(h.top_level_ids().is_empty());
    assert_eq!(h.get("x").unwrap().title(), "first");
    h.set_node(SkeletonNode::new("x", "second")).unwrap();
    assert_eq!(h.get("x").unwrap().title(), "second");
    assert_eq!(h.nodes().len(), 1);
}

#[test]
fn path_lookup_is_depth_first_by_prefix() {
    let mut h = SkeletonHandle::new();
    h.add_node(SkeletonNode::new("a", "notes"), None).unwrap();
    h.add_node(SkeletonNode::new("b", "notebook"), None).unwrap();
    h.add_node(SkeletonNode::new("c", "chapter one"), Some("b")).unwrap();
    h.add_node(SkeletonNode::new("d", "chapter two"), Some("b")).unwrap();
    assert_eq!(h.get_by_path("note").unwrap().id(), "a");
    assert_eq!(h.get_by_path("notebook").unwrap().id(), "b");
    // the first top-level match has no children, so the search goes on to the next
    assert_eq!(h.get_by_path("note:chapter").unwrap().id(), "c");
    assert_eq!(h.get_by_path("notebook:chapter t").unwrap().id(), "d");
    assert!(h.get_by_path("notebook:appendix").is_none());
    assert!(h.get_by_path("zzz").is_none());
    // an empty part matches any title
    assert_eq!(h.get_by_path(":chapter t").unwrap().id(), "d");
}

#[test]
fn listing_follows_child_order() {
    let mut h = SkeletonHandle::new();
    h.add_node(SkeletonNode::new("a", "alpha"), None).unwrap();
    h.add_node(SkeletonNode::new("b", "beta"), Some("a")).unwrap();
    h.add_node(SkeletonNode::new("c", "gamma"), Some("a")).unwrap();
    let l = h.to_listing(None).unwrap();
    assert_eq!(l.id, "root");
    assert_eq!(l.children.len(), 1);
    let a = &l.children[0];
    assert_eq!(a.title, "alpha");
    let ids: Vec<&str> = a.children.iter().map(|c| c.id.as_str()).collect();
    assert_eq!(ids, vec!["b", "c"]);
    let sub = h.to_listing(Some("a")).unwrap();
    assert_eq!(sub.children.len(), 2);
    assert_eq!(h.to_listing(Some("nope")).unwrap_err(), SkeletonError::NoSuchNode);
}

#[test]
fn listing_with_a_missing_child_fails() {
    let mut h = SkeletonHandle::new();
    let mut a = SkeletonNode::new("a", "alpha");
    a.add_child("ghost");
    h.add_node(a, None).unwrap();
    assert_eq!(h.to_listing(None).unwrap_err(), SkeletonError::NoSuchNode);
}

#[test]
fn listing_of_a_cycle_fails() {
    let mut h = SkeletonHandle::new();
    let mut a = SkeletonNode::new("a", "alpha");
    a.add_child("b");
    let mut b = SkeletonNode::new("b", "beta");
    b.add_child("a");
    h.add_node(a, None).unwrap();
    h.set_node(b).unwrap();
    assert_eq!(h.to_listing(None).unwrap_err(), SkeletonError::Cyclic);
}

#[test]
fn rebuilding_from_parts_keeps_everything() {
    let mut h = SkeletonHandle::new();
    h.add_node(SkeletonNode::new("a", "alpha"), None).unwrap();
    h.add_node(SkeletonNode::new("b", "beta"), Some("a")).unwrap();
    h.add_node(SkeletonNode::new("c", "gamma"), None).unwrap();
    let h2 = SkeletonHandle::from_parts(h.root(), h.nodes()).unwrap();
    assert_eq!(h2.top_level_ids(), h.top_level_ids());
    for id in ["a", "b", "c"] {
        let x = h.get(id).unwrap();
        let y = h2.get(id).unwrap();
        assert_eq!(x.title(), y.title());
        assert_eq!(x.child_ids(), y.child_ids());
    }
    assert_eq!(h2.nodes().len(), 3);
}

#[test]
fn from_parts_rejects_bad_input() {
    let root = SkeletonNode::new("root", "root");
    let dup = vec![SkeletonNode::new("a", "x"), SkeletonNode::new("a", "y")];
    assert_eq!(SkeletonHandle::from_parts(root.clone(), dup).unwrap_err(), SkeletonError::DuplicateId);
    let wrong_root = SkeletonNode::new("top", "root");
    assert_eq!(SkeletonHandle::from_parts(wrong_root, vec![]).unwrap_err(), SkeletonError::BadRoot);
    let twice = SkeletonNode::with_children("a".to_string(), "x".to_string(), vec!["b".to_string(), "b".to_string()]);
    assert_eq!(SkeletonHandle::from_parts(root, vec![twice]).unwrap_err(), SkeletonError::DuplicateChild);
}

#[test]
fn node_children_helpers() {
    let mut n = SkeletonNode::new("n", "t");
    assert!(!n.has_child("a"));
    n.add_child("a");
    n.add_child("a");
    n.add_child("b");
    assert!(n.has_child("a"));
    assert_eq!(n.child_ids(), vec!["a".to_string(), "b".to_string()]);
}
