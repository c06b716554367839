use vidya::tree::{Tag, Tree, Value};

fn kids(tree: &Tree, id: u32) -> Vec<u32> {
    tree.children(id)
}

#[test]
fn root_exists_and_is_a_window() {
    let tree = Tree::default();
    assert!(tree.node_exists(tree.root()));
    assert_eq!(tree.tag(tree.root()), Some(Tag::Window));
}

#[test]
fn append_parents_once_even_when_reparenting() {
    let mut tree = Tree::default();
    let a = tree.new_node("vbox");
    let b = tree.new_node("hbox");
    let leaf = tree.new_node("label");
    tree.append(tree.root(), a);
    tree.append(tree.root(), b);

    tree.append(a, leaf);
    tree.append(b, leaf);
    assert_eq!(kids(&tree, a), Vec::<u32>::new());
    assert_eq!(kids(&tree, b), vec![leaf]);
}

#[test]
fn a_cycle_is_refused() {
    let mut tree = Tree::default();
    let outer = tree.new_node("vbox");
    let inner = tree.new_node("vbox");
    tree.append(tree.root(), outer);
    tree.append(outer, inner);
    assert!(!tree.append(inner, outer));
    assert_eq!(kids(&tree, inner), Vec::<u32>::new());
}

#[test]
fn remove_frees_the_whole_subtree_and_reuses_slots() {
    let mut tree = Tree::default();
    let parent = tree.new_node("vbox");
    let child = tree.new_node("label");
    tree.append(tree.root(), parent);
    tree.append(parent, child);

    tree.remove(tree.root(), parent);
    assert!(!tree.node_exists(parent));
    assert!(!tree.node_exists(child));
    assert_eq!(tree.new_node("label"), child);
}

#[test]
fn remove_ignores_a_child_of_someone_else() {
    let mut tree = Tree::default();
    let a = tree.new_node("vbox");
    let b = tree.new_node("vbox");
    let leaf = tree.new_node("label");
    tree.append(tree.root(), a);
    tree.append(tree.root(), b);
    tree.append(a, leaf);

    tree.remove(b, leaf);
    assert!(tree.node_exists(leaf));
    assert_eq!(kids(&tree, a), vec![leaf]);
}

#[test]
fn insert_after_reorders_in_both_directions() {
    let mut tree = Tree::default();
    let parent = tree.new_node("vbox");
    tree.append(tree.root(), parent);
    let a = tree.new_node("label");
    let b = tree.new_node("label");
    let c = tree.new_node("label");
    for id in [a, b, c] {
        tree.append(parent, id);
    }

    // Move a forward, past two siblings.
    assert!(tree.insert_after(parent, a, c));
    assert_eq!(kids(&tree, parent), vec![b, c, a]);
    // And back to the front.
    assert!(tree.insert_after(parent, a, 0));
    assert_eq!(kids(&tree, parent), vec![a, b, c]);
    // A no-op move keeps the order it already had.
    assert!(tree.insert_after(parent, b, a));
    assert_eq!(kids(&tree, parent), vec![a, b, c]);
}

#[test]
fn replace_swaps_in_place_and_drops_the_old_node() {
    let mut tree = Tree::default();
    let parent = tree.new_node("vbox");
    tree.append(tree.root(), parent);
    let a = tree.new_node("label");
    let b = tree.new_node("label");
    let c = tree.new_node("button");
    tree.append(parent, a);
    tree.append(parent, b);

    assert!(tree.replace(parent, a, c));
    assert_eq!(kids(&tree, parent), vec![c, b]);
    assert!(!tree.node_exists(a));
}

#[test]
fn props_round_trip_and_clear() {
    let mut tree = Tree::default();
    let id = tree.new_node("button");
    tree.set(id, "label", Value::Str("Save".into()));
    tree.set(id, "value", Value::Num(0.5f64.to_bits()));
    tree.set(id, "active", Value::Bool(true));
    assert_eq!(tree.get(id, "label"), Some(&Value::Str("Save".into())));
    assert_eq!(tree.get(id, "value"), Some(&Value::Num(0.5f64.to_bits())));
    assert_eq!(tree.get(id, "active"), Some(&Value::Bool(true)));

    tree.clear_props(id);
    assert_eq!(tree.get(id, "label"), None);
}

#[test]
fn events_drain_in_order_and_skip_removed_nodes() {
    let mut tree = Tree::default();
    let a = tree.new_node("button");
    let b = tree.new_node("button");
    tree.append(tree.root(), a);
    tree.append(tree.root(), b);
    tree.emit(a, "click", String::new(), 0.0f64.to_bits());
    tree.emit(b, "click", String::new(), 0.0f64.to_bits());

    // Dropping `a` must drop the event still queued against it.
    tree.remove(tree.root(), a);
    assert!(tree.poll());
    assert_eq!(tree.current().unwrap().node, b);
    assert!(!tree.poll());
    assert!(tree.current().is_none());
}

#[test]
fn unknown_tags_are_kept_as_boxes() {
    let mut tree = Tree::default();
    let id = tree.new_node("carousel");
    assert!(tree.node_exists(id));
    assert_eq!(tree.tag(id), Some(Tag::Unknown));
}

#[test]
fn tag_names_read_back() {
    let mut tree = Tree::default();
    let id = tree.new_node("button");
    assert_eq!(tree.tag_name(id), "button");
    assert_eq!(tree.tag_name(tree.root()), "window");
    assert_eq!(Tag::parse("label"), Tag::Label);
    assert_eq!(Tag::parse(Tag::Label.name()), Tag::Label);
}

#[test]
fn setting_a_prop_twice_keeps_the_last_value() {
    let mut tree = Tree::default();
    let id = tree.new_node("label");
    tree.set(id, "text", Value::Str("a".into()));
    tree.set(id, "text", Value::Str("b".into()));
    assert_eq!(tree.get(id, "text"), Some(&Value::Str("b".into())));
}

#[test]
fn child_at_and_count_follow_appends() {
    let mut tree = Tree::default();
    let p = tree.new_node("vbox");
    let x = tree.new_node("label");
    let y = tree.new_node("label");
    tree.append(p, x);
    tree.append(p, y);
    assert_eq!(tree.child_count(p), 2);
    assert_eq!(tree.child_at(p, 1), y);
    assert_eq!(tree.child_at(p, 5), 0);
}

#[test]
fn the_unknown_tag_round_trips_through_its_empty_name() {
    assert_eq!(Tag::Unknown.name(), "");
    assert_eq!(Tag::parse(Tag::Unknown.name()), Tag::Unknown);
    assert_eq!(Tag::parse("carousel"), Tag::Unknown);
}
