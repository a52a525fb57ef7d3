use kyute::change_flags::{mark_needs_layout, mark_needs_paint, propagate_dirty_flags, ChangeFlags, WindowUpdate};
use kyute::tree::{NodeKey, Tree};

fn chain() -> (Tree<ChangeFlags>, NodeKey, NodeKey, NodeKey) {
    let mut t = Tree::new();
    let root = t.create(ChangeFlags::empty());
    let c = t.create(ChangeFlags::empty());
    let child = t.insert_as_child(c, root);
    let g = t.create(ChangeFlags::empty());
    let grandchild = t.insert_as_child(g, child);
    (t, root, child, grandchild)
}

#[test]
fn layout_reaches_the_window() {
    let (mut t, root, child, grandchild) = chain();
    assert_eq!(mark_needs_layout(&mut t, grandchild), WindowUpdate::Layout);
    for k in [root, child, grandchild] {
        assert!(t.get(k).unwrap().contains(ChangeFlags::LAYOUT));
        assert!(!t.get(k).unwrap().contains(ChangeFlags::PAINT));
    }
}

#[test]
fn paint_stops_at_an_ancestor_that_has_it() {
    let (mut t, root, child, grandchild) = chain();
    assert_eq!(mark_needs_paint(&mut t, child), WindowUpdate::Paint);
    // the flags are already on the way up: nothing reaches the window
    assert_eq!(mark_needs_paint(&mut t, grandchild), WindowUpdate::Nothing);
    assert!(t.get(grandchild).unwrap().contains(ChangeFlags::PAINT));
    assert_eq!(t.get(root).unwrap().bits(), ChangeFlags::PAINT);
}

#[test]
fn flags_accumulate() {
    let (mut t, root, _child, grandchild) = chain();
    mark_needs_paint(&mut t, grandchild);
    assert_eq!(mark_needs_layout(&mut t, grandchild), WindowUpdate::Layout);
    assert_eq!(t.get(root).unwrap().bits(), ChangeFlags::PAINT | ChangeFlags::LAYOUT);
}

#[test]
fn propagating_from_a_clean_root() {
    let (mut t, root, _, _) = chain();
    assert_eq!(propagate_dirty_flags(&mut t, root), WindowUpdate::Nothing);
    t.replace_value(root, ChangeFlags::from_bits(ChangeFlags::PAINT));
    assert_eq!(propagate_dirty_flags(&mut t, root), WindowUpdate::Paint);
    assert_eq!(ChangeFlags::NONE, 0);
}
