use kyute::compositor::{Composition, CompositionBuilder, LayerKind, StackOp};

/// Builds a first frame: a picture, a group holding two pictures, a picture.
fn first_frame() -> (Composition, Vec<kyute::compositor::LayerID>) {
    let mut b = CompositionBuilder::new(None);
    let (p0, reused0) = b.push_picture_layer();
    assert!(!reused0);
    let g = b.enter_group(None);
    let (p1, _) = b.push_picture_layer();
    let (p2, _) = b.push_picture_layer();
    b.exit_group();
    let (p3, _) = b.push_picture_layer();
    (b.finish(), vec![p0, g, p1, p2, p3])
}

#[test]
fn building_a_frame_lays_out_the_stack() {
    let (comp, ids) = first_frame();
    let (p0, g, p1, p2, p3) = (ids[0], ids[1], ids[2], ids[3], ids[4]);
    assert_eq!(comp.placed_layers(), vec![p0, p1, p2, p3]);
    let b = CompositionBuilder::new(Some(comp));
    assert_eq!(b.current(), Some(StackOp::Layer(p0)));
    assert_eq!(b.group_range(g), Some(1..4));
    assert_eq!(b.group_len(1), 3);
    assert_eq!(b.find_next_at_matching_depth(StackOp::Layer(p3)), Some(5));
    // p1 lies inside the group: not at matching depth
    assert_eq!(b.find_next_at_matching_depth(StackOp::Layer(p1)), None);
    assert_eq!(b.find_next_at_matching_depth(StackOp::Exit), None);
}

#[test]
fn an_empty_group_is_an_enter_and_an_exit() {
    let mut b = CompositionBuilder::new(None);
    let g = b.enter_group(None);
    assert_eq!(b.sp(), 1);
    b.exit_group();
    assert_eq!(b.sp(), 2);
    let comp = b.finish();
    let b = CompositionBuilder::new(Some(comp));
    assert_eq!(b.current(), Some(StackOp::Enter(g)));
    assert_eq!(b.group_range(g), Some(0..1));
}

#[test]
fn next_frame_reuses_pictures() {
    let (comp, ids) = first_frame();
    let mut b = CompositionBuilder::new(Some(comp));
    let (q0, reused) = b.push_picture_layer();
    assert!(reused);
    assert_eq!(q0, ids[0]);
}

#[test]
fn reusing_a_group_moves_it_to_the_current_position() {
    let (comp, ids) = first_frame();
    let (p0, g, p1, p2) = (ids[0], ids[1], ids[2], ids[3]);
    let mut b = CompositionBuilder::new(Some(comp));
    b.reuse_group(g);
    // the group (its Enter and content) moved before p0; the position is past it
    assert_eq!(b.sp(), 3);
    let comp = b.finish();
    assert_eq!(comp.placed_layers(), vec![p1, p2, p0, ids[4]]);
}

#[test]
fn entering_a_previous_group_moves_it() {
    let (comp, ids) = first_frame();
    let (g, p1) = (ids[1], ids[2]);
    let mut b = CompositionBuilder::new(Some(comp));
    assert_eq!(b.enter_group(Some(g)), g);
    assert_eq!(b.sp(), 1);
    let (q, reused) = b.push_picture_layer();
    assert!(reused);
    assert_eq!(q, p1);
}

#[test]
fn exit_group_drops_stale_operations() {
    let (comp, ids) = first_frame();
    let (g, p1, p3) = (ids[1], ids[2], ids[4]);
    let mut b = CompositionBuilder::new(Some(comp));
    b.enter_group(Some(g));
    b.push_picture_layer();
    // p2 is not reused: exiting the group removes it
    b.exit_group();
    let comp = b.finish();
    // p2 and p0, left between the group's content and its Exit, are gone
    let placed = comp.placed_layers();
    assert_eq!(placed[0], p1);
    assert!(placed.contains(&p3));
    assert!(!placed.contains(&ids[3]));
}

#[test]
fn finish_drops_layers_not_used_in_the_revision() {
    let (comp, ids) = first_frame();
    let mut b = CompositionBuilder::new(Some(comp));
    let (q0, _) = b.push_picture_layer();
    assert_eq!(q0, ids[0]);
    let comp = b.finish();
    // the stack is kept as it is; only the layers' liveness changes
    assert_eq!(comp.placed_layers().len(), 4);
    assert!(comp.contains_layer(ids[0]));
    for id in &ids[1..] {
        assert!(!comp.contains_layer(*id));
    }
    let mut b = CompositionBuilder::new(Some(comp));
    // a layer of the new revision at the current position is reused...
    let (again, reused) = b.push_picture_layer();
    assert!(reused);
    assert_eq!(again, ids[0]);
}

#[test]
fn default_composition_is_empty() {
    let c = Composition::default();
    assert!(c.placed_layers().is_empty());
    let k = LayerKind::Picture;
    assert_ne!(k, LayerKind::Group);
}
