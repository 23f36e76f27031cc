use beetle::error::Error;
use beetle::geometry::Rect;
use beetle::widget::{set_parent_internal, Widget, WidgetInternal, WidgetTree};

fn tree_with(n: usize) -> (WidgetTree, Vec<u64>) {
    let mut tree = WidgetTree::new();
    let mut ids = Vec::new();
    for i in 0..n {
        let id = tree
            .new_widget(Rect::new(i as u32, 0, 50, 50))
            .expect("identity space exhausted");
        ids.push(id);
    }
    (tree, ids)
}

fn occurrences(children: &[u64], id: u64) -> usize {
    children.iter().filter(|&&c| c == id).count()
}

#[test]
fn set_parent_links_child() {
    let (mut tree, ids) = tree_with(2);
    let (p, w) = (ids[0], ids[1]);
    tree.set_parent(w, p).unwrap();
    assert_eq!(tree.parent(w).unwrap(), Some(p));
    let children = tree.children(p).unwrap();
    assert_eq!(occurrences(&children, w), 1);
}

#[test]
fn reparent_moves_child() {
    let (mut tree, ids) = tree_with(3);
    let (p1, p2, w) = (ids[0], ids[1], ids[2]);
    tree.set_parent(w, p1).unwrap();
    tree.set_parent(w, p2).unwrap();
    assert_eq!(tree.parent(w).unwrap(), Some(p2));
    assert_eq!(occurrences(&tree.children(p1).unwrap(), w), 0);
    assert_eq!(occurrences(&tree.children(p2).unwrap(), w), 1);
    let mut total: usize = 0;
    for q in [p1, p2, w] {
        total += occurrences(&tree.children(q).unwrap(), w);
    }
    assert_eq!(total, 1);
}

#[test]
fn set_parent_internal_appends_in_order() {
    let (mut tree, ids) = tree_with(3);
    let (p, a, b) = (ids[0], ids[1], ids[2]);
    set_parent_internal(&mut tree, p, a).unwrap();
    set_parent_internal(&mut tree, p, b).unwrap();
    assert_eq!(tree.children(p).unwrap(), vec![a, b]);
}

#[test]
fn reparent_to_same_parent_moves_to_end() {
    let (mut tree, ids) = tree_with(3);
    let (p, a, b) = (ids[0], ids[1], ids[2]);
    tree.set_parent(a, p).unwrap();
    tree.set_parent(b, p).unwrap();
    tree.set_parent(a, p).unwrap();
    assert_eq!(tree.children(p).unwrap(), vec![b, a]);
}

#[test]
fn add_child_mirrors_set_parent() {
    let (mut tree, ids) = tree_with(2);
    let (p, w) = (ids[0], ids[1]);
    tree.add_child(p, w).unwrap();
    assert_eq!(tree.parent(w).unwrap(), Some(p));
    assert_eq!(tree.children(p).unwrap(), vec![w]);
}

#[test]
fn remove_child_absent_is_noop() {
    let (mut tree, ids) = tree_with(2);
    let (p, w) = (ids[0], ids[1]);
    tree.set_parent(w, p).unwrap();
    assert!(tree.remove_child(p, 424242).is_ok());
    assert_eq!(tree.children(p).unwrap(), vec![w]);
    assert_eq!(tree.parent(w).unwrap(), Some(p));
}

#[test]
fn remove_child_clears_back_edge() {
    let (mut tree, ids) = tree_with(2);
    let (p, w) = (ids[0], ids[1]);
    tree.set_parent(w, p).unwrap();
    tree.remove_child(p, w).unwrap();
    assert_eq!(tree.children(p).unwrap(), Vec::<u64>::new());
    assert_eq!(tree.parent(w).unwrap(), None);
}

#[test]
fn bounds_roundtrip() {
    let (mut tree, ids) = tree_with(1);
    let w = ids[0];
    assert_eq!(tree.bounds(w).unwrap(), Rect::new(0, 0, 50, 50));
    tree.set_bounds(w, Rect::new(3, 4, 5, 6)).unwrap();
    assert_eq!(tree.bounds(w).unwrap(), Rect::new(3, 4, 5, 6));
}

#[test]
fn exclusive_borrow_blocks_reads_and_writes() {
    let (mut tree, ids) = tree_with(1);
    let w = ids[0];
    tree.borrow_inner_mut(w).unwrap();
    assert_eq!(tree.bounds(w), Err(Error::BorrowConflict));
    assert_eq!(tree.id(w), Err(Error::BorrowConflict));
    assert_eq!(tree.set_bounds(w, Rect::new(1, 1, 1, 1)), Err(Error::BorrowConflict));
    tree.release_inner_mut(w);
    assert!(tree.bounds(w).is_ok());
}

#[test]
fn shared_borrow_blocks_writes_only() {
    let (mut tree, ids) = tree_with(1);
    let w = ids[0];
    tree.borrow_inner(w).unwrap();
    assert_eq!(tree.bounds(w).unwrap(), Rect::new(0, 0, 50, 50));
    assert_eq!(tree.id(w).unwrap(), w);
    assert_eq!(tree.set_bounds(w, Rect::new(1, 1, 1, 1)), Err(Error::BorrowConflict));
    assert_eq!(tree.borrow_inner_mut(w), Err(Error::BorrowConflict));
    tree.borrow_inner(w).unwrap();
    tree.release_inner(w);
    tree.release_inner(w);
    assert!(tree.set_bounds(w, Rect::new(1, 1, 1, 1)).is_ok());
}

#[test]
fn set_parent_fails_fast_on_borrowed_record() {
    let (mut tree, ids) = tree_with(2);
    let (p, w) = (ids[0], ids[1]);
    tree.borrow_inner_mut(p).unwrap();
    assert_eq!(tree.set_parent(w, p), Err(Error::BorrowConflict));
    // nothing was half-updated
    assert_eq!(tree.parent(w).unwrap(), None);
    tree.release_inner_mut(p);
    assert!(tree.set_parent(w, p).is_ok());
}

#[test]
fn self_parenting_is_representable() {
    let (mut tree, ids) = tree_with(1);
    let w = ids[0];
    tree.set_parent(w, w).unwrap();
    assert_eq!(tree.parent(w).unwrap(), Some(w));
    assert_eq!(occurrences(&tree.children(w).unwrap(), w), 1);
}

#[test]
fn identities_are_unique() {
    let (tree, ids) = tree_with(4);
    for i in 0..ids.len() {
        for j in 0..ids.len() {
            if i != j {
                assert_ne!(ids[i], ids[j]);
            }
        }
    }
    for &id in &ids {
        assert!(tree.has_widget(id));
    }
    assert!(!tree.has_widget(424242));
}

#[test]
fn widget_wraps_internal_record() {
    let record = WidgetInternal::new(9, Rect::new(1, 2, 3, 4));
    let widget = Widget::from_internal(record);
    assert_eq!(widget.internal().id(), 9);
    assert_eq!(widget.internal().bounds(), Rect::new(1, 2, 3, 4));
}
