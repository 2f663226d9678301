use termdoc::layout::{split_rect_exec, LayoutNode, Ratio, Rect, SplitDir, SplitDirection};
use termdoc::popup::{PopupPosition, PopupWindow};
use termdoc::workspace::{Engine, EngineEvent, EngineEventKind};
use termdoc::input_engine::DocType;

fn rect(x: usize, y: usize, width: usize, height: usize) -> Rect {
    Rect { x, y, width, height }
}

fn leaf(id: &str) -> LayoutNode {
    LayoutNode::Leaf(id.to_string())
}

fn split(direction: SplitDir, first: LayoutNode, second: LayoutNode) -> LayoutNode {
    LayoutNode::Split { direction, ratio: Ratio::half(), first: Box::new(first), second: Box::new(second) }
}

fn ids(rects: &[(String, Rect)]) -> Vec<String> {
    rects.iter().map(|(w, _)| w.clone()).collect()
}

#[test]
fn vertical_half_split_rects() {
    let t = split(SplitDir::Vert, leaf("A"), leaf("B"));
    let r = t.get_rects(&rect(0, 0, 10, 10));
    assert_eq!(r, vec![("A".to_string(), rect(0, 0, 10, 5)), ("B".to_string(), rect(0, 5, 10, 5))]);
}

#[test]
fn split_extent_is_truncated() {
    let third = Ratio::new(1, 3).unwrap();
    let (a, b) = split_rect_exec(&rect(2, 4, 10, 7), SplitDir::Horz, third);
    assert_eq!(a, rect(2, 4, 3, 7));
    assert_eq!(b, rect(5, 4, 7, 7));
    let (a, b) = split_rect_exec(&rect(0, 0, 5, 5), SplitDir::Vert, Ratio::half());
    assert_eq!(a.height, 2);
    assert_eq!(b, rect(0, 2, 5, 3));
    assert!(Ratio::new(2, 2).is_none());
    assert!(Ratio::new(0, 2).is_none());
}

#[test]
fn nested_rects_in_preorder() {
    let t = split(SplitDir::Horz, leaf("A"), split(SplitDir::Vert, leaf("B"), leaf("C")));
    let r = t.get_rects(&rect(0, 0, 20, 10));
    assert_eq!(ids(&r), vec!["A", "B", "C"]);
    assert_eq!(r[0].1, rect(0, 0, 10, 10));
    assert_eq!(r[1].1, rect(10, 0, 10, 5));
    assert_eq!(r[2].1, rect(10, 5, 10, 5));
}

#[test]
fn removing_one_of_two_leaves_collapses() {
    let t = split(SplitDir::Vert, leaf("A"), leaf("B"));
    match t.remove_window("A") {
        Some(LayoutNode::Leaf(w)) => assert_eq!(w, "B"),
        _ => panic!("expected the other leaf"),
    }
}

#[test]
fn removing_twice_changes_nothing_more() {
    let t = split(SplitDir::Horz, leaf("A"), split(SplitDir::Vert, leaf("B"), leaf("C")));
    let once = t.remove_window("B").unwrap();
    let rects_once = once.get_rects(&rect(0, 0, 20, 10));
    assert_eq!(ids(&rects_once), vec!["A", "C"]);
    let twice = once.remove_window("B").unwrap();
    assert_eq!(twice.get_rects(&rect(0, 0, 20, 10)), rects_once);
}

#[test]
fn removing_last_window_empties_tree() {
    assert!(leaf("A").remove_window("A").is_none());
    assert!(split(SplitDir::Vert, leaf("A"), leaf("A")).remove_window("A").is_none());
}

#[test]
fn split_window_places_new_leaf_by_direction() {
    let area = rect(0, 0, 10, 10);
    let up = leaf("A").split_window("A", "N".to_string(), SplitDirection::Up, Ratio::half());
    assert_eq!(ids(&up.get_rects(&area)), vec!["N", "A"]);
    let down = leaf("A").split_window("A", "N".to_string(), SplitDirection::Down, Ratio::half());
    assert_eq!(ids(&down.get_rects(&area)), vec!["A", "N"]);
    let left = leaf("A").split_window("A", "N".to_string(), SplitDirection::Left, Ratio::half());
    assert_eq!(left.get_rects(&area)[0], ("N".to_string(), rect(0, 0, 5, 10)));
    let right = leaf("A").split_window("A", "N".to_string(), SplitDirection::Right, Ratio::half());
    assert_eq!(right.get_rects(&area)[1], ("N".to_string(), rect(5, 0, 5, 10)));
    let missing = leaf("A").split_window("Z", "N".to_string(), SplitDirection::Up, Ratio::half());
    assert_eq!(ids(&missing.get_rects(&area)), vec!["A"]);
}

#[test]
fn find_child_finds_leaf() {
    let t = split(SplitDir::Horz, leaf("A"), split(SplitDir::Vert, leaf("B"), leaf("C")));
    assert!(matches!(t.find_child("C"), Some(LayoutNode::Leaf(w)) if w == "C"));
    assert!(t.find_child("Q").is_none());
    assert!(t.contains_window("A"));
}

#[test]
fn neighbor_lookup() {
    let t = split(SplitDir::Horz, leaf("A"), split(SplitDir::Vert, leaf("B"), leaf("C")));
    let area = rect(0, 0, 20, 10);
    assert_eq!(t.get_neighbor("A", SplitDirection::Right, &area).as_deref(), Some("B"));
    assert_eq!(t.get_neighbor("C", SplitDirection::Up, &area).as_deref(), Some("B"));
    assert_eq!(t.get_neighbor("C", SplitDirection::Left, &area).as_deref(), Some("A"));
    assert_eq!(t.get_neighbor("A", SplitDirection::Left, &area), None);
    assert_eq!(t.get_neighbor("Q", SplitDirection::Left, &area), None);
}

#[test]
fn window_at_point() {
    let t = split(SplitDir::Vert, leaf("A"), leaf("B"));
    let area = rect(0, 0, 10, 10);
    assert_eq!(t.window_at(&area, 3, 7).as_deref(), Some("B"));
    assert_eq!(t.window_at(&area, 3, 4).as_deref(), Some("A"));
    assert_eq!(t.window_at(&area, 30, 4), None);
}

#[test]
fn popup_rects() {
    let mut p = PopupWindow { layout: leaf("P"), position: PopupPosition::Center, width: 4, height: 2 };
    assert_eq!(p.get_rect(&rect(0, 0, 20, 10)), rect(8, 4, 4, 2));
    p.position = PopupPosition::TopRight;
    assert_eq!(p.get_rect(&rect(0, 0, 20, 10)), rect(16, 0, 4, 2));
    p.position = PopupPosition::BottomLeft;
    assert_eq!(p.get_rect(&rect(0, 0, 20, 10)), rect(0, 8, 4, 2));
    p.position = PopupPosition::TopLeft;
    assert_eq!(p.get_rect(&rect(0, 0, 20, 10)), rect(0, 0, 4, 2));
}

#[test]
fn engine_split_move_and_close() {
    let mut e = Engine::with_ids("w1".to_string(), "d1".to_string());
    let id = e
        .create_split_window_with_id("w2".to_string(), "d1".to_string(), "w1", SplitDirection::Down, None, true)
        .unwrap();
    assert_eq!(id, "w2");
    assert_eq!(e.active_window, "w2");
    assert!(matches!(e.events.last(), Some(EngineEvent::WindowCreate(w)) if w == "w2"));
    let area = rect(0, 0, 10, 10);
    assert_eq!(e.move_window(SplitDirection::Up, &area).unwrap().as_deref(), Some("w1"));
    assert_eq!(e.active_window, "w1");
    assert_eq!(e.events.last().unwrap().kind(), EngineEventKind::LayoutChange);
    assert_eq!(e.move_window(SplitDirection::Up, &area).unwrap(), None);
    assert_eq!(e.process_mouse(2, 8, &area).as_deref(), Some("w2"));
    assert_eq!(e.active_window, "w2");
    e.close_window("w2").unwrap();
    assert_eq!(e.active_window, "w1");
    assert!(matches!(&e.layout, Some(LayoutNode::Leaf(w)) if w == "w1"));
    assert_eq!(e.close_window("w2").unwrap_err(), "Window `w2` not found in layout");
}

#[test]
fn engine_split_errors() {
    let mut e = Engine::with_ids("w1".to_string(), "d1".to_string());
    let r = e.create_split_window_with_id("w2".to_string(), "d1".to_string(), "nope", SplitDirection::Up, None, false);
    assert_eq!(r.unwrap_err(), "Could not find layout");
    let r = e.create_split_window_with_id("w1".to_string(), "d1".to_string(), "w1", SplitDirection::Up, None, false);
    assert_eq!(r.unwrap_err(), "Window id already in use");
    e.layout = None;
    let r = e.create_split_window_with_id("w2".to_string(), "d1".to_string(), "w1", SplitDirection::Up, None, false);
    assert_eq!(r.unwrap_err(), "Invalid Layout");
    assert_eq!(e.close_window("w1").unwrap_err(), "No Valid Layout");
    assert_eq!(e.move_window(SplitDirection::Up, &rect(0, 0, 4, 4)).unwrap_err(), "No Valid Layout");
}

#[test]
fn closing_last_window_reports_none_left() {
    let mut e = Engine::with_ids("w1".to_string(), "d1".to_string());
    assert_eq!(e.close_window("w1").unwrap_err(), "No windows left after closing window");
    assert!(e.layout.is_none());
    assert!(e.windows.is_empty());
}

#[test]
fn engine_focus_and_ids() {
    let mut e = Engine::new();
    assert_eq!(e.active_window.len(), 36);
    let f = e.current_focus().unwrap();
    assert_eq!(f.doc_type, DocType::Text);
    assert!(f.insertable);
    let active = e.active_window.clone();
    let id = e.create_window("d9".to_string(), active.as_str(), SplitDirection::Right, None, false).unwrap();
    assert_eq!(id.len(), 36);
    assert_ne!(id, active);
    let g = e.get_window(&id).unwrap();
    assert_eq!(g.document_id, "d9");
    e.add_document("help".to_string(), DocType::Info).unwrap();
    assert_eq!(e.add_document("help".to_string(), DocType::Text).unwrap_err(), "Document id already in use");
    assert!(e.get_current_window().is_some());
    e.kill();
    assert!(e.should_quit);
}

#[test]
fn floating_window_becomes_the_popup() {
    let mut e = Engine::with_ids("w1".to_string(), "d1".to_string());
    let id = e
        .create_floating_window_with_id("pop".to_string(), "d2".to_string(), PopupPosition::Center, 6, 3, true)
        .unwrap();
    assert_eq!(id, "pop");
    assert_eq!(e.active_window, "pop");
    let p = e.popups.as_mut().unwrap();
    assert_eq!(p.get_rect(&rect(0, 0, 20, 10)), rect(7, 4, 6, 3));
    assert!(matches!(&p.layout, LayoutNode::Leaf(w) if w == "pop"));
    let again = e.create_floating_window_with_id("pop".to_string(), "d2".to_string(), PopupPosition::TopLeft, 1, 1, false);
    assert_eq!(again.unwrap_err(), "Window id already in use");
    let fresh = e.create_popup("d3".to_string(), PopupPosition::TopLeft, 2, 2, false).unwrap();
    assert_eq!(fresh.len(), 36);
    assert_eq!(e.active_window, "pop");
}

#[test]
fn split_window_document_makes_the_document() {
    let mut e = Engine::with_ids("w1".to_string(), "d1".to_string());
    let id = e
        .split_window_document_with_ids("w2".to_string(), "d2".to_string(), DocType::SpreadSheet, SplitDirection::Right)
        .unwrap();
    assert_eq!(id, "w2");
    assert_eq!(e.active_window, "w1");
    assert_eq!(e.get_window("w2").unwrap().document_id, "d2");
    assert_eq!(e.docs.len(), 2);
    assert!(matches!(e.events.last(), Some(EngineEvent::DocumentCreate(d)) if d == "d2"));
    let rects = e.layout.as_ref().unwrap().get_rects(&rect(0, 0, 10, 4));
    assert_eq!(rects[1], ("w2".to_string(), rect(5, 0, 5, 4)));
    let again = e.split_window_document_with_ids("w3".to_string(), "d2".to_string(), DocType::Text, SplitDirection::Up);
    assert_eq!(again.unwrap_err(), "Document id already in use");
    assert_eq!(e.docs.len(), 2);
    let (w, d) = e.split_window_document(DocType::Text, SplitDirection::Up).unwrap();
    assert_eq!(w.len(), 36);
    assert_eq!(e.get_window(&w).unwrap().document_id, d);
}

#[test]
fn closing_active_window_activates_first_window_left() {
    let mut e = Engine::with_ids("w1".to_string(), "d1".to_string());
    e.create_split_window_with_id("w2".to_string(), "d1".to_string(), "w1", SplitDirection::Left, None, true)
        .unwrap();
    e.create_split_window_with_id("w3".to_string(), "d1".to_string(), "w1", SplitDirection::Down, None, false)
        .unwrap();
    assert_eq!(e.active_window, "w2");
    e.close_window("w2").unwrap();
    assert_eq!(e.active_window, "w1");
    assert!(e.get_window("w2").is_none());
    assert_eq!(e.windows.len(), 2);
}
