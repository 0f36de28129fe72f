use drag_list::list::DropOutcome;
use drag_list::list::DropTarget;
use drag_list::list::ListView;
use drag_list::list::Rendered;
use drag_list::session::TransferChannel;
use drag_list::session::begin_drag;

fn list_of(ids: &[i64]) -> ListView {
    let items = ids.iter().map(|&id| Rendered { id, hover: false }).collect();
    ListView { items }
}

fn hovered_positions(lv: &ListView) -> Vec<usize> {
    (0..lv.len()).filter(|&i| lv.is_hovered(i)).collect()
}

#[test]
fn drag_enter_marks_only_its_target() {
    let mut lv = list_of(&[1, 2, 3]);
    lv.drag_enter(1);
    assert_eq!(hovered_positions(&lv), vec![1]);
}

#[test]
fn drag_enter_is_idempotent() {
    let mut lv = list_of(&[1, 2, 3]);
    lv.drag_enter(1);
    lv.drag_enter(1);
    assert_eq!(hovered_positions(&lv), vec![1]);
}

#[test]
fn drag_leave_is_idempotent() {
    let mut lv = list_of(&[1, 2, 3]);
    lv.drag_leave(2);
    lv.drag_leave(2);
    assert_eq!(hovered_positions(&lv), Vec::<usize>::new());
}

#[test]
fn at_most_one_hover_across_a_gesture() {
    // the pointer wanders 0 -> 1 -> 2; the platform fires a leave before
    // each new enter, and the indicator never sits on two elements at once
    let mut lv = list_of(&[1, 2, 3]);
    lv.drag_enter(0);
    assert!(hovered_positions(&lv).len() <= 1);
    lv.drag_leave(0);
    lv.drag_enter(1);
    assert!(hovered_positions(&lv).len() <= 1);
    lv.drag_leave(1);
    lv.drag_enter(2);
    assert!(hovered_positions(&lv).len() <= 1);
    assert_eq!(hovered_positions(&lv), vec![2]);
}

#[test]
fn drag_leave_clears_the_indicator() {
    let mut lv = list_of(&[1, 2, 3]);
    lv.drag_enter(2);
    lv.drag_leave(2);
    assert_eq!(hovered_positions(&lv), Vec::<usize>::new());
}

#[test]
fn drop_clears_the_indicator_on_its_target() {
    let mut lv = list_of(&[1, 2, 3]);
    let mut ch = TransferChannel::new();
    begin_drag(&mut ch, 1);
    lv.drag_enter(2);
    let r = lv.handle_drop(&ch, DropTarget::Element(2));
    assert_eq!(r, Ok(DropOutcome::Moved));
    assert_eq!(hovered_positions(&lv), Vec::<usize>::new());
    assert_eq!(lv.order(), vec![2, 1, 3]);
}

#[test]
fn failed_drop_still_leaves_no_stray_indicator_on_target() {
    // the platform fires no drag-leave on the drop target at drop time,
    // so the drop handler itself must clear the indicator even when the
    // key is stale and nothing moves
    let mut lv = list_of(&[1, 2, 3]);
    let ch = TransferChannel::carrying("item-9".to_string());
    lv.drag_enter(1);
    let _ = lv.handle_drop(&ch, DropTarget::Element(1));
    assert_eq!(hovered_positions(&lv), Vec::<usize>::new());
    assert_eq!(lv.order(), vec![1, 2, 3]);
}

#[test]
fn sessionless_drop_still_clears_the_indicator() {
    // an empty transfer channel makes the drop a no-op for the order,
    // but the drop target's indicator is cleared all the same
    let mut lv = list_of(&[1, 2, 3]);
    let ch = TransferChannel::new();
    lv.drag_enter(0);
    let _ = lv.handle_drop(&ch, DropTarget::Element(0));
    assert_eq!(hovered_positions(&lv), Vec::<usize>::new());
    assert_eq!(lv.order(), vec![1, 2, 3]);
}

#[test]
fn malformed_drop_still_clears_the_indicator() {
    let mut lv = list_of(&[1, 2, 3]);
    let ch = TransferChannel::carrying("not a key".to_string());
    lv.drag_enter(2);
    let _ = lv.handle_drop(&ch, DropTarget::Element(2));
    assert_eq!(hovered_positions(&lv), Vec::<usize>::new());
    assert_eq!(lv.order(), vec![1, 2, 3]);
}
