use drag_list::errors::DragError;
use drag_list::list::DropOutcome;
use drag_list::list::DropTarget;
use drag_list::list::ListView;
use drag_list::list::Rendered;
use drag_list::session::TransferChannel;
use drag_list::session::begin_drag;
use drag_list::session::resolve_dragged_key;
use drag_list::user::User;

fn list_of(ids: &[i64]) -> ListView {
    let items = ids.iter().map(|&id| Rendered { id, hover: false }).collect();
    ListView { items }
}

#[test]
fn drop_first_on_third_moves_it_before() {
    // list [A(id=1), B(id=2), C(id=3)]; drag A, drop on C
    let mut lv = list_of(&[1, 2, 3]);
    let mut ch = TransferChannel::new();
    begin_drag(&mut ch, 1);
    let r = lv.handle_drop(&ch, DropTarget::Element(2));
    assert_eq!(r, Ok(DropOutcome::Moved));
    assert_eq!(lv.order(), vec![2, 1, 3]);
}

#[test]
fn drop_third_on_first_moves_it_to_front() {
    // list [A,B,C]; drag C, drop on A
    let mut lv = list_of(&[1, 2, 3]);
    let mut ch = TransferChannel::new();
    begin_drag(&mut ch, 3);
    let r = lv.handle_drop(&ch, DropTarget::Element(0));
    assert_eq!(r, Ok(DropOutcome::Moved));
    assert_eq!(lv.order(), vec![3, 1, 2]);
}

#[test]
fn drop_on_self_changes_nothing() {
    // list [A,B,C]; drag B, drop on B
    let mut lv = list_of(&[1, 2, 3]);
    let mut ch = TransferChannel::new();
    begin_drag(&mut ch, 2);
    let r = lv.handle_drop(&ch, DropTarget::Element(1));
    assert_eq!(r, Ok(DropOutcome::Moved));
    assert_eq!(lv.order(), vec![1, 2, 3]);
}

#[test]
fn drop_without_session_is_a_quiet_no_op() {
    // drop fires with an empty transfer channel
    let mut lv = list_of(&[1, 2, 3]);
    let ch = TransferChannel::new();
    let r = lv.handle_drop(&ch, DropTarget::Element(1));
    assert_eq!(r, Ok(DropOutcome::NoSession));
    assert_eq!(lv.order(), vec![1, 2, 3]);
}

#[test]
fn drop_on_container_appends() {
    let mut lv = list_of(&[1, 2, 3]);
    let mut ch = TransferChannel::new();
    begin_drag(&mut ch, 1);
    let r = lv.handle_drop(&ch, DropTarget::Container);
    assert_eq!(r, Ok(DropOutcome::Moved));
    assert_eq!(lv.order(), vec![2, 3, 1]);
}

#[test]
fn foreign_payload_is_rejected_without_reordering() {
    let mut lv = list_of(&[1, 2, 3]);
    let ch = TransferChannel::carrying("not a key".to_string());
    let r = lv.handle_drop(&ch, DropTarget::Element(0));
    assert_eq!(r, Err(DragError::MalformedKey));
    assert_eq!(lv.order(), vec![1, 2, 3]);
}

#[test]
fn stale_key_is_reported_without_reordering() {
    // the list changed mid-drag: the key matches no current element
    let mut lv = list_of(&[1, 2, 3]);
    let ch = TransferChannel::carrying("item-9".to_string());
    let r = lv.handle_drop(&ch, DropTarget::Element(0));
    assert_eq!(r, Err(DragError::DraggedElementNotFound));
    assert_eq!(lv.order(), vec![1, 2, 3]);
}

#[test]
fn moves_preserve_other_relative_orders() {
    let mut lv = list_of(&[10, 20, 30, 40, 50]);
    let mut ch = TransferChannel::new();
    begin_drag(&mut ch, 20);
    let r = lv.handle_drop(&ch, DropTarget::Element(4));
    assert_eq!(r, Ok(DropOutcome::Moved));
    // 20 sits immediately before 50; 10, 30, 40 keep their relative order
    assert_eq!(lv.order(), vec![10, 30, 40, 20, 50]);
}

#[test]
fn session_round_trip_carries_the_key() {
    let mut ch = TransferChannel::new();
    begin_drag(&mut ch, 7);
    let key = resolve_dragged_key(&ch).expect("a session is active");
    assert_eq!(key.as_str(), "item-7");
}

#[test]
fn resolve_on_empty_channel_reports_no_session() {
    let ch = TransferChannel::new();
    assert_eq!(resolve_dragged_key(&ch), Err(DragError::NoActiveSession));
}

#[test]
fn begin_drag_replaces_a_stale_payload() {
    let mut ch = TransferChannel::carrying("item-1".to_string());
    begin_drag(&mut ch, 2);
    let key = resolve_dragged_key(&ch).expect("a session is active");
    assert_eq!(key.as_str(), "item-2");
}

fn user(id: i64, username: &str) -> User {
    User {
        id,
        name: username.to_string(),
        username: username.to_string(),
        email: format!("{}@example.com", username),
        website: format!("{}.example.com", username),
    }
}

#[test]
fn rendering_keeps_item_order_and_shows_no_hover() {
    let users = vec![user(3, "ana"), user(1, "bo"), user(2, "cy")];
    let lv = ListView::from_users(&users);
    assert_eq!(lv.order(), vec![3, 1, 2]);
    for i in 0..lv.len() {
        assert!(!lv.is_hovered(i));
    }
}

#[test]
fn reordering_is_display_only() {
    // the backing user data stays as fetched; only the view order moves
    let users = vec![user(1, "ana"), user(2, "bo"), user(3, "cy")];
    let mut lv = ListView::from_users(&users);
    let mut ch = TransferChannel::new();
    begin_drag(&mut ch, 3);
    lv.handle_drop(&ch, DropTarget::Element(0)).expect("the drop succeeds");
    assert_eq!(lv.order(), vec![3, 1, 2]);
    assert_eq!(users[0].id, 1);
    assert_eq!(users[1].id, 2);
    assert_eq!(users[2].id, 3);
}
