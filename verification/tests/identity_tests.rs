use drag_list::errors::DragError;
use drag_list::identity::id_of;
use drag_list::identity::key_of;

#[test]
fn key_of_formats_small_ids() {
    assert_eq!(key_of(0).as_str(), "item-0");
    assert_eq!(key_of(1).as_str(), "item-1");
    assert_eq!(key_of(42).as_str(), "item-42");
    assert_eq!(key_of(1000).as_str(), "item-1000");
}

#[test]
fn key_of_formats_negative_ids() {
    assert_eq!(key_of(-1).as_str(), "item--1");
    assert_eq!(key_of(-700).as_str(), "item--700");
}

#[test]
fn key_of_formats_extreme_ids() {
    assert_eq!(key_of(i64::MAX).as_str(), "item-9223372036854775807");
    assert_eq!(key_of(i64::MIN).as_str(), "item--9223372036854775808");
}

#[test]
fn id_of_inverts_key_of() {
    for id in [0i64, 1, 9, 10, 42, 12345, -1, -10, -99999, i64::MAX, i64::MIN] {
        let key = key_of(id);
        assert_eq!(id_of(key.as_str()), Ok(id));
    }
}

#[test]
fn id_of_accepts_extreme_keys() {
    assert_eq!(id_of("item-9223372036854775807"), Ok(i64::MAX));
    assert_eq!(id_of("item--9223372036854775808"), Ok(i64::MIN));
}

#[test]
fn id_of_rejects_wrong_prefix() {
    assert_eq!(id_of(""), Err(DragError::MalformedKey));
    assert_eq!(id_of("item"), Err(DragError::MalformedKey));
    assert_eq!(id_of("item-"), Err(DragError::MalformedKey));
    assert_eq!(id_of("user-1"), Err(DragError::MalformedKey));
    assert_eq!(id_of("Item-1"), Err(DragError::MalformedKey));
}

#[test]
fn id_of_rejects_non_canonical_digits() {
    assert_eq!(id_of("item-01"), Err(DragError::MalformedKey));
    assert_eq!(id_of("item-00"), Err(DragError::MalformedKey));
    assert_eq!(id_of("item--0"), Err(DragError::MalformedKey));
    assert_eq!(id_of("item--01"), Err(DragError::MalformedKey));
    assert_eq!(id_of("item-1a"), Err(DragError::MalformedKey));
    assert_eq!(id_of("item- 1"), Err(DragError::MalformedKey));
    assert_eq!(id_of("item--"), Err(DragError::MalformedKey));
    assert_eq!(id_of("item-1-2"), Err(DragError::MalformedKey));
}

#[test]
fn id_of_rejects_out_of_range_values() {
    assert_eq!(id_of("item-9223372036854775808"), Err(DragError::MalformedKey));
    assert_eq!(id_of("item--9223372036854775809"), Err(DragError::MalformedKey));
    assert_eq!(id_of("item-99999999999999999999"), Err(DragError::MalformedKey));
    assert_eq!(
        id_of("item-340282366920938463463374607431768211456"),
        Err(DragError::MalformedKey)
    );
}
