use blueprint::status::{group_blocked, BlockedItemRow, StatusCounts};

fn row(t: &str, id: &str, title: &str, blocker: &str) -> BlockedItemRow {
    BlockedItemRow {
        item_type: t.to_string(),
        item_id: id.to_string(),
        title: title.to_string(),
        blocker_id: blocker.to_string(),
    }
}

#[test]
fn counts_fill_missing_statuses_with_zero() {
    let c = StatusCounts::from_rows(&vec![("todo".to_string(), 2), ("done".to_string(), 5)]);
    assert_eq!(c, StatusCounts { todo: 2, in_progress: 0, done: 5 });
    assert_eq!(c.total(), 7);
    let empty = StatusCounts::from_rows(&vec![]);
    assert_eq!(empty.total(), 0);
}

#[test]
fn blocked_rows_grouped_by_item_in_key_order() {
    let groups = group_blocked(vec![
        row("task", "t2", "Second", "b1"),
        row("epic", "e1", "Epic one", "x"),
        row("task", "t1", "First", "b2"),
        row("task", "t2", "Second again", "b3"),
    ]);
    assert_eq!(groups.len(), 3);
    assert_eq!((groups[0].item_type.as_str(), groups[0].item_id.as_str()), ("epic", "e1"));
    assert_eq!((groups[1].item_type.as_str(), groups[1].item_id.as_str()), ("task", "t1"));
    assert_eq!((groups[2].item_type.as_str(), groups[2].item_id.as_str()), ("task", "t2"));
    assert_eq!(groups[2].title, "Second");
    assert_eq!(groups[2].blocked_by, vec!["b1".to_string(), "b3".to_string()]);
    assert_eq!(groups[1].blocked_by, vec!["b2".to_string()]);
}

#[test]
fn no_blocked_rows_no_groups() {
    assert!(group_blocked(vec![]).is_empty());
}
