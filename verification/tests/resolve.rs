use blueprint::models::{epic_status_from_tasks, ItemStatus};
use blueprint::resolve::{classify_id, IdKind};

#[test]
fn test_classify_epic_short_id() {
    assert_eq!(classify_id("E1"), IdKind::EpicShortId);
    assert_eq!(classify_id("E42"), IdKind::EpicShortId);
    assert_eq!(classify_id("e1"), IdKind::EpicShortId);
    assert_eq!(classify_id("e99"), IdKind::EpicShortId);
}

#[test]
fn test_classify_task_short_id() {
    assert_eq!(classify_id("E1-T3"), IdKind::TaskShortId);
    assert_eq!(classify_id("E10-T42"), IdKind::TaskShortId);
    assert_eq!(classify_id("e1-t3"), IdKind::TaskShortId);
    assert_eq!(classify_id("e2-t10"), IdKind::TaskShortId);
}

#[test]
fn test_classify_ulid() {
    assert_eq!(classify_id("01ARZ3NDEKTSV4RRFFQ69G5FAV"), IdKind::Ulid);
    assert_eq!(classify_id("some-random-string"), IdKind::Ulid);
}

#[test]
fn test_classify_edge_cases() {
    assert_eq!(classify_id("E"), IdKind::Ulid);
    assert_eq!(classify_id("E1-T"), IdKind::Ulid);
    assert_eq!(classify_id("E-T1"), IdKind::Ulid);
    assert_eq!(classify_id("X1"), IdKind::Ulid);
    assert_eq!(classify_id("E1-"), IdKind::Ulid);
    assert_eq!(classify_id("E1T3"), IdKind::Ulid);
}


use blueprint::models::{AddDependencyInput, DependencyType};
use blueprint::resolve::{
    epic_part_of_task_id, is_self_reference, next_epic_short_id, next_task_short_id, normalize_short_id, pick_unique,
    ResolveError,
};

#[test]
fn short_ids_are_normalized_to_upper_case() {
    assert_eq!(normalize_short_id("e12"), "E12");
    assert_eq!(normalize_short_id("e1-t3"), "E1-T3");
    assert_eq!(epic_part_of_task_id("e10-t42"), "E10");
    assert_eq!(epic_part_of_task_id("E2-T1"), "E2");
}

#[test]
fn unique_match_resolves() {
    assert_eq!(pick_unique(vec![]), Err(ResolveError::NotFound));
    assert_eq!(pick_unique(vec!["a".to_string()]), Ok("a".to_string()));
    assert_eq!(pick_unique(vec!["a".to_string(), "b".to_string()]), Err(ResolveError::Ambiguous(2)));
}

#[test]
fn next_short_ids_follow_the_highest_number() {
    assert_eq!(next_epic_short_id(0), "E1");
    assert_eq!(next_epic_short_id(9), "E10");
    assert_eq!(next_task_short_id("E3", 41), "E3-T42");
    assert_eq!(classify_id(&next_epic_short_id(7)), IdKind::EpicShortId);
    assert_eq!(classify_id(&next_task_short_id("E7", 0)), IdKind::TaskShortId);
}

#[test]
fn self_reference_detected() {
    let same = AddDependencyInput {
        blocker_type: DependencyType::Task,
        blocker_id: "x".to_string(),
        blocked_type: DependencyType::Task,
        blocked_id: "x".to_string(),
    };
    assert!(is_self_reference(&same));
    let cross = AddDependencyInput {
        blocker_type: DependencyType::Epic,
        blocker_id: "x".to_string(),
        blocked_type: DependencyType::Task,
        blocked_id: "x".to_string(),
    };
    assert!(!is_self_reference(&cross));
}

#[test]
fn epic_status_follows_its_tasks() {
    assert_eq!(epic_status_from_tasks(&vec![]), None);
    // one of two tasks done: in progress
    assert_eq!(epic_status_from_tasks(&vec![ItemStatus::Done, ItemStatus::Todo]), Some(ItemStatus::InProgress));
    // both done: done
    assert_eq!(epic_status_from_tasks(&vec![ItemStatus::Done, ItemStatus::Done]), Some(ItemStatus::Done));
    // a new todo task alone: todo
    assert_eq!(epic_status_from_tasks(&vec![ItemStatus::Todo]), Some(ItemStatus::Todo));
    assert_eq!(epic_status_from_tasks(&vec![ItemStatus::InProgress, ItemStatus::Todo]), Some(ItemStatus::InProgress));
}
