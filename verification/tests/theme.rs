use blueprint::models::{ItemStatus, ProjectStatus};
use blueprint::theme::{
    blocked_style, progress_bar, project_status_style, status_style, status_symbol, NEON_CYAN, NEON_GREEN,
    NEON_ORANGE, TEXT_DIM,
};

#[test]
fn progress_bar_empty() {
    assert_eq!(progress_bar(0, 10, 10), "░░░░░░░░░░");
}

#[test]
fn progress_bar_half() {
    assert_eq!(progress_bar(5, 10, 10), "█████░░░░░");
}

#[test]
fn progress_bar_full() {
    assert_eq!(progress_bar(10, 10, 10), "██████████");
}

#[test]
fn progress_bar_zero_total() {
    assert_eq!(progress_bar(0, 0, 10), "░░░░░░░░░░");
}

#[test]
fn status_style_returns_correct_fg() {
    let todo_style = status_style(&ItemStatus::Todo);
    assert_eq!(todo_style.fg, Some(TEXT_DIM));

    let in_progress_style = status_style(&ItemStatus::InProgress);
    assert_eq!(in_progress_style.fg, Some(NEON_CYAN));

    let done_style = status_style(&ItemStatus::Done);
    assert_eq!(done_style.fg, Some(NEON_GREEN));
}

#[test]
fn project_status_style_returns_correct_fg() {
    let active_style = project_status_style(&ProjectStatus::Active);
    assert_eq!(active_style.fg, Some(NEON_GREEN));

    let archived_style = project_status_style(&ProjectStatus::Archived);
    assert_eq!(archived_style.fg, Some(TEXT_DIM));
}

#[test]
fn status_symbol_returns_correct_char() {
    assert_eq!(status_symbol(&ItemStatus::Todo), "■");
    assert_eq!(status_symbol(&ItemStatus::InProgress), "▶");
    assert_eq!(status_symbol(&ItemStatus::Done), "◉");
}

#[test]
fn blocked_style_returns_neon_orange() {
    let style = blocked_style();
    assert_eq!(style.fg, Some(NEON_ORANGE));
}

