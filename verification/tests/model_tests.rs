//! Model behaviour: construction, navigation, selection, sorting, search,
//! and the diff/commit protocol with its partial-failure semantics.

use sam_core::model::App;
use sam_core::models::{
    AchievementInfo, AchievementItem, AchievementStatus, AppConfig, CommitOutcome, CommitResult,
    SortColumn, SortOrder, StatusLevel,
};

fn info(name: &str, unlocked: bool, percentage: u32) -> AchievementInfo {
    AchievementInfo { name: String::from(name), unlocked, percentage }
}

fn row(name: &str, selected: bool, unlocked: bool, percentage: u32) -> AchievementItem {
    AchievementItem {
        name: String::from(name),
        selected,
        unlocked,
        percentage,
        status: AchievementStatus::Unchanged,
    }
}

fn model_of(rows: Vec<AchievementItem>) -> App {
    App {
        achievements: rows,
        current_index: 0,
        app_id: 440,
        status: None,
        sort_column: SortColumn::Percentage,
        sort_order: SortOrder::Descending,
        search_query: String::new(),
    }
}

fn names(app: &App) -> Vec<&str> {
    app.achievements.iter().map(|a| a.name.as_str()).collect()
}

fn five_rows() -> App {
    let infos = vec![
        info("a", false, 5000),
        info("b", false, 4000),
        info("c", false, 3000),
        info("d", false, 2000),
        info("e", false, 1000),
    ];
    App::new(infos, 440, AppConfig::default())
}

#[test]
fn new_sorts_by_percentage_descending_by_default() {
    let infos = vec![info("rare", false, 50), info("common", true, 9000), info("mid", false, 2500)];
    let app = App::new(infos, 440, AppConfig::default());
    assert_eq!(names(&app), vec!["common", "mid", "rare"]);
    assert_eq!(app.current_index, 0);
    assert!(app.status.is_none());
}

#[test]
fn new_rows_start_with_desired_matching_confirmed() {
    let infos = vec![info("x", true, 100), info("y", false, 200)];
    let app = App::new(infos, 440, AppConfig::default());
    for a in &app.achievements {
        assert_eq!(a.selected, a.unlocked);
        assert_eq!(a.status, AchievementStatus::Unchanged);
    }
}

#[test]
fn new_applies_stored_sort_preference() {
    let infos = vec![info("b", false, 100), info("a", false, 200), info("c", false, 300)];
    let config = AppConfig { sort_column: SortColumn::Name, sort_order: SortOrder::Ascending };
    let app = App::new(infos, 440, config);
    assert_eq!(names(&app), vec!["a", "b", "c"]);
}

#[test]
fn next_wraps_from_last_to_first() {
    let mut app = five_rows();
    app.jump_to_bottom();
    assert_eq!(app.current_index, 4);
    app.next();
    assert_eq!(app.current_index, 0);
}

#[test]
fn previous_wraps_from_first_to_last() {
    let mut app = five_rows();
    assert_eq!(app.current_index, 0);
    app.previous();
    assert_eq!(app.current_index, 4);
}

#[test]
fn navigation_is_a_no_op_on_an_empty_list() {
    let mut app = App::new(Vec::new(), 440, AppConfig::default());
    app.next();
    assert_eq!(app.current_index, 0);
    app.previous();
    assert_eq!(app.current_index, 0);
    app.page_down();
    assert_eq!(app.current_index, 0);
    app.page_up();
    assert_eq!(app.current_index, 0);
    app.jump_to(3);
    assert_eq!(app.current_index, 0);
}

#[test]
fn page_down_from_zero_clamps_to_last_of_five() {
    let mut app = five_rows();
    app.page_down();
    assert_eq!(app.current_index, 4);
}

#[test]
fn page_up_clamps_at_zero() {
    let mut app = five_rows();
    app.jump_to(3);
    app.page_up();
    assert_eq!(app.current_index, 0);
}

#[test]
fn jump_to_clamps_to_last_index() {
    let mut app = five_rows();
    app.jump_to(1000);
    assert_eq!(app.current_index, 4);
}

#[test]
fn toggle_selection_flips_the_row_under_the_cursor() {
    let mut app = five_rows();
    app.jump_to(2);
    assert!(!app.achievements[2].selected);
    app.toggle_selection();
    assert!(app.achievements[2].selected);
    app.toggle_selection();
    assert!(!app.achievements[2].selected);
}

#[test]
fn select_all_and_deselect_all_touch_every_row() {
    let mut app = five_rows();
    app.select_all();
    assert!(app.achievements.iter().all(|a| a.selected));
    app.deselect_all();
    assert!(app.achievements.iter().all(|a| !a.selected));
}

#[test]
fn sort_by_name_orders_lexicographically() {
    let mut app = model_of(vec![
        row("beta", false, false, 100),
        row("alpha", false, false, 200),
        row("gamma", false, false, 300),
    ]);
    app.set_sort_column(SortColumn::Name);
    app.sort_order = SortOrder::Ascending;
    app.sort_achievements();
    assert_eq!(names(&app), vec!["alpha", "beta", "gamma"]);
    app.sort_order = SortOrder::Descending;
    app.sort_achievements();
    assert_eq!(names(&app), vec!["gamma", "beta", "alpha"]);
}

#[test]
fn sorting_is_stable_for_equal_keys() {
    let mut app = model_of(vec![
        row("first", false, false, 100),
        row("second", false, false, 100),
        row("third", false, false, 100),
    ]);
    app.sort_achievements();
    assert_eq!(names(&app), vec!["first", "second", "third"]);
    app.toggle_sort_order();
    assert_eq!(names(&app), vec!["first", "second", "third"]);
}

#[test]
fn sorting_twice_yields_an_identical_sequence() {
    let mut app = model_of(vec![
        row("a", false, false, 300),
        row("b", false, false, 100),
        row("c", false, false, 300),
        row("d", false, false, 200),
    ]);
    app.sort_achievements();
    let once = names(&app).into_iter().map(String::from).collect::<Vec<_>>();
    app.sort_achievements();
    let twice = names(&app).into_iter().map(String::from).collect::<Vec<_>>();
    assert_eq!(once, twice);
}

#[test]
fn toggling_order_twice_restores_the_sequence() {
    let mut app = model_of(vec![
        row("a", false, false, 400),
        row("b", false, false, 100),
        row("c", false, false, 300),
        row("d", false, false, 200),
    ]);
    app.sort_achievements();
    let before = names(&app).into_iter().map(String::from).collect::<Vec<_>>();
    app.toggle_sort_order();
    app.toggle_sort_order();
    let after = names(&app).into_iter().map(String::from).collect::<Vec<_>>();
    assert_eq!(before, after);
}

#[test]
fn search_moves_cursor_to_best_match() {
    let mut app = model_of(vec![
        row("Alpha", false, false, 100),
        row("Beta", false, false, 200),
        row("Gamma", false, false, 300),
    ]);
    app.search_query = String::from("gamma");
    assert!(app.search_first_match());
    assert_eq!(app.current_index, 2);
}

#[test]
fn search_is_case_insensitive_both_ways() {
    let mut app = model_of(vec![row("Alpha", false, false, 100), row("Beta", false, false, 200)]);
    app.search_query = String::from("ALPHA");
    assert!(app.search_first_match());
    assert_eq!(app.current_index, 0);
}

#[test]
fn search_with_blank_query_finds_nothing_and_moves_nothing() {
    let mut app = model_of(vec![row("Alpha", false, false, 100)]);
    app.search_query = String::from("   ");
    assert!(!app.search_first_match());
    assert_eq!(app.current_index, 0);
    app.search_query = String::new();
    assert!(!app.search_first_match());
}

#[test]
fn search_without_any_match_reports_false() {
    let mut app = model_of(vec![row("Alpha", false, false, 100)]);
    app.jump_to(0);
    app.search_query = String::from("zzz");
    assert!(!app.search_first_match());
}

#[test]
fn search_tie_keeps_the_first_row() {
    let mut app = model_of(vec![row("same", false, false, 100), row("same", false, false, 200)]);
    app.search_query = String::from("same");
    assert!(app.search_first_match());
    assert_eq!(app.current_index, 0);
}

#[test]
fn partitions_split_by_desired_versus_confirmed() {
    let app = model_of(vec![
        row("set_me", true, false, 100),
        row("clear_me", false, true, 200),
        row("in_sync", true, true, 300),
        row("also_in_sync", false, false, 400),
    ]);
    assert_eq!(app.set_partition(), vec![String::from("set_me")]);
    assert_eq!(app.clear_partition(), vec![String::from("clear_me")]);
}

#[test]
fn synced_model_has_empty_partitions_and_commit_changes_nothing() {
    let mut app = model_of(vec![row("a", true, true, 100), row("b", false, false, 200)]);
    assert!(app.set_partition().is_empty());
    assert!(app.clear_partition().is_empty());
    let before = app.achievements.clone();
    app.process_changes(None, None);
    assert_eq!(app.achievements, before);
    assert!(app.status.is_none());
}

#[test]
fn commit_success_updates_confirmed_state_and_status() {
    let mut app = model_of(vec![row("a", true, false, 100), row("b", true, false, 200)]);
    let outcome = CommitOutcome::Completed(vec![
        CommitResult { name: String::from("a"), success: true },
        CommitResult { name: String::from("b"), success: true },
    ]);
    app.process_changes(Some(outcome), None);
    assert!(app.achievements[0].unlocked);
    assert!(app.achievements[1].unlocked);
    assert_eq!(app.achievements[0].status, AchievementStatus::Success);
    assert_eq!(app.achievements[1].status, AchievementStatus::Success);
    let status = app.status.expect("a status line is set");
    assert_eq!(status.message, "\u{2713} Successfully processed 2 achievement(s)");
    assert!(matches!(status.level, StatusLevel::Success));
}

#[test]
fn per_name_failure_marks_only_that_row() {
    let mut app = model_of(vec![row("ok", true, false, 100), row("bad", true, false, 200)]);
    let outcome = CommitOutcome::Completed(vec![
        CommitResult { name: String::from("ok"), success: true },
        CommitResult { name: String::from("bad"), success: false },
    ]);
    app.process_changes(Some(outcome), None);
    assert!(app.achievements[0].unlocked);
    assert_eq!(app.achievements[0].status, AchievementStatus::Success);
    assert!(!app.achievements[1].unlocked);
    assert_eq!(app.achievements[1].status, AchievementStatus::Failed);
    let status = app.status.expect("a status line is set");
    assert_eq!(status.message, "\u{26A0} Processed: 1 success, 1 failed");
    assert!(matches!(status.level, StatusLevel::Error));
}

#[test]
fn clear_partition_success_locks_the_row() {
    let mut app = model_of(vec![row("locked_again", false, true, 100)]);
    let outcome = CommitOutcome::Completed(vec![CommitResult {
        name: String::from("locked_again"),
        success: true,
    }]);
    app.process_changes(None, Some(outcome));
    assert!(!app.achievements[0].unlocked);
    assert_eq!(app.achievements[0].status, AchievementStatus::Success);
}

#[test]
fn verdict_for_unknown_name_is_ignored() {
    let mut app = model_of(vec![row("known", true, false, 100)]);
    let outcome = CommitOutcome::Completed(vec![
        CommitResult { name: String::from("stranger"), success: true },
        CommitResult { name: String::from("known"), success: true },
    ]);
    app.process_changes(Some(outcome), None);
    assert!(app.achievements[0].unlocked);
    let status = app.status.expect("a status line is set");
    assert_eq!(status.message, "\u{2713} Successfully processed 1 achievement(s)");
}

#[test]
fn mixed_partition_outcomes_report_both_counts() {
    // The set partition commits fine; the clear partition fails as a whole.
    let mut app = model_of(vec![row("A", true, false, 100), row("B", false, true, 200)]);
    let set_outcome =
        CommitOutcome::Completed(vec![CommitResult { name: String::from("A"), success: true }]);
    let clear_outcome = CommitOutcome::Failed(String::from("backend unavailable"));
    app.process_changes(Some(set_outcome), Some(clear_outcome));
    assert_eq!(app.achievements[0].status, AchievementStatus::Success);
    assert!(app.achievements[0].unlocked);
    assert_eq!(app.achievements[1].status, AchievementStatus::Failed);
    assert!(app.achievements[1].unlocked, "a whole-partition failure leaves confirmed state");
    let status = app.status.clone().expect("a status line is set");
    assert_eq!(status.message, "\u{26A0} Processed: 1 success, 1 failed");
    assert!(matches!(status.level, StatusLevel::Error));
}

#[test]
fn rerunning_commit_targets_only_the_outstanding_delta() {
    // Same scenario as above, then a second pass: only B is still out of
    // sync, so only the clear partition is non-empty.
    let mut app = model_of(vec![row("A", true, false, 100), row("B", false, true, 200)]);
    let set_outcome =
        CommitOutcome::Completed(vec![CommitResult { name: String::from("A"), success: true }]);
    let clear_outcome = CommitOutcome::Failed(String::from("backend unavailable"));
    app.process_changes(Some(set_outcome), Some(clear_outcome));
    assert!(app.set_partition().is_empty());
    assert_eq!(app.clear_partition(), vec![String::from("B")]);
    let retry =
        CommitOutcome::Completed(vec![CommitResult { name: String::from("B"), success: true }]);
    app.process_changes(None, Some(retry));
    assert!(!app.achievements[1].unlocked);
    assert_eq!(app.achievements[1].status, AchievementStatus::Success);
    assert!(app.set_partition().is_empty());
    assert!(app.clear_partition().is_empty());
    let status = app.status.expect("a status line is set");
    assert_eq!(status.message, "\u{2713} Successfully processed 1 achievement(s)");
}

#[test]
fn empty_verdict_list_leaves_status_untouched() {
    let mut app = model_of(vec![row("a", true, false, 100)]);
    app.process_changes(Some(CommitOutcome::Completed(Vec::new())), None);
    assert!(app.status.is_none());
    assert!(!app.achievements[0].unlocked);
}
