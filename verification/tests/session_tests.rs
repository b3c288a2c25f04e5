//! Session state machine behaviour: key dispatch in browsing and id-editing
//! modes, id parsing, and the load/install flow.

use sam_core::model::App;
use sam_core::models::{
    AchievementInfo, AppConfig, FetchError, SortColumn, SortOrder, StatusLevel,
};
use sam_core::session::{parse_app_id, Action, KeyInput, Session};

fn loaded_session() -> Session {
    let infos = vec![
        AchievementInfo { name: String::from("one"), unlocked: false, percentage: 3000 },
        AchievementInfo { name: String::from("two"), unlocked: false, percentage: 2000 },
        AchievementInfo { name: String::from("three"), unlocked: false, percentage: 1000 },
    ];
    Session::new(Some(App::new(infos, 440, AppConfig::default())))
}

fn cursor(s: &Session) -> usize {
    s.app.as_ref().expect("a model is loaded").current_index
}

#[test]
fn parse_accepts_plain_decimal_ids() {
    assert_eq!(parse_app_id("123"), Some(123));
    assert_eq!(parse_app_id("0"), Some(0));
    assert_eq!(parse_app_id("0000000001"), Some(1));
    assert_eq!(parse_app_id("4294967295"), Some(u32::MAX));
}

#[test]
fn parse_rejects_blank_overflowing_and_non_digit_input() {
    assert_eq!(parse_app_id(""), None);
    assert_eq!(parse_app_id("12a"), None);
    assert_eq!(parse_app_id("-3"), None);
    assert_eq!(parse_app_id("4294967296"), None);
    assert_eq!(parse_app_id("99999999999"), None);
}

#[test]
fn session_without_model_opens_in_the_id_editor() {
    let s = Session::new(None);
    assert!(s.editing);
    assert!(s.app.is_none());
}

#[test]
fn quit_keys_quit_while_browsing() {
    let mut s = loaded_session();
    assert!(matches!(s.handle_key(KeyInput::Esc), Action::Quit));
    let mut s = loaded_session();
    assert!(matches!(s.handle_key(KeyInput::Char('q')), Action::Quit));
}

#[test]
fn navigation_keys_move_the_cursor() {
    let mut s = loaded_session();
    assert!(matches!(s.handle_key(KeyInput::Down), Action::Continue));
    assert_eq!(cursor(&s), 1);
    s.handle_key(KeyInput::Char('j'));
    assert_eq!(cursor(&s), 2);
    s.handle_key(KeyInput::Char('j'));
    assert_eq!(cursor(&s), 0, "down from the last row wraps");
    s.handle_key(KeyInput::Char('k'));
    assert_eq!(cursor(&s), 2, "up from the first row wraps");
    s.handle_key(KeyInput::Up);
    assert_eq!(cursor(&s), 1);
    s.handle_key(KeyInput::Char('G'));
    assert_eq!(cursor(&s), 2);
    s.handle_key(KeyInput::Char('g'));
    assert_eq!(cursor(&s), 0);
    s.handle_key(KeyInput::PageDown);
    assert_eq!(cursor(&s), 2, "a page down clamps to the last row");
    s.handle_key(KeyInput::PageUp);
    assert_eq!(cursor(&s), 0);
    s.handle_key(KeyInput::Ctrl('n'));
    assert_eq!(cursor(&s), 2);
    s.handle_key(KeyInput::Ctrl('p'));
    assert_eq!(cursor(&s), 0);
}

#[test]
fn space_toggles_and_bulk_keys_select_everything() {
    let mut s = loaded_session();
    s.handle_key(KeyInput::Char(' '));
    assert!(s.app.as_ref().unwrap().achievements[0].selected);
    s.handle_key(KeyInput::Char(' '));
    assert!(!s.app.as_ref().unwrap().achievements[0].selected);
    s.handle_key(KeyInput::Char('a'));
    assert!(s.app.as_ref().unwrap().achievements.iter().all(|a| a.selected));
    s.handle_key(KeyInput::Char('d'));
    assert!(s.app.as_ref().unwrap().achievements.iter().all(|a| !a.selected));
}

#[test]
fn sort_keys_change_the_preference_and_ask_for_persistence() {
    let mut s = loaded_session();
    assert!(matches!(s.handle_key(KeyInput::Char('n')), Action::SaveConfig));
    let app = s.app.as_ref().unwrap();
    assert!(matches!(app.sort_column, SortColumn::Name));
    assert_eq!(app.achievements[0].name, "two", "descending by name");
    assert!(matches!(s.handle_key(KeyInput::Char('o')), Action::SaveConfig));
    let app = s.app.as_ref().unwrap();
    assert!(matches!(app.sort_order, SortOrder::Ascending));
    assert_eq!(app.achievements[0].name, "one");
    assert!(matches!(s.handle_key(KeyInput::Char('p')), Action::SaveConfig));
    assert!(matches!(s.app.as_ref().unwrap().sort_column, SortColumn::Percentage));
}

#[test]
fn enter_while_browsing_asks_for_a_commit() {
    let mut s = loaded_session();
    let before = s.app.as_ref().unwrap().achievements.clone();
    assert!(matches!(s.handle_key(KeyInput::Enter), Action::Commit));
    assert_eq!(s.app.as_ref().unwrap().achievements, before);
}

#[test]
fn id_editor_accepts_at_most_ten_digits() {
    let mut s = loaded_session();
    s.handle_key(KeyInput::Char('i'));
    assert!(s.editing);
    for _ in 0..12 {
        s.handle_key(KeyInput::Char('7'));
    }
    assert_eq!(s.input, "7777777777");
}

#[test]
fn id_editor_ignores_non_digit_characters() {
    let mut s = loaded_session();
    s.handle_key(KeyInput::Char('i'));
    s.handle_key(KeyInput::Char('x'));
    s.handle_key(KeyInput::Char('4'));
    s.handle_key(KeyInput::Char('!'));
    assert_eq!(s.input, "4");
}

#[test]
fn id_editor_backspace_and_clear_edit_the_buffer() {
    let mut s = loaded_session();
    s.handle_key(KeyInput::Char('i'));
    s.handle_key(KeyInput::Char('1'));
    s.handle_key(KeyInput::Char('2'));
    s.handle_key(KeyInput::Char('3'));
    assert_eq!(s.input, "123");
    s.handle_key(KeyInput::Backspace);
    assert_eq!(s.input, "12");
    s.handle_key(KeyInput::Char('c'));
    assert_eq!(s.input, "");
    s.handle_key(KeyInput::Backspace);
    assert_eq!(s.input, "");
}

#[test]
fn id_editor_enter_with_valid_id_asks_for_a_fetch() {
    let mut s = loaded_session();
    s.handle_key(KeyInput::Char('i'));
    s.handle_key(KeyInput::Char('4'));
    s.handle_key(KeyInput::Char('4'));
    s.handle_key(KeyInput::Char('0'));
    match s.handle_key(KeyInput::Enter) {
        Action::Fetch(id) => assert_eq!(id, 440),
        other => panic!("expected a fetch, got {:?}", other),
    }
    assert!(s.editing, "the editor stays open until the load resolves");
}

#[test]
fn id_editor_enter_with_overflowing_id_reports_an_error() {
    let mut s = loaded_session();
    s.handle_key(KeyInput::Char('i'));
    for _ in 0..10 {
        s.handle_key(KeyInput::Char('9'));
    }
    assert!(matches!(s.handle_key(KeyInput::Enter), Action::Continue));
    let status = s.status.clone().expect("an error status is set");
    assert_eq!(status.message, "Invalid App ID: 9999999999");
    assert!(matches!(status.level, StatusLevel::Error));
    assert_eq!(s.input, "");
}

#[test]
fn id_editor_cancel_returns_to_browsing_when_a_model_is_loaded() {
    let mut s = loaded_session();
    s.handle_key(KeyInput::Char('i'));
    s.handle_key(KeyInput::Char('5'));
    assert!(matches!(s.handle_key(KeyInput::Esc), Action::Continue));
    assert!(!s.editing);
    assert_eq!(s.input, "");
}

#[test]
fn id_editor_cancel_quits_when_nothing_is_loaded() {
    let mut s = Session::new(None);
    assert!(matches!(s.handle_key(KeyInput::Char('q')), Action::Quit));
    let mut s = Session::new(None);
    assert!(matches!(s.handle_key(KeyInput::Enter), Action::Quit), "enter on an empty buffer");
}

#[test]
fn install_app_returns_to_browsing() {
    let mut s = Session::new(None);
    let infos =
        vec![AchievementInfo { name: String::from("only"), unlocked: true, percentage: 500 }];
    s.install_app(App::new(infos, 10, AppConfig::default()));
    assert!(!s.editing);
    assert!(s.app.is_some());
    assert!(s.status.is_none());
}

#[test]
fn load_failed_reports_the_error_and_keeps_editing() {
    let mut s = Session::new(None);
    s.handle_key(KeyInput::Char('3'));
    s.load_failed(FetchError::NotOwned);
    assert!(s.editing);
    assert_eq!(s.input, "");
    let status = s.status.clone().expect("an error status is set");
    assert_eq!(status.message, "App not in your library");
    assert!(matches!(status.level, StatusLevel::Error));
    s.load_failed(FetchError::NoAchievements);
    assert_eq!(s.status.clone().unwrap().message, "No achievements were found");
    s.load_failed(FetchError::NameFetchFailed);
    assert_eq!(s.status.clone().unwrap().message, "Failed to get achievement names");
}

#[test]
fn unknown_keys_change_nothing_while_browsing() {
    let mut s = loaded_session();
    let before = s.app.as_ref().unwrap().achievements.clone();
    assert!(matches!(s.handle_key(KeyInput::Char('z')), Action::Continue));
    assert!(matches!(s.handle_key(KeyInput::Ctrl('x')), Action::Continue));
    assert!(matches!(s.handle_key(KeyInput::Backspace), Action::Continue));
    assert_eq!(s.app.as_ref().unwrap().achievements, before);
    assert_eq!(cursor(&s), 0);
}
