use trello_tui::app::{App, Msg, PromptKind};
use trello_tui::config::{resolve, Config, ConfigError, FileConfig};
use trello_tui::keys::{Key, KeyCode};
use trello_tui::model::{Board, Label, List};
use trello_tui::text::{contains, parse_usize, trim};
use trello_tui::view::{
    due_day, due_when, label_color, label_dots, label_text, search_hit, ColumnWindow, TermColor,
};

fn config(width: u16) -> Config {
    Config { api_key: "k".into(), token: "t".into(), default_board: None, column_width: width }
}

fn app_with_lists(n: usize, width: u16) -> App {
    let mut app = App::new(config(width));
    let board = Board { id: "b1".into(), name: "Work".into() };
    app.handle(Msg::Boards(Ok(vec![Board { id: "b1".into(), name: "Work".into() }])));
    app.open_board(board);
    let lists: Vec<List> = (0..n)
        .map(|i| List { id: format!("l{i}"), name: format!("List {i}"), pos: i as u64 })
        .collect();
    app.handle(Msg::BoardData { board_id: "b1".into(), result: Ok((lists, vec![])) });
    app
}

#[test]
fn all_lists_fit() {
    let mut app = app_with_lists(3, 20);
    let w = app.fit_columns(100, 30).unwrap();
    assert_eq!(w, ColumnWindow { start: 0, end: 3, width: 20, wide: 40 });
    assert_eq!(app.half_page, 14);
}

#[test]
fn window_follows_the_focused_list() {
    let mut app = app_with_lists(10, 20);
    // 100 cells: the focused list takes 40, three more fit at 20.
    let w = app.fit_columns(100, 4).unwrap();
    assert_eq!(w, ColumnWindow { start: 0, end: 4, width: 20, wide: 40 });
    assert_eq!(app.half_page, 1);
    app.col = 6;
    let w = app.fit_columns(100, 30).unwrap();
    assert_eq!(w.start, 3);
    assert_eq!(w.end, 7);
    assert_eq!(app.col_offset, 3);
    app.col = 1;
    let w = app.fit_columns(100, 30).unwrap();
    assert_eq!((w.start, w.end), (1, 5));
    app.col = 9;
    let w = app.fit_columns(100, 30).unwrap();
    assert_eq!((w.start, w.end), (6, 10));
}

#[test]
fn focused_list_takes_the_leftover() {
    let mut app = app_with_lists(10, 30);
    // 100 cells: 60 for the focused list leaves one more at 30; when lists overflow, the
    // focused one gets 100 - 30 = 70.
    let w = app.fit_columns(100, 30).unwrap();
    assert_eq!(w, ColumnWindow { start: 0, end: 2, width: 30, wide: 70 });
}

#[test]
fn empty_board_has_no_window() {
    let mut app = App::new(config(32));
    assert_eq!(app.fit_columns(80, 24), None);
}

#[test]
fn label_colors() {
    assert_eq!(label_color(Some("green")), TermColor::Green);
    assert_eq!(label_color(Some("red_dark")), TermColor::Red);
    assert_eq!(label_color(Some("sky_light")), TermColor::Cyan);
    assert_eq!(label_color(Some("purple")), TermColor::Magenta);
    assert_eq!(label_color(Some("black")), TermColor::DarkGray);
    assert_eq!(label_color(Some("mauve")), TermColor::Gray);
    assert_eq!(label_color(Some("")), TermColor::Gray);
    assert_eq!(label_color(None), TermColor::Gray);
}

#[test]
fn status_line_pieces() {
    let mut app = app_with_lists(2, 20);
    assert_eq!(app.location(), "Work");
    assert!(!app.inserting());
    assert_eq!(app.status_right(), "  ? help ");
    app.on_key(Key::plain(KeyCode::Char('4')), &|_: Option<u64>, _: Option<u64>| 0);
    assert_eq!(app.status_right(), "4  ? help ");
    app.load_boards();
    assert_eq!(app.status_right(), "4 ⟳  ? help ");
    assert_eq!(app.prompt_prefix(), None);
    app.prompt = Some(PromptKind::NewCard { col: 1, index: 0 });
    assert_eq!(app.prompt_prefix(), Some(" New card in List 1: ".to_string()));
    app.prompt = Some(PromptKind::Command);
    assert_eq!(app.prompt_prefix(), Some(":".to_string()));
    app.prompt = Some(PromptKind::Rename { card_id: "c".into() });
    assert_eq!(app.prompt_prefix(), Some(" Rename: ".to_string()));
    let picker = App::new(config(20));
    assert_eq!(picker.location(), "Boards");
}

#[test]
fn settings_come_from_env_then_file() {
    let file = FileConfig {
        api_key: Some("file-key".into()),
        token: Some("file-token".into()),
        default_board: Some("Work".into()),
        column_width: Some(5),
    };
    let c = resolve(file, Some("env-key".into()), Some(String::new())).ok().unwrap();
    assert_eq!(c.api_key, "env-key");
    assert_eq!(c.token, "file-token");
    assert_eq!(c.default_board.as_deref(), Some("Work"));
    assert_eq!(c.column_width, 12);
    let c = resolve(FileConfig { column_width: None, ..FileConfig::default() }, Some("k".into()), Some("t".into()))
        .ok()
        .unwrap();
    assert_eq!(c.column_width, 32);
    assert!(matches!(
        resolve(FileConfig::default(), None, Some("t".into())),
        Err(ConfigError::MissingCredentials)
    ));
}

#[test]
fn text_helpers() {
    assert_eq!(trim("  a b \t\n"), "a b");
    assert_eq!(trim(""), "");
    assert!(contains("release", "lea"));
    assert!(!contains("release", "xyz"));
    assert!(contains("abc", ""));
    assert_eq!(parse_usize("42"), Some(42));
    assert_eq!(parse_usize("+7"), Some(7));
    assert_eq!(parse_usize("-1"), None);
    assert_eq!(parse_usize(""), None);
    assert_eq!(parse_usize("99999999999999999999999"), None);
}

#[test]
fn search_highlights_and_label_dots() {
    assert!(search_hit("Plan Release", Some("release")));
    assert!(!search_hit("Plan Release", Some("Release")));
    assert!(!search_hit("Plan Release", None));
    let labels = vec![
        Label { name: "a".into(), color: Some("red".into()) },
        Label { name: "b".into(), color: None },
        Label { name: "c".into(), color: Some("sky_dark".into()) },
        Label { name: "d".into(), color: Some("lime".into()) },
        Label { name: "e".into(), color: Some("pink".into()) },
        Label { name: "f".into(), color: Some("green".into()) },
    ];
    assert_eq!(
        label_dots(&labels),
        vec![TermColor::Red, TermColor::Cyan, TermColor::LightGreen, TermColor::LightMagenta]
    );
    assert_eq!(label_dots(&vec![]), vec![]);
}

#[test]
fn label_text_falls_back_to_the_color() {
    let named = Label { name: "bug".into(), color: Some("red".into()) };
    let unnamed = Label { name: String::new(), color: Some("green".into()) };
    let bare = Label { name: String::new(), color: None };
    assert_eq!(label_text(&named), "bug");
    assert_eq!(label_text(&unnamed), "green");
    assert_eq!(label_text(&bare), "");
}

#[test]
fn due_dates_as_shown() {
    assert_eq!(due_when("2024-05-01T12:30:00.000Z"), "2024-05-01 12:30 UTC");
    assert_eq!(due_when("2024-05-01"), "2024-05-01 UTC");
    assert_eq!(due_day("2024-05-01T12:30:00.000Z"), "05-01");
    assert_eq!(due_day("May"), "May");
    // Offsets count bytes, as `str::get` does.
    assert_eq!(due_day("ä024-05-01"), "-05-0");
    assert_eq!(due_when("2024-05-01T12:3ä"), "2024-05-01 12:3ä UTC");
    assert_eq!(due_when("2024-05-01T12:3äx"), "2024-05-01 12:3äx UTC");
    assert_eq!(due_when("ä024-05-01T12:30:00"), "ä024-05-01 12:3 UTC");
}
