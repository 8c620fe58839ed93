use trello_tui::app::{App, CardField, Effect, Msg, Overlay, Write};
use trello_tui::config::Config;
use trello_tui::desc::{Cursor, EditOp};
use trello_tui::keys::{Key, KeyCode};
use trello_tui::model::{Board, Card, List};

fn between(prev: Option<u64>, next: Option<u64>) -> u64 {
    match (prev, next) {
        (None, None) => 1000,
        (Some(p), None) => p + 1000,
        (None, Some(n)) => n / 2,
        (Some(p), Some(n)) => p + (n - p) / 2,
    }
}

fn app_with_card(desc: &str) -> App {
    let mut app = App::new(Config {
        api_key: "k".into(),
        token: "t".into(),
        default_board: None,
        column_width: 32,
    });
    app.handle(Msg::Boards(Ok(vec![Board { id: "b1".into(), name: "Work".into() }])));
    app.open_board(Board { id: "b1".into(), name: "Work".into() });
    let card = Card {
        id: "c1".into(),
        name: "Task".into(),
        desc: desc.into(),
        id_list: "l1".into(),
        id_board: "b1".into(),
        pos: 1,
        closed: false,
        labels: vec![],
        due: None,
        due_complete: false,
        short_url: String::new(),
    };
    app.handle(Msg::BoardData {
        board_id: "b1".into(),
        result: Ok((vec![List { id: "l1".into(), name: "To Do".into(), pos: 1 }], vec![card])),
    });
    app.take_effects();
    app
}

fn cur(row: usize, col: usize, line_len: usize, lines: usize) -> Cursor {
    Cursor { row, col, line_len, lines }
}

fn press(app: &mut App, c: char, text: &str, at: Cursor) -> Vec<EditOp> {
    app.on_desc_key(Key::plain(KeyCode::Char(c)), text.into(), at)
}

fn message(app: &App) -> Option<String> {
    match &app.overlay {
        Overlay::Desc(ed) => ed.message.clone(),
        _ => None,
    }
}

#[test]
fn opening_the_editor_hands_over_the_text() {
    let mut app = app_with_card("old text");
    app.on_key(Key::plain(KeyCode::Char('e')), &between);
    assert!(matches!(&app.overlay, Overlay::Desc(ed) if ed.original == "old text" && !ed.insert));
    let effects = app.take_effects();
    assert!(matches!(&effects[0], Effect::EditDesc { text } if text == "old text"));
    // Keys of the editor do not reach the board.
    app.on_key(Key::plain(KeyCode::Char('j')), &between);
    assert!(matches!(app.overlay, Overlay::Desc(_)));
}

#[test]
fn insert_mode_and_back() {
    let mut app = app_with_card("abc");
    app.open_desc_editor(false);
    assert_eq!(press(&mut app, 'a', "abc", cur(0, 1, 3, 1)), vec![EditOp::Forward]);
    assert!(app.inserting());
    assert_eq!(press(&mut app, 'x', "abc", cur(0, 2, 3, 1)), vec![EditOp::Input]);
    let ops = app.on_desc_key(Key::plain(KeyCode::Esc), "abxc".into(), cur(0, 3, 4, 1));
    assert_eq!(ops, vec![EditOp::Back]);
    assert!(!app.inserting());
    assert_eq!(press(&mut app, 'o', "abxc", cur(0, 2, 4, 1)), vec![EditOp::End, EditOp::InsertNewline]);
    assert_eq!(
        app.on_desc_key(Key::plain(KeyCode::Esc), "abxc\n".into(), cur(1, 0, 0, 2)),
        vec![]
    );
    assert_eq!(
        press(&mut app, 'O', "abxc\n", cur(1, 0, 0, 2)),
        vec![EditOp::Head, EditOp::InsertNewline, EditOp::Up]
    );
}

#[test]
fn dd_cuts_the_cursor_line() {
    let mut app = app_with_card("one\ntwo\nthree");
    app.open_desc_editor(false);
    let text = "one\ntwo\nthree";
    assert_eq!(press(&mut app, 'd', text, cur(0, 0, 3, 3)), vec![]);
    assert_eq!(
        press(&mut app, 'd', text, cur(0, 0, 3, 3)),
        vec![EditOp::Head, EditOp::StartSelection, EditOp::Down, EditOp::Head, EditOp::Cut]
    );
    press(&mut app, 'd', text, cur(2, 0, 5, 3));
    assert_eq!(
        press(&mut app, 'd', text, cur(2, 0, 5, 3)),
        vec![
            EditOp::Up,
            EditOp::End,
            EditOp::StartSelection,
            EditOp::Bottom,
            EditOp::End,
            EditOp::Cut,
            EditOp::Head
        ]
    );
    press(&mut app, 'd', "solo", cur(0, 0, 4, 1));
    assert_eq!(
        press(&mut app, 'd', "solo", cur(0, 0, 4, 1)),
        vec![EditOp::Head, EditOp::DeleteToLineEnd]
    );
    // A different second key cancels.
    press(&mut app, 'g', text, cur(0, 0, 3, 3));
    assert_eq!(press(&mut app, 'x', text, cur(0, 0, 3, 3)), vec![]);
    press(&mut app, 'g', text, cur(2, 0, 3, 3));
    assert_eq!(press(&mut app, 'g', text, cur(2, 0, 3, 3)), vec![EditOp::Top]);
}

#[test]
fn write_then_quit() {
    let mut app = app_with_card("old");
    app.open_desc_editor(false);
    app.take_effects();
    for c in [':', 'w'] {
        assert_eq!(press(&mut app, c, "new", cur(0, 0, 3, 1)), vec![]);
    }
    app.on_desc_key(Key::plain(KeyCode::Enter), "new".into(), cur(0, 0, 3, 1));
    assert_eq!(message(&app), Some("Saved".to_string()));
    assert_eq!(app.columns[0].cards[0].desc, "new");
    let effects = app.take_effects();
    match &effects[0] {
        Effect::Write(Write::Update { card_id, fields }) => {
            assert_eq!(card_id, "c1");
            assert!(matches!(&fields[0], CardField::Desc(d) if d == "new"));
        }
        _ => panic!("expected an update"),
    }
    for c in [':', 'q'] {
        press(&mut app, c, "new", cur(0, 0, 3, 1));
    }
    app.on_desc_key(Key::plain(KeyCode::Enter), "new".into(), cur(0, 0, 3, 1));
    assert!(matches!(app.overlay, Overlay::Hidden));
    assert!(app.take_effects().is_empty());
}

#[test]
fn quit_refuses_unsaved_changes() {
    let mut app = app_with_card("old");
    app.open_desc_editor(true);
    for c in [':', 'q'] {
        press(&mut app, c, "changed", cur(0, 0, 7, 1));
    }
    app.on_desc_key(Key::plain(KeyCode::Enter), "changed".into(), cur(0, 0, 7, 1));
    assert_eq!(
        message(&app),
        Some("No write since last change (add ! to override)".to_string())
    );
    for c in [':', 'z', 'z'] {
        press(&mut app, c, "changed", cur(0, 0, 7, 1));
    }
    app.on_desc_key(Key::plain(KeyCode::Backspace), "changed".into(), cur(0, 0, 7, 1));
    app.on_desc_key(Key::plain(KeyCode::Enter), "changed".into(), cur(0, 0, 7, 1));
    assert_eq!(message(&app), Some("Not a command: z".to_string()));
    app.on_desc_key(Key::plain(KeyCode::Esc), "changed".into(), cur(0, 0, 7, 1));
    assert_eq!(
        message(&app),
        Some("Unsaved changes — :w to save, :q! to discard".to_string())
    );
    for c in [':', 'q', '!'] {
        press(&mut app, c, "changed", cur(0, 0, 7, 1));
    }
    app.on_desc_key(Key::plain(KeyCode::Enter), "changed".into(), cur(0, 0, 7, 1));
    // Opened from the card details, the editor returns there.
    assert!(matches!(app.overlay, Overlay::Detail { scroll: 0 }));
    assert_eq!(app.columns[0].cards[0].desc, "old");
}

#[test]
fn zz_saves_and_ctrl_s_saves() {
    let mut app = app_with_card("old");
    app.open_desc_editor(false);
    press(&mut app, 'Z', "new", cur(0, 0, 3, 1));
    assert_eq!(press(&mut app, 'Z', "new", cur(0, 0, 3, 1)), vec![]);
    assert!(matches!(app.overlay, Overlay::Hidden));
    assert_eq!(app.columns[0].cards[0].desc, "new");

    app.open_desc_editor(false);
    app.on_desc_key(Key::ctrl(KeyCode::Char('s')), "newer".into(), cur(0, 0, 5, 1));
    assert!(matches!(app.overlay, Overlay::Hidden));
    assert_eq!(app.columns[0].cards[0].desc, "newer");
}

#[test]
fn unchanged_text_closes_on_escape() {
    let mut app = app_with_card("same");
    app.open_desc_editor(false);
    app.take_effects();
    app.on_desc_key(Key::plain(KeyCode::Esc), "same".into(), cur(0, 0, 4, 1));
    assert!(matches!(app.overlay, Overlay::Hidden));
    assert!(app.take_effects().is_empty());
}

#[test]
fn motions_in_normal_mode() {
    let mut app = app_with_card("hello world");
    app.open_desc_editor(false);
    let t = "hello world";
    assert_eq!(press(&mut app, 'h', t, cur(0, 0, 11, 1)), vec![]);
    assert_eq!(press(&mut app, 'h', t, cur(0, 3, 11, 1)), vec![EditOp::Back]);
    assert_eq!(press(&mut app, 'l', t, cur(0, 11, 11, 1)), vec![]);
    assert_eq!(press(&mut app, 'w', t, cur(0, 0, 11, 1)), vec![EditOp::WordForward]);
    assert_eq!(press(&mut app, '$', t, cur(0, 0, 11, 1)), vec![EditOp::End]);
    assert_eq!(press(&mut app, 'x', t, cur(0, 0, 11, 1)), vec![EditOp::DeleteNextChar]);
    assert_eq!(press(&mut app, 'u', t, cur(0, 0, 11, 1)), vec![EditOp::Undo]);
    assert_eq!(
        app.on_desc_key(Key::ctrl(KeyCode::Char('r')), t.into(), cur(0, 0, 11, 1)),
        vec![EditOp::Redo]
    );
}
