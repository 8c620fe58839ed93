use trello_tui::actions::nav_target;
use trello_tui::app::{App, CardField, Effect, Msg, Overlay, PromptKind, Screen, Write};
use trello_tui::config::Config;
use trello_tui::keys::{Action, Key, KeyCode};
use trello_tui::model::{Board, Card, List};

fn config(default_board: Option<&str>) -> Config {
    Config {
        api_key: "key".into(),
        token: "token".into(),
        default_board: default_board.map(String::from),
        column_width: 32,
    }
}

/// Positions halfway between the neighbours; the ends step by 1000.
fn between(prev: Option<u64>, next: Option<u64>) -> u64 {
    match (prev, next) {
        (None, None) => 1000,
        (Some(p), None) => p + 1000,
        (None, Some(n)) => n / 2,
        (Some(p), Some(n)) => p + (n - p) / 2,
    }
}

fn card(id: &str, name: &str, list: &str, pos: u64) -> Card {
    Card {
        id: id.into(),
        name: name.into(),
        desc: String::new(),
        id_list: list.into(),
        id_board: "b1".into(),
        pos,
        closed: false,
        labels: vec![],
        due: None,
        due_complete: false,
        short_url: String::new(),
    }
}

fn boards() -> Vec<Board> {
    vec![
        Board { id: "b1".into(), name: "Work".into() },
        Board { id: "b2".into(), name: "Home".into() },
    ]
}

fn lists() -> Vec<List> {
    vec![
        List { id: "l2".into(), name: "Doing".into(), pos: 200 },
        List { id: "l1".into(), name: "To Do".into(), pos: 100 },
    ]
}

fn cards() -> Vec<Card> {
    vec![
        card("c2", "Write tests", "l1", 2000),
        card("c1", "Plan release", "l1", 1000),
        card("c3", "Review docs", "l2", 1000),
    ]
}

/// An app showing board `Work` with lists `To Do` (c1, c2) and `Doing` (c3).
fn board_app() -> App {
    let mut app = App::new(config(None));
    app.load_boards();
    app.handle(Msg::Boards(Ok(boards())));
    app.open_board(Board { id: "b1".into(), name: "Work".into() });
    app.take_effects();
    app.handle(Msg::BoardData { board_id: "b1".into(), result: Ok((lists(), cards())) });
    app
}

fn key(app: &mut App, c: char) {
    app.on_key(Key::plain(KeyCode::Char(c)), &between);
}

fn ids(app: &App, c: usize) -> Vec<String> {
    app.columns[c].cards.iter().map(|x| x.id.clone()).collect()
}

#[test]
fn new_app_starts_on_the_picker() {
    let mut app = App::new(config(None));
    assert_eq!(app.screen, Screen::Picker);
    assert!(app.columns.is_empty());
    app.load_boards();
    assert_eq!(app.inflight, 1);
    let effects = app.take_effects();
    assert_eq!(effects.len(), 1);
    assert!(matches!(effects[0], Effect::LoadBoards));
    app.handle(Msg::Boards(Ok(boards())));
    assert!(app.boards_loaded);
    assert_eq!(app.picker, Some(0));
    assert_eq!(app.inflight, 0);
}

#[test]
fn default_board_opens_by_name() {
    let mut app = App::new(config(Some("HOME")));
    app.load_boards();
    app.handle(Msg::Boards(Ok(boards())));
    assert_eq!(app.screen, Screen::Board);
    assert_eq!(app.board.as_ref().unwrap().id, "b2");
    let effects = app.take_effects();
    assert!(matches!(&effects[effects.len() - 1], Effect::LoadBoard { board_id } if board_id == "b2"));

    let mut app = App::new(config(Some("Nowhere")));
    app.handle(Msg::Boards(Ok(boards())));
    assert_eq!(app.screen, Screen::Picker);
    let (msg, is_err) = app.status.clone().unwrap();
    assert!(is_err);
    assert_eq!(msg, "default_board 'nowhere' not found");
}

#[test]
fn board_data_fills_columns_in_order() {
    let app = board_app();
    assert!(!app.board_loading);
    assert_eq!(app.columns.len(), 2);
    assert_eq!(app.columns[0].list.name, "To Do");
    assert_eq!(app.columns[1].list.name, "Doing");
    assert_eq!(ids(&app, 0), vec!["c1", "c2"]);
    assert_eq!(ids(&app, 1), vec!["c3"]);
    assert_eq!(app.columns[0].selected, Some(0));
    assert_eq!(app.col, 0);
}

#[test]
fn data_for_another_board_is_ignored() {
    let mut app = board_app();
    app.handle(Msg::BoardData { board_id: "b2".into(), result: Ok((vec![], vec![])) });
    assert_eq!(app.columns.len(), 2);
}

#[test]
fn motions_move_the_selection() {
    let mut app = board_app();
    key(&mut app, 'j');
    assert_eq!(app.row(), Some(1));
    key(&mut app, 'j');
    assert_eq!(app.row(), Some(1));
    key(&mut app, 'k');
    assert_eq!(app.row(), Some(0));
    key(&mut app, 'l');
    assert_eq!(app.col, 1);
    assert_eq!(app.current_card().unwrap().id, "c3");
    key(&mut app, 'h');
    assert_eq!(app.col, 0);
    key(&mut app, 'G');
    assert_eq!(app.row(), Some(1));
    key(&mut app, 'g');
    key(&mut app, 'g');
    assert_eq!(app.row(), Some(0));
}

#[test]
fn archive_then_undo_restores_the_card() {
    let mut app = board_app();
    key(&mut app, 'j');
    key(&mut app, 'd');
    key(&mut app, 'd');
    assert_eq!(ids(&app, 0), vec!["c1"]);
    assert_eq!(app.last_archived.as_ref().unwrap().id, "c2");
    assert_eq!(app.status.clone().unwrap().0, "Archived \"Write tests\" — press u to undo");
    key(&mut app, 'u');
    assert_eq!(ids(&app, 0), vec!["c1", "c2"]);
    assert_eq!(app.columns[0].selected, Some(1));
    assert!(app.last_archived.is_none());
    assert_eq!(app.status.clone().unwrap().0, "Restored \"Write tests\"");
    let effects = app.take_effects();
    assert_eq!(effects.len(), 2);
    match &effects[0] {
        Effect::Write(Write::Update { card_id, fields }) => {
            assert_eq!(card_id, "c2");
            assert!(matches!(fields[..], [CardField::Closed(true)]));
        }
        _ => panic!("expected an update"),
    }
    match &effects[1] {
        Effect::Write(Write::Update { card_id, fields }) => {
            assert_eq!(card_id, "c2");
            assert!(matches!(fields[..], [CardField::Closed(false)]));
        }
        _ => panic!("expected an update"),
    }
    key(&mut app, 'u');
    assert_eq!(app.status.clone().unwrap().0, "Nothing to undo");
}

#[test]
fn saves_adopt_the_server_copy_once_none_remain() {
    let mut app = board_app();
    key(&mut app, 'J');
    assert_eq!(ids(&app, 0), vec!["c2", "c1"]);
    key(&mut app, 'K');
    assert_eq!(ids(&app, 0), vec!["c1", "c2"]);
    let mut server = card("c1", "Plan release (server)", "l1", 5);
    server.desc = "from server".into();
    app.handle(Msg::CardSaved { card_id: "c1".into(), result: Ok(server.clone()) });
    assert_eq!(app.columns[0].cards[0].name, "Plan release");
    app.handle(Msg::CardSaved { card_id: "c1".into(), result: Ok(server) });
    assert_eq!(app.columns[0].cards[0].desc, "from server");
}

#[test]
fn moving_across_lists_changes_the_list() {
    let mut app = board_app();
    key(&mut app, 'L');
    assert_eq!(app.col, 1);
    assert_eq!(ids(&app, 0), vec!["c2"]);
    assert_eq!(ids(&app, 1), vec!["c1", "c3"]);
    assert_eq!(app.columns[1].cards[0].id_list, "l2");
    let effects = app.take_effects();
    match &effects[effects.len() - 1] {
        Effect::Write(Write::Update { card_id, fields }) => {
            assert_eq!(card_id, "c1");
            assert!(matches!(&fields[0], CardField::IdList(l) if l == "l2"));
            assert!(matches!(fields[1], CardField::Pos(500)));
        }
        _ => panic!("expected an update"),
    }
}

#[test]
fn new_card_goes_below_and_is_confirmed() {
    let mut app = board_app();
    key(&mut app, 'o');
    assert!(matches!(app.prompt, Some(PromptKind::NewCard { col: 0, index: 1 })));
    app.prompt = None;
    app.submit_prompt(PromptKind::NewCard { col: 0, index: 1 }, "  Ship it ", &between);
    assert_eq!(ids(&app, 0), vec!["c1", "tmp-1", "c2"]);
    assert_eq!(app.columns[0].cards[1].name, "Ship it");
    assert_eq!(app.columns[0].cards[1].pos, 1500);
    assert!(app.columns[0].cards[1].is_pending());
    // Enter adds another card below the new one.
    assert!(matches!(app.prompt, Some(PromptKind::NewCard { col: 0, index: 2 })));
    app.handle(Msg::CardCreated { temp_id: "tmp-1".into(), result: Ok(card("c9", "Ship it", "l1", 1500)) });
    assert_eq!(ids(&app, 0), vec!["c1", "c9", "c2"]);
}

#[test]
fn failed_creation_removes_the_card() {
    let mut app = board_app();
    app.submit_prompt(PromptKind::NewCard { col: 1, index: 0 }, "Draft", &between);
    assert_eq!(ids(&app, 1), vec!["tmp-1", "c3"]);
    app.handle(Msg::CardCreated { temp_id: "tmp-1".into(), result: Err("offline".into()) });
    assert_eq!(ids(&app, 1), vec!["c3"]);
    assert_eq!(app.status.clone().unwrap(), ("Creating card failed: offline".to_string(), true));
}

#[test]
fn search_finds_the_next_match() {
    let mut app = board_app();
    key(&mut app, '/');
    assert!(matches!(app.prompt, Some(PromptKind::Search)));
    app.prompt = None;
    app.submit_prompt(PromptKind::Search, "RE", &between);
    // From "Plan release" the next match in reading order is "Review docs".
    assert_eq!(app.col, 1);
    assert_eq!(app.current_card().unwrap().id, "c3");
    key(&mut app, 'n');
    assert_eq!(app.col, 0);
    assert_eq!(app.current_card().unwrap().id, "c1");
    key(&mut app, 'N');
    assert_eq!(app.current_card().unwrap().id, "c3");
    app.submit_prompt(PromptKind::Search, "zzz", &between);
    assert_eq!(app.status.clone().unwrap(), ("Pattern not found: zzz".to_string(), true));
}

#[test]
fn commands_quit_switch_and_jump() {
    let mut app = board_app();
    app.run_command("3", &between);
    app.run_command("b home", &between);
    assert_eq!(app.board.as_ref().unwrap().id, "b2");
    app.run_command("frobnicate", &between);
    assert_eq!(app.status.clone().unwrap(), ("Not a command: frobnicate".to_string(), true));
    app.run_command("q", &between);
    assert!(app.should_quit);
}

#[test]
fn rename_keeps_or_replaces_the_name() {
    let mut app = board_app();
    key(&mut app, 'r');
    assert!(matches!(&app.prompt, Some(PromptKind::Rename { card_id }) if card_id == "c1"));
    let effects = app.take_effects();
    assert!(matches!(&effects[0], Effect::Prompt { initial } if initial == "Plan release"));
    app.prompt = None;
    app.submit_prompt(PromptKind::Rename { card_id: "c1".into() }, "Plan v2", &between);
    assert_eq!(app.columns[0].cards[0].name, "Plan v2");
    key(&mut app, 'c');
    key(&mut app, 'w');
    let effects = app.take_effects();
    assert!(matches!(&effects[effects.len() - 1], Effect::Prompt { initial } if initial.is_empty()));
}

#[test]
fn help_and_detail_overlays() {
    let mut app = board_app();
    key(&mut app, '?');
    assert!(matches!(app.overlay, Overlay::Help));
    key(&mut app, 'x');
    assert!(matches!(app.overlay, Overlay::Hidden));
    app.on_key(Key::plain(KeyCode::Enter), &between);
    assert!(matches!(app.overlay, Overlay::Detail { scroll: 0 }));
    app.on_key(Key::plain(KeyCode::Esc), &between);
    assert!(matches!(app.overlay, Overlay::Hidden));
    app.on_key(Key::plain(KeyCode::Esc), &between);
    assert_eq!(app.screen, Screen::Picker);
}

#[test]
fn vertical_motions_land_in_range() {
    assert_eq!(nav_target(None, 0, Action::Down(1), 5), None);
    assert_eq!(nav_target(None, 4, Action::Down(1), 5), Some(1));
    assert_eq!(nav_target(Some(2), 4, Action::Down(10), 5), Some(3));
    assert_eq!(nav_target(Some(2), 4, Action::Up(10), 5), Some(0));
    assert_eq!(nav_target(Some(2), 4, Action::Top, 5), Some(0));
    assert_eq!(nav_target(Some(0), 4, Action::Goto(None), 5), Some(3));
    assert_eq!(nav_target(Some(0), 4, Action::Goto(Some(2)), 5), Some(1));
    assert_eq!(nav_target(Some(0), 4, Action::Goto(Some(0)), 5), Some(0));
    assert_eq!(nav_target(Some(0), 40, Action::HalfPageDown, 5), Some(5));
    assert_eq!(nav_target(Some(7), 40, Action::HalfPageUp, 5), Some(2));
    assert_eq!(nav_target(Some(1), 4, Action::Open, 5), None);
    assert_eq!(nav_target(Some(1), 4, Action::Down(usize::MAX), 5), Some(3));
    // Upward motions step back from the cursor as it is.
    assert_eq!(nav_target(Some(10), 3, Action::Up(1), 5), Some(9));
    assert_eq!(nav_target(Some(10), 3, Action::HalfPageUp, 5), Some(5));
}

#[test]
fn temporary_ids_count_up() {
    let mut app = App::new(config(None));
    assert_eq!(app.next_temp_id(), "tmp-1");
    assert_eq!(app.next_temp_id(), "tmp-2");
    assert_eq!(app.temp_seq, 2);
}

#[test]
fn moving_to_the_same_list_repositions_in_place() {
    let mut app = board_app();
    app.move_across(0, &between);
    assert_eq!(app.col, 0);
    assert_eq!(ids(&app, 0), vec!["c1", "c2"]);
    assert_eq!(app.columns[0].cards[0].pos, 1000);
    let effects = app.take_effects();
    match &effects[0] {
        Effect::Write(Write::Update { card_id, fields }) => {
            assert_eq!(card_id, "c1");
            assert!(matches!(&fields[0], CardField::IdList(l) if l == "l1"));
            assert!(matches!(fields[1], CardField::Pos(1000)));
        }
        _ => panic!("expected an update"),
    }
    // Past either end nothing moves.
    app.move_across(-1, &between);
    assert!(app.take_effects().is_empty());
}

#[test]
fn detail_keys_outside_the_details_do_nothing() {
    let mut app = board_app();
    app.on_detail_action(Action::Archive, &between);
    assert_eq!(ids(&app, 0), vec!["c1", "c2"]);
    app.on_key(Key::plain(KeyCode::Enter), &between);
    app.on_detail_action(Action::Down(3), &between);
    assert!(matches!(app.overlay, Overlay::Detail { scroll: 3 }));
    app.on_detail_action(Action::Archive, &between);
    assert!(matches!(app.overlay, Overlay::Hidden));
    assert_eq!(ids(&app, 0), vec!["c2"]);
}
