use trello_tui::keys::{Action, Key, KeyCode, KeyParser, MAX_COUNT};

fn feed_str(p: &mut KeyParser, s: &str) -> Vec<Action> {
    s.chars()
        .filter_map(|c| p.feed(Key::plain(KeyCode::Char(c))))
        .collect()
}

#[test]
fn simple_motions() {
    let mut p = KeyParser::default();
    assert_eq!(
        feed_str(&mut p, "hjkl"),
        vec![Action::Left(1), Action::Down(1), Action::Up(1), Action::Right(1)]
    );
}

#[test]
fn counts() {
    let mut p = KeyParser::default();
    assert_eq!(feed_str(&mut p, "5j12k"), vec![Action::Down(5), Action::Up(12)]);
    assert_eq!(feed_str(&mut p, "3J"), vec![Action::MoveDown(3)]);
    assert_eq!(
        feed_str(&mut p, "G7G"),
        vec![Action::Goto(None), Action::Goto(Some(7))]
    );
}

#[test]
fn zero_is_not_a_count_start() {
    let mut p = KeyParser::default();
    assert_eq!(feed_str(&mut p, "0"), vec![]);
    assert_eq!(p.pending_display(), "");
    assert_eq!(feed_str(&mut p, "10j"), vec![Action::Down(10)]);
}

#[test]
fn sequences() {
    let mut p = KeyParser::default();
    assert_eq!(feed_str(&mut p, "gg"), vec![Action::Top]);
    assert_eq!(feed_str(&mut p, "dd"), vec![Action::Archive]);
    assert_eq!(feed_str(&mut p, "cw"), vec![Action::Change]);
    // Invalid second key cancels the sequence.
    assert_eq!(feed_str(&mut p, "gxj"), vec![Action::Down(1)]);
}

#[test]
fn pending_display_and_escape() {
    let mut p = KeyParser::default();
    feed_str(&mut p, "4d");
    assert_eq!(p.pending_display(), "4d");
    // Esc with something pending only clears it.
    assert_eq!(p.feed(Key::plain(KeyCode::Esc)), None);
    assert_eq!(p.pending_display(), "");
    assert_eq!(p.feed(Key::plain(KeyCode::Esc)), Some(Action::Back));
}

#[test]
fn ctrl_keys() {
    let mut p = KeyParser::default();
    let ctrl = |c| Key::ctrl(KeyCode::Char(c));
    assert_eq!(p.feed(ctrl('d')), Some(Action::HalfPageDown));
    assert_eq!(p.feed(ctrl('c')), Some(Action::Quit));
}

#[test]
fn action_clears_pending_keys() {
    let mut p = KeyParser::new();
    feed_str(&mut p, "12");
    assert_eq!(p.pending_display(), "12");
    assert_eq!(feed_str(&mut p, "j"), vec![Action::Down(12)]);
    assert_eq!(p.pending_display(), "");
}

#[test]
fn counts_stop_at_the_limit() {
    let mut p = KeyParser::new();
    let acts = feed_str(&mut p, "9999999j");
    assert_eq!(acts, vec![Action::Down(MAX_COUNT)]);
}

#[test]
fn reset_forgets_pending_keys() {
    let mut p = KeyParser::new();
    feed_str(&mut p, "3g");
    assert_eq!(p.pending_display(), "3g");
    p.reset();
    assert_eq!(p.pending_display(), "");
    assert_eq!(feed_str(&mut p, "g"), vec![]);
    assert_eq!(feed_str(&mut p, "g"), vec![Action::Top]);
}

#[test]
fn special_keys_and_letters() {
    let mut p = KeyParser::new();
    assert_eq!(p.feed(Key::plain(KeyCode::Enter)), Some(Action::Open));
    assert_eq!(p.feed(Key::plain(KeyCode::Down)), Some(Action::Down(1)));
    assert_eq!(feed_str(&mut p, "q"), vec![Action::Close]);
    assert_eq!(feed_str(&mut p, "u"), vec![Action::Undo]);
    assert_eq!(feed_str(&mut p, "2K"), vec![Action::MoveUp(2)]);
    assert_eq!(p.feed(Key::ctrl(KeyCode::Char('u'))), Some(Action::HalfPageUp));
}
