use trello_tui::cli::{card_ref, find, join, Command, FindError, Output};
use trello_tui::model::{boards_by_name, Board, Card, Label, List};
use trello_tui::subcommands::{
    add_fields, add_target, archive_fields, board_line, board_query, card_line, card_row_line,
    card_rows, edit_fields, list_line, move_fields, pick_board, pick_list, reads_stdin,
    show_text, sorted_lists, strip_trailing_newlines, CliError,
};

fn list(id: &str, name: &str) -> List {
    List { id: id.into(), name: name.into(), pos: 0 }
}

fn list_at(id: &str, name: &str, pos: u64) -> List {
    List { id: id.into(), name: name.into(), pos }
}

fn card(id: &str, name: &str, id_list: &str, pos: u64) -> Card {
    Card {
        id: id.into(),
        name: name.into(),
        desc: String::new(),
        id_list: id_list.into(),
        id_board: "b1".into(),
        pos,
        closed: false,
        labels: vec![],
        due: None,
        due_complete: false,
        short_url: format!("https://trello.com/c/{id}"),
    }
}

#[test]
fn find_lists() {
    let lists = [list("a1", "To Do"), list("b2", "Doing"), list("c3", "Done")];
    assert_eq!(find(&lists, "list", "b2").ok().unwrap().name, "Doing");
    assert_eq!(find(&lists, "list", "to do").ok().unwrap().id, "a1");
    assert_eq!(find(&lists, "list", "doi").ok().unwrap().id, "b2");
    // Every name contains "do".
    assert!(find(&lists, "list", "do").is_err());
    assert!(find(&lists, "list", "nope").is_err());
}

#[test]
fn card_refs() {
    assert_eq!(card_ref("abc123"), "abc123");
    assert_eq!(card_ref("https://trello.com/c/XyZ12/34-some-card"), "XyZ12");
    assert_eq!(card_ref("https://trello.com/c/XyZ12"), "XyZ12");
}

#[test]
fn find_prefers_id_then_exact_name() {
    let lists = [list("Done", "Later"), list("x", "done")];
    // An id beats a name.
    assert_eq!(find(&lists, "list", "Done").ok().unwrap().id, "Done");
    // An exact name beats a name that merely contains the query.
    let lists = [list("a", "Doing"), list("b", "Do")];
    assert_eq!(find(&lists, "list", "do").ok().unwrap().id, "b");
}

#[test]
fn find_errors_name_the_candidates() {
    let lists = [list("a1", "To Do"), list("b2", "Doing"), list("c3", "Done")];
    match find(&lists, "list", "do") {
        Err(e) => {
            assert_eq!(e.message(), "'do' matches several lists: To Do, Doing, Done");
            match e {
                FindError::Ambiguous { names, .. } => assert_eq!(names, vec!["To Do", "Doing", "Done"]),
                _ => panic!("expected an ambiguous match"),
            }
        }
        Ok(_) => panic!("expected an error"),
    }
    match find(&lists, "list", "nope") {
        Err(e) => assert_eq!(e.message(), "no list matches 'nope'"),
        Ok(_) => panic!("expected an error"),
    }
}

#[test]
fn card_ref_keeps_plain_ids() {
    assert_eq!(card_ref(""), "");
    assert_eq!(card_ref("trello.com/c/"), "");
    assert_eq!(card_ref("x/c/a/c/b"), "a");
    // Reading a reference twice changes nothing.
    let once = card_ref("https://trello.com/c/XyZ12/34-some-card");
    assert_eq!(card_ref(&once), once);
}

#[test]
fn join_puts_separators_between() {
    assert_eq!(join(&vec![], ", "), "");
    assert_eq!(join(&vec!["a".to_string()], ", "), "a");
    assert_eq!(join(&vec!["a".to_string(), "b".to_string(), "c".to_string()], "\t"), "a\tb\tc");
}

#[test]
fn boards_command_prints_text() {
    match Command::boards() {
        Command::Boards { out: Output { json } } => assert!(!json),
        _ => panic!("expected the boards command"),
    }
}

#[test]
fn board_query_falls_back_to_default() {
    assert_eq!(board_query(Some("Work".into()), Some("Home".into())).ok(), Some("Work".to_string()));
    assert_eq!(board_query(None, Some("Home".into())).ok(), Some("Home".to_string()));
    match board_query(None, None) {
        Err(e) => assert_eq!(
            e.message(),
            "no board given: pass --board or set default_board in the config"
        ),
        Ok(_) => panic!("expected an error"),
    }
}

#[test]
fn picking_boards_and_lists() {
    let boards = [
        Board { id: "b1".into(), name: "Work".into() },
        Board { id: "b2".into(), name: "Home".into() },
    ];
    assert_eq!(pick_board(&boards, "hom").ok().unwrap().id, "b2");
    match pick_board(&boards, "zzz") {
        Err(e) => assert_eq!(e.message(), "no board matches 'zzz'"),
        Ok(_) => panic!("expected an error"),
    }
    let lists = [list("l1", "Backlog"), list("l2", "Done")];
    assert_eq!(pick_list(&lists, "DONE").ok().unwrap().id, "l2");
    assert_eq!(add_target(&lists, None, "Work").ok().unwrap().id, "l1");
    assert_eq!(add_target(&lists, Some("back"), "Work").ok().unwrap().id, "l1");
    match add_target(&[], None, "Work") {
        Err(e) => {
            assert!(matches!(e, CliError::NoLists { .. }));
            assert_eq!(e.message(), "board 'Work' has no lists");
        }
        Ok(_) => panic!("expected an error"),
    }
}

#[test]
fn fields_sent_by_each_command() {
    let f = add_fields("l1", "Fix it".into(), None, true);
    assert_eq!(
        f,
        vec![
            ("idList".to_string(), "l1".to_string()),
            ("name".to_string(), "Fix it".to_string()),
            ("desc".to_string(), String::new()),
            ("pos".to_string(), "top".to_string()),
        ]
    );
    let f = add_fields("l1", "Fix it".into(), Some("why".into()), false);
    assert_eq!(f[2].1, "why");
    assert_eq!(f[3].1, "bottom");
    assert_eq!(
        edit_fields(Some("n".into()), Some("d".into())).ok().unwrap(),
        vec![("name".to_string(), "n".to_string()), ("desc".to_string(), "d".to_string())]
    );
    assert_eq!(
        edit_fields(None, Some("d".into())).ok().unwrap(),
        vec![("desc".to_string(), "d".to_string())]
    );
    match edit_fields(None, None) {
        Err(e) => assert_eq!(e.message(), "nothing to change: pass --name and/or --desc"),
        Ok(_) => panic!("expected an error"),
    }
    assert_eq!(
        move_fields("l2", false),
        vec![("idList".to_string(), "l2".to_string()), ("pos".to_string(), "bottom".to_string())]
    );
    assert_eq!(archive_fields(), vec![("closed".to_string(), "true".to_string())]);
}

#[test]
fn stdin_arguments() {
    assert!(reads_stdin("-"));
    assert!(!reads_stdin("--"));
    assert!(!reads_stdin("text"));
    assert_eq!(strip_trailing_newlines("line one\nline two\n\n"), "line one\nline two");
    assert_eq!(strip_trailing_newlines("\n"), "");
    assert_eq!(strip_trailing_newlines("a\n b"), "a\n b");
}

#[test]
fn printed_lines() {
    let b = Board { id: "b1".into(), name: "Work".into() };
    assert_eq!(board_line(&b), "b1\tWork");
    assert_eq!(list_line(&list("l1", "To Do")), "l1\tTo Do");
    assert_eq!(card_line(&card("c1", "Task", "l1", 1)), "c1\thttps://trello.com/c/c1");
}

#[test]
fn cards_in_board_order_with_list_names() {
    let lists = sorted_lists(vec![list_at("l2", "Doing", 20), list_at("l1", "To Do", 10)]);
    assert_eq!(lists[0].id, "l1");
    assert_eq!(lists[1].id, "l2");
    let cards = vec![
        card("c3", "third", "l2", 5),
        card("c1", "first", "l1", 7),
        card("c9", "orphan", "gone", 1),
        card("c2", "second", "l1", 3),
    ];
    let rows = card_rows(&lists, cards, None);
    let ids: Vec<&str> = rows.iter().map(|r| r.card.id.as_str()).collect();
    assert_eq!(ids, vec!["c9", "c2", "c1", "c3"]);
    assert_eq!(rows[0].list, "");
    assert_eq!(rows[0].list_index, None);
    assert_eq!(rows[1].list, "To Do");
    assert_eq!(rows[3].list, "Doing");
    assert_eq!(rows[3].list_index, Some(1));
    assert_eq!(card_row_line(&rows[1]), "c2\tTo Do\tsecond");

    let cards = vec![card("c3", "third", "l2", 5), card("c1", "first", "l1", 7)];
    let rows = card_rows(&lists, cards, Some(&lists[1]));
    assert_eq!(rows.len(), 1);
    assert_eq!(rows[0].card.id, "c3");
}

#[test]
fn show_prints_fields_then_description() {
    let mut c = card("c1", "Task", "l1", 1);
    assert_eq!(
        show_text(&c),
        "id\tc1\nurl\thttps://trello.com/c/c1\nlist\tl1\nname\tTask\n"
    );
    c.due = Some("2024-05-01T12:00:00.000Z".into());
    c.due_complete = true;
    c.labels = vec![
        Label { name: "bug".into(), color: Some("red".into()) },
        Label { name: "ui".into(), color: None },
    ];
    c.desc = "Steps:\n1. open".into();
    assert_eq!(
        show_text(&c),
        "id\tc1\nurl\thttps://trello.com/c/c1\nlist\tl1\nname\tTask\n\
         due\t2024-05-01T12:00:00.000Z (done)\nlabels\tbug, ui\n\nSteps:\n1. open\n"
    );
}

#[test]
fn boards_sort_by_name_ignoring_case() {
    let boards = vec![
        Board { id: "1".into(), name: "work".into() },
        Board { id: "2".into(), name: "Home".into() },
        Board { id: "3".into(), name: "archive".into() },
        Board { id: "4".into(), name: "Homework".into() },
    ];
    let names: Vec<String> = boards_by_name(boards).into_iter().map(|b| b.name).collect();
    assert_eq!(names, vec!["archive", "Home", "Homework", "work"]);
}
