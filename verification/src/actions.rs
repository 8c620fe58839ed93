//! Turns key presses into state changes and API calls.
use vstd::prelude::*;
use vstd::string::*;

use crate::app::{
    lemma_list_index_same,
    App, CardField, Column, column_wf, DescEditor, board_opened, boards_requested, reloaded, is_first_list, lemma_list_index, list_index, Effect, Overlay, PromptKind, Screen, Write, bumped, card_pos, column_now,
    is_prompt, is_update, lemma_column_now_wf, neighbours, pending_wf, temp_id, with_selected,
};
use crate::keys::{Action, Key, feed_spec, idle, law_counts_bounded};
use crate::model::{Board, Card, is_temp_id};
use crate::text::{contains, has_infix, lowercase, to_lowercase};

verus! {

/// `n` is `a` with the status line showing `msg`, as an error when `is_error`.
pub open spec fn told(a: App, n: App, msg: Seq<char>, is_error: bool) -> bool {
    &&& n == App { status: n.status, ..a }
    &&& n.status matches Some((m, e)) && m@ == msg && e == is_error
}

/// `n` has one more effect than `a`, at the end.
pub open spec fn one_more(a: Seq<Effect>, n: Seq<Effect>) -> bool {
    n.len() == a.len() + 1 && n.subrange(0, a.len() as int) == a
}

/// `n` is `a` with the bottom-line prompt of kind `kind` opened on the text `initial`.
pub open spec fn prompted(a: App, n: App, kind: PromptKind, initial: Seq<char>) -> bool {
    &&& n == App { keys: n.keys, prompt: Some(kind), effects: n.effects, ..a }
    &&& n.keys@ == idle()
    &&& n.keys.wf()
    &&& one_more(a.effects@, n.effects@)
    &&& is_prompt(n.effects@.last(), initial)
}

/// `n` queued, after `a`, an update of card `id` that sets `fields`.
pub open spec fn saved(a: App, n: App, id: Seq<char>, fields: Seq<CardField>) -> bool {
    &&& n.inflight == a.inflight + 1
    &&& one_more(a.effects@, n.effects@)
    &&& is_update(n.effects@.last(), id, fields)
    &&& bumped(a.pending_saves@, n.pending_saves@, id)
}

/// The selected card can be changed: there is one, and the server has confirmed it.
pub open spec fn editable(a: App) -> bool {
    a.current_card_at() matches Some(r) && !is_temp_id(a.columns@[a.col as int].cards@[r].id@)
}

/// The selected card.
pub open spec fn sel_card(a: App) -> Card {
    a.columns@[a.col as int].cards@[a.current_card_at()->0]
}

/// What an operation on the selected card does when the card cannot be changed: nothing
/// when no card is selected, a note when the card is still being created.
pub open spec fn gated(a: App, n: App) -> bool {
    match a.current_card_at() {
        None => n == a,
        Some(r) => told(a, n, "Card is still being created…"@, false),
    }
}

/// What `start_rename` does.
pub open spec fn rename_started(a: App, n: App, keep_name: bool) -> bool {
    if editable(a) {
        prompted(
            a,
            n,
            PromptKind::Rename { card_id: sel_card(a).id },
            if keep_name { sel_card(a).name@ } else { Seq::empty() },
        )
    } else {
        gated(a, n)
    }
}

/// What `rename_card` does: the card with id `id` gets the name `name`, which is sent to
/// the server, unless no card has that id or the name does not change.
pub open spec fn renamed(a: App, n: App, id: Seq<char>, name: String) -> bool {
    match card_pos(a.columns@, id) {
        None => n == a,
        Some((c, r)) => if a.columns@[c].cards@[r].name@ == name@ {
            n == a
        } else {
            &&& column_now(
                a.columns@,
                n.columns@,
                c,
                a.columns@[c].cards@.update(r, Card { name, ..a.columns@[c].cards@[r] }),
                a.columns@[c].selected,
            )
            &&& saved(a, n, id, seq![CardField::Name(name)])
            &&& n == App { columns: n.columns, inflight: n.inflight, effects: n.effects, pending_saves: n.pending_saves, ..a }
        },
    }
}

/// What `commit_desc` does: a changed description is set on the card, if it is still there,
/// and sent to the server.
pub open spec fn desc_committed(a: App, n: App, id: Seq<char>, desc: String, original: Seq<char>) -> bool {
    if desc@ == original {
        n == a
    } else {
        &&& match card_pos(a.columns@, id) {
            None => n.columns == a.columns,
            Some((c, r)) => column_now(
                a.columns@,
                n.columns@,
                c,
                a.columns@[c].cards@.update(r, Card { desc, ..a.columns@[c].cards@[r] }),
                a.columns@[c].selected,
            ),
        }
        &&& saved(a, n, id, seq![CardField::Desc(desc)])
        &&& n == App { columns: n.columns, inflight: n.inflight, effects: n.effects, pending_saves: n.pending_saves, ..a }
    }
}

/// The selection of a column of `len` cards after clamping `sel` into range.
pub open spec fn clamp_sel(sel: Option<usize>, len: nat) -> Option<usize> {
    if len == 0 {
        None
    } else {
        let s = match sel {
            Some(r) => r,
            None => 0usize,
        };
        Some(if s < len - 1 { s } else { (len - 1) as usize })
    }
}

/// What `archive_current` does: the selected card leaves its list, is marked closed on the
/// server, and is kept for `u` to undo.
pub open spec fn archived(a: App, n: App) -> bool {
    if editable(a) {
        let c = a.col as int;
        let r = a.current_card_at()->0;
        let card = sel_card(a);
        let rest = a.columns@[c].cards@.remove(r);
        &&& column_now(a.columns@, n.columns@, c, rest, clamp_sel(a.columns@[c].selected, rest.len()))
        &&& n.last_archived == Some(card)
        &&& n.status matches Some((m, false)) && m@ == "Archived \""@ + card.name@ + "\" — press u to undo"@
        &&& saved(a, n, card.id@, seq![CardField::Closed(true)])
        &&& n == App {
            columns: n.columns,
            last_archived: n.last_archived,
            status: n.status,
            inflight: n.inflight,
            effects: n.effects,
            pending_saves: n.pending_saves,
            ..a
        }
    } else {
        gated(a, n)
    }
}

/// `i` is where a card at position `p` goes back: after every card placed before `p`.
pub open spec fn is_insert_point(cards: Seq<Card>, p: u64, i: int) -> bool {
    &&& 0 <= i <= cards.len()
    &&& forall|j: int| 0 <= j < i ==> #[trigger] cards[j].pos < p
    &&& i < cards.len() ==> cards[i].pos >= p
}

/// The row where a card at position `p` goes back in a list.
pub open spec fn insert_point(cards: Seq<Card>, p: u64) -> int {
    choose|i: int| is_insert_point(cards, p, i)
}

proof fn lemma_insert_point(cards: Seq<Card>, p: u64, i: int)
    requires
        is_insert_point(cards, p, i),
    ensures
        insert_point(cards, p) == i,
{
    let k = choose|k: int| is_insert_point(cards, p, k);
    assert(k == i) by {
        if k < i {
            assert(cards[k].pos < p);
        } else if i < k {
            assert(cards[i].pos < p);
        }
    }
}

/// What `undo_archive` does: the last archived card goes back into its list, before the
/// first card that is not placed before it, and is reopened on the server.
pub open spec fn undone(a: App, n: App) -> bool {
    match a.last_archived {
        None => told(a, n, "Nothing to undo"@, false),
        Some(card) => match list_index(a.columns@, card.id_list@) {
            None => {
                &&& n == App { last_archived: None, status: n.status, ..a }
                &&& n.status matches Some((m, true)) && m@ == "The card's list no longer exists"@
            },
            Some(c) => {
                let i = insert_point(a.columns@[c].cards@, card.pos);
                &&& column_now(
                    a.columns@,
                    n.columns@,
                    c,
                    a.columns@[c].cards@.insert(i, Card { closed: false, ..card }),
                    Some(i as usize),
                )
                &&& n.col == c
                &&& n.last_archived is None
                &&& saved(a, n, card.id@, seq![CardField::Closed(false)])
                &&& n.status matches Some((m, false)) && m@ == "Restored \""@ + card.name@ + "\""@
                &&& n == App {
                    columns: n.columns,
                    col: n.col,
                    last_archived: None,
                    status: n.status,
                    inflight: n.inflight,
                    effects: n.effects,
                    pending_saves: n.pending_saves,
                    ..a
                }
            },
        },
    }
}

/// The positions around the gap before row `i`, where a card put in at `i` must sort.
pub open spec fn gap(cards: Seq<Card>, i: int) -> (Option<u64>, Option<u64>) {
    (
        if i > 0 { Some(cards[i - 1].pos) } else { None },
        if i < cards.len() { Some(cards[i].pos) } else { None },
    )
}

/// The row `r + delta`, kept within a list of `len` cards.
pub open spec fn clamp_row(r: int, delta: int, len: int) -> int {
    if r + delta < 0 {
        0
    } else if r + delta > len - 1 {
        len - 1
    } else {
        r + delta
    }
}

/// What `move_within` does: the selected card moves `delta` rows (kept within the list), takes
/// a position between its new neighbours, and the position is sent to the server.
pub open spec fn moved_within<F: Fn(Option<u64>, Option<u64>) -> u64>(a: App, n: App, delta: int, between: F) -> bool {
    if editable(a) {
        let c = a.col as int;
        let r = a.current_card_at()->0;
        let cards = a.columns@[c].cards@;
        let t = clamp_row(r, delta, cards.len() as int);
        let card = cards[r];
        let rest = cards.remove(r);
        let p = n.columns@[c].cards@[t].pos;
        if t == r {
            n == a
        } else {
            &&& between.ensures(gap(rest, t), p)
            &&& column_now(a.columns@, n.columns@, c, rest.insert(t, Card { pos: p, ..card }), Some(t as usize))
            &&& saved(a, n, card.id@, seq![CardField::Pos(p)])
            &&& n == App { columns: n.columns, inflight: n.inflight, effects: n.effects, pending_saves: n.pending_saves, ..a }
        }
    } else {
        gated(a, n)
    }
}

/// Columns `c1` and `c2` of `new` have the given cards and selections; the others are as in `old`.
pub open spec fn two_columns_now(
    old: Seq<Column>,
    new: Seq<Column>,
    c1: int,
    cards1: Seq<Card>,
    sel1: Option<usize>,
    c2: int,
    cards2: Seq<Card>,
    sel2: Option<usize>,
) -> bool {
    &&& 0 <= c1 < old.len()
    &&& 0 <= c2 < old.len()
    &&& c1 != c2
    &&& new.len() == old.len()
    &&& forall|d: int| 0 <= d < old.len() && d != c1 && d != c2 ==> #[trigger] new[d] == old[d]
    &&& new[c1].list == old[c1].list
    &&& new[c1].cards@ == cards1
    &&& new[c1].selected == sel1
    &&& new[c2].list == old[c2].list
    &&& new[c2].cards@ == cards2
    &&& new[c2].selected == sel2
}

/// What `move_across` does: the selected card moves to the list `dir` columns away (if there
/// is one and the server has confirmed it), into the same row or the end, takes a position
/// between its new neighbours, and list and position are sent to the server.
pub open spec fn moved_across<F: Fn(Option<u64>, Option<u64>) -> u64>(a: App, n: App, dir: int, between: F) -> bool {
    if editable(a) {
        let c = a.col as int;
        let t = c + dir;
        if t < 0 || t >= a.columns.len() {
            n == a
        } else if is_temp_id(a.columns@[t].list.id@) {
            told(a, n, "List is still being created…"@, false)
        } else if t == c {
            let r = a.current_card_at()->0;
            let card = a.columns@[c].cards@[r];
            let rest = a.columns@[c].cards@.remove(r);
            let i = if r < rest.len() { r } else { rest.len() as int };
            let list_id = a.columns@[c].list.id;
            let p = n.columns@[c].cards@[i].pos;
            &&& between.ensures(gap(rest, i), p)
            &&& column_now(a.columns@, n.columns@, c, rest.insert(i, Card { id_list: list_id, pos: p, ..card }), Some(i as usize))
            &&& saved(a, n, card.id@, seq![CardField::IdList(list_id), CardField::Pos(p)])
            &&& n == App {
                columns: n.columns,
                inflight: n.inflight,
                effects: n.effects,
                pending_saves: n.pending_saves,
                ..a
            }
        } else {
            let r = a.current_card_at()->0;
            let card = a.columns@[c].cards@[r];
            let rest = a.columns@[c].cards@.remove(r);
            let target = a.columns@[t].cards@;
            let i = if r < target.len() { r } else { target.len() as int };
            let list_id = a.columns@[t].list.id;
            let p = n.columns@[t].cards@[i].pos;
            &&& between.ensures(gap(target, i), p)
            &&& two_columns_now(
                a.columns@,
                n.columns@,
                c,
                rest,
                clamp_sel(a.columns@[c].selected, rest.len()),
                t,
                target.insert(i, Card { id_list: list_id, pos: p, ..card }),
                Some(i as usize),
            )
            &&& n.col == t
            &&& saved(a, n, card.id@, seq![CardField::IdList(list_id), CardField::Pos(p)])
            &&& n == App {
                columns: n.columns,
                col: n.col,
                inflight: n.inflight,
                effects: n.effects,
                pending_saves: n.pending_saves,
                ..a
            }
        }
    } else {
        gated(a, n)
    }
}

/// What `create_card` does: a card named `name` with a temporary id goes into column `c` at
/// row `index` (or the end), takes a position between its neighbours, is selected and sent
/// to the server, and the prompt opens again for the next card below it.
pub open spec fn card_created<F: Fn(Option<u64>, Option<u64>) -> u64>(
    a: App,
    n: App,
    c: int,
    index: int,
    name: String,
    between: F,
) -> bool {
    if c >= a.columns.len() {
        n == a
    } else {
        let cards = a.columns@[c].cards@;
        let i = if index < cards.len() { index } else { cards.len() as int };
        let card = n.columns@[c].cards@[i];
        let k = a.effects@.len() as int;
        &&& card.id@ == temp_id((a.temp_seq + 1) as nat)
        &&& card.name == name
        &&& card.desc@.len() == 0
        &&& card.id_list == a.columns@[c].list.id
        &&& card.id_board@.len() == 0
        &&& !card.closed
        &&& card.labels@.len() == 0
        &&& card.due is None
        &&& !card.due_complete
        &&& card.short_url@.len() == 0
        &&& between.ensures(gap(cards, i), card.pos)
        &&& column_now(a.columns@, n.columns@, c, cards.insert(i, card), Some(i as usize))
        &&& n.col == c
        &&& n.temp_seq == a.temp_seq + 1
        &&& n.inflight == a.inflight + 1
        &&& n.effects@.len() == k + 2
        &&& n.effects@.subrange(0, k) == a.effects@
        &&& n.effects@[k] matches Effect::Write(Write::Create { temp_id: t, list_id: l, name: m, pos })
            && t@ == card.id@ && l == card.id_list && m == name && pos == card.pos
        &&& is_prompt(n.effects@[k + 1], Seq::empty())
        &&& n.prompt == Some(PromptKind::NewCard { col: c as usize, index: (i + 1) as usize })
        &&& n.keys@ == idle()
        &&& n.keys.wf()
        &&& n == App {
            columns: n.columns,
            col: n.col,
            temp_seq: n.temp_seq,
            inflight: n.inflight,
            effects: n.effects,
            prompt: n.prompt,
            keys: n.keys,
            ..a
        }
    }
}

/// Every card position `(column, row)` of a board, in reading order.
pub open spec fn board_order(cols: Seq<Column>) -> Seq<(usize, usize)>
    decreases cols.len(),
{
    if cols.len() == 0 {
        Seq::empty()
    } else {
        board_order(cols.drop_last()) + Seq::new(
            cols.last().cards@.len(),
            |r: int| ((cols.len() - 1) as usize, r as usize),
        )
    }
}

/// Every navigable item as (column, row), in reading order: boards in the picker, cards
/// on a board.
pub open spec fn search_order(a: App) -> Seq<(usize, usize)> {
    if a.screen == Screen::Picker {
        Seq::new(a.boards@.len(), |i: int| (0usize, i as usize))
    } else {
        board_order(a.columns@)
    }
}

/// The selected item as (column, row).
pub open spec fn search_current(a: App) -> Option<(usize, usize)> {
    if a.screen == Screen::Picker {
        match a.picker {
            Some(r) => Some((0usize, r)),
            None => None,
        }
    } else if a.col < a.columns.len() {
        match a.columns@[a.col as int].selected {
            Some(r) => Some((a.col, r)),
            None => None,
        }
    } else {
        None
    }
}

/// The name of the item at `p`.
pub open spec fn name_at(a: App, p: (usize, usize)) -> Seq<char> {
    if a.screen == Screen::Picker {
        a.boards@[p.1 as int].name@
    } else {
        a.columns@[p.0 as int].cards@[p.1 as int].name@
    }
}

/// `i` is the first index of `order` that satisfies `f`.
pub open spec fn first_in(order: Seq<(usize, usize)>, f: spec_fn((usize, usize)) -> bool, i: int) -> bool {
    &&& 0 <= i < order.len()
    &&& f(order[i])
    &&& forall|j: int| 0 <= j < i ==> !f(#[trigger] order[j])
}

/// Where the search starts and whether it skips the starting item: at the selected item,
/// skipping it, or else at the first item in or right of the current column.
pub open spec fn search_start(a: App) -> (int, int) {
    let order = search_order(a);
    let at_cur = |p: (usize, usize)| search_current(a) == Some(p);
    let right = |p: (usize, usize)| p.0 >= a.col;
    if search_current(a) is Some && exists|i: int| first_in(order, at_cur, i) {
        (choose|i: int| first_in(order, at_cur, i), 1)
    } else if exists|i: int| first_in(order, right, i) {
        (choose|i: int| first_in(order, right, i), 0)
    } else {
        (0, 0)
    }
}

/// The index of `order` visited at step `step` from `start`, going forward or backward around.
pub open spec fn step_index(start: int, step: int, len: int, forward: bool) -> int {
    if forward {
        (start + step) % len
    } else {
        (start + len * 2 - step) % len
    }
}

/// The `k`th item visited by the search, counted from zero.
pub open spec fn visited(a: App, forward: bool, k: int) -> (usize, usize) {
    let order = search_order(a);
    let (start, skip) = search_start(a);
    order[step_index(start, k + skip, order.len() as int, forward)]
}

/// The `k`th item visited has a name that contains the query `q`, ignoring case.
pub open spec fn hit(a: App, forward: bool, q: Seq<char>, k: int) -> bool {
    has_infix(lowercase(name_at(a, visited(a, forward, k))), q)
}

/// `k` is the first step of the search that finds a match.
pub open spec fn first_hit(a: App, forward: bool, q: Seq<char>, k: int) -> bool {
    &&& 0 <= k < search_order(a).len()
    &&& hit(a, forward, q, k)
    &&& forall|j: int| 0 <= j < k ==> !#[trigger] hit(a, forward, q, j)
}

/// What `search_next` does: selects the next (or previous) item after the selected one, going
/// around, whose name contains the last search; says so when there is none.
pub open spec fn searched(a: App, n: App, forward: bool) -> bool {
    match a.search {
        None => told(a, n, "No previous search"@, false),
        Some(q) => {
            if exists|k: int| first_hit(a, forward, q@, k) {
                let k = choose|k: int| first_hit(a, forward, q@, k);
                let p = visited(a, forward, k);
                if a.screen == Screen::Picker {
                    n == App { picker: Some(p.1), ..a }
                } else {
                    &&& n.columns@ == with_selected(a.columns@, p.0 as int, Some(p.1))
                    &&& n == App { col: p.0, columns: n.columns, ..a }
                }
            } else {
                told(a, n, "Pattern not found: "@ + q@, true)
            }
        },
    }
}

proof fn lemma_board_order(cols: Seq<Column>)
    requires
        cols.len() <= usize::MAX,
    ensures
        forall|i: int|
            0 <= i < board_order(cols).len() ==> (#[trigger] board_order(cols)[i]).0 < cols.len()
                && board_order(cols)[i].1 < cols[board_order(cols)[i].0 as int].cards@.len(),
    decreases cols.len(),
{
    if cols.len() > 0 {
        let d = cols.drop_last();
        lemma_board_order(d);
        assert forall|i: int| 0 <= i < board_order(cols).len() implies (#[trigger] board_order(cols)[i]).0 < cols.len()
            && board_order(cols)[i].1 < cols[board_order(cols)[i].0 as int].cards@.len() by {
            if i < board_order(d).len() {
                assert(board_order(cols)[i] == board_order(d)[i]);
                assert(cols[board_order(d)[i].0 as int] == d[board_order(d)[i].0 as int]);
            } else {
                let r = i - board_order(d).len();
                assert(cols.last().cards.len() == cols.last().cards@.len());
                assert(board_order(cols)[i] == ((cols.len() - 1) as usize, r as usize));
            }
        }
    }
}

/// `i` is the first board with id `id`.
pub open spec fn is_first_board(boards: Seq<Board>, id: Seq<char>, i: int) -> bool {
    &&& 0 <= i < boards.len()
    &&& boards[i].id@ == id
    &&& forall|j: int| 0 <= j < i ==> #[trigger] boards[j].id@ != id
}

/// What `show_picker` does: shows the board picker with the open board selected.
pub open spec fn picker_shown(a: App, n: App) -> bool {
    let base = App { screen: Screen::Picker, ..a };
    if a.board matches Some(b) && exists|i: int| is_first_board(a.boards@, b.id@, i) {
        n == App { picker: Some((choose|i: int| is_first_board(a.boards@, a.board->0.id@, i)) as usize), ..base }
    } else {
        n == base
    }
}

/// What `open_desc_editor` does: opens the description editor on the selected card.
pub open spec fn desc_opened(a: App, n: App, return_to_detail: bool) -> bool {
    if editable(a) {
        let card = sel_card(a);
        &&& n == App {
            overlay: Overlay::Desc(
                DescEditor {
                    card_id: card.id,
                    card_name: card.name,
                    original: card.desc,
                    insert: false,
                    pending: None,
                    cmd: None,
                    message: None,
                    return_to_detail,
                },
            ),
            effects: n.effects,
            ..a
        }
        &&& one_more(a.effects@, n.effects@)
        &&& n.effects@.last() matches Effect::EditDesc { text } && text == card.desc
    } else {
        gated(a, n)
    }
}

/// Where a vertical motion lands in a list of `len` items, if `action` is one.
pub open spec fn nav_target_spec(cur: Option<usize>, len: usize, action: Action, half: usize) -> Option<usize> {
    if len == 0 {
        None
    } else {
        let c = match cur {
            Some(x) => x,
            None => 0usize,
        };
        let last = (len - 1) as usize;
        let lo = |x: usize| if x < last { x } else { last };
        match action {
            Action::Down(n) => Some(lo(c.saturating_add(n))),
            Action::Up(n) => Some(c.saturating_sub(n)),
            Action::Top => Some(0),
            Action::Goto(None) => Some(last),
            Action::Goto(Some(n)) => Some(lo(n.saturating_sub(1))),
            Action::HalfPageDown => Some(lo(c.saturating_add(half))),
            Action::HalfPageUp => Some(c.saturating_sub(half)),
            _ => None,
        }
    }
}

/// Where a vertical motion lands in a list of `len` items, if `action` is one. Downward
/// motions stop at the last item; upward ones step back from the current row, so from a row
/// inside the list they stay inside it.
pub fn nav_target(cur: Option<usize>, len: usize, action: Action, half: usize) -> (r: Option<usize>)
    ensures
        r == nav_target_spec(cur, len, action, half),
        (match cur {
            Some(c) => c < len,
            None => true,
        }) ==> (r matches Some(t) ==> t < len),
{
    if len == 0 {
        return None;
    }
    let cur = match cur {
        Some(x) => x,
        None => 0,
    };
    let last = len - 1;
    match action {
        Action::Down(n) => Some(min_usize(cur.saturating_add(n), last)),
        Action::Up(n) => Some(cur.saturating_sub(n)),
        Action::Top => Some(0),
        Action::Goto(None) => Some(last),
        Action::Goto(Some(n)) => Some(min_usize(n.saturating_sub(1), last)),
        Action::HalfPageDown => Some(min_usize(cur.saturating_add(half), last)),
        Action::HalfPageUp => Some(cur.saturating_sub(half)),
        _ => None,
    }
}

fn min_usize(a: usize, b: usize) -> (r: usize)
    ensures
        r == if a < b { a } else { b },
{
    if a < b { a } else { b }
}

/// The row selected in the current column, if any.
pub open spec fn row_of(a: App) -> Option<usize> {
    if a.col < a.columns.len() {
        a.columns@[a.col as int].selected
    } else {
        None
    }
}

/// What an action does on the board picker.
pub open spec fn picker_acted(a: App, n: App, action: Action) -> bool {
    match nav_target_spec(a.picker, a.boards.len(), action, a.half_page) {
        Some(t) => n == App { picker: Some(t), ..a },
        None => {
            if action is Open || action is Right {
                if a.picker is Some && a.picker->0 < a.boards.len() {
                    board_opened(a, n, a.boards@[a.picker->0 as int])
                } else {
                    n == a
                }
            } else if action is Back && a.search is Some {
                n == App { search: None, ..a }
            } else if action is Back && a.board is Some {
                n == App { screen: Screen::Board, ..a }
            } else if action is Back || action is Close {
                n == App { should_quit: true, ..a }
            } else if action is Refresh {
                boards_requested(a, n)
            } else {
                n == a
            }
        },
    }
}

/// The prompt kind for a new card above or below the selected one.
pub open spec fn new_card_index(a: App, below: bool) -> usize {
    match row_of(a) {
        Some(r) => if below { (r + 1) as usize } else { r },
        None => 0,
    }
}

/// What an action does on a board.
pub open spec fn board_acted<F: Fn(Option<u64>, Option<u64>) -> u64>(a: App, n: App, action: Action, between: F) -> bool {
    let len: usize = if a.col < a.columns.len() { a.columns@[a.col as int].cards.len() } else { 0 };
    match nav_target_spec(row_of(a), len, action, a.half_page) {
        Some(t) => {
            &&& n.columns@ == with_selected(a.columns@, a.col as int, Some(t))
            &&& n == App { columns: n.columns, ..a }
        },
        None => match action {
            Action::Left(k) => n == App { col: a.col.saturating_sub(k), ..a },
            Action::Right(k) => n == App {
                col: if a.col.saturating_add(k) < a.columns.len().saturating_sub(1) {
                    a.col.saturating_add(k)
                } else {
                    a.columns.len().saturating_sub(1)
                },
                ..a
            },
            Action::Open => if a.current_card_at() is Some {
                n == App { overlay: Overlay::Detail { scroll: 0 }, ..a }
            } else {
                n == a
            },
            Action::Back => if a.search is Some {
                n == App { search: None, ..a }
            } else {
                picker_shown(a, n)
            },
            Action::Close => picker_shown(a, n),
            Action::NewBelow => new_card_prompted(a, n, true),
            Action::NewAbove => new_card_prompted(a, n, false),
            Action::Rename => rename_started(a, n, true),
            Action::Change => rename_started(a, n, false),
            Action::EditDesc => desc_opened(a, n, false),
            Action::Archive => archived(a, n),
            Action::Undo => undone(a, n),
            Action::MoveLeft => moved_across(a, n, -1, between),
            Action::MoveRight => moved_across(a, n, 1, between),
            Action::MoveDown(k) => moved_within(a, n, (k as isize) as int, between),
            Action::MoveUp(k) => moved_within(a, n, -((k as isize) as int), between),
            Action::Refresh => reloaded(a, n),
            _ => n == a,
        },
    }
}

/// What `o` / `O` do: open the prompt for a new card below / above the selected one.
pub open spec fn new_card_prompted(a: App, n: App, below: bool) -> bool {
    if a.columns.len() == 0 {
        told(a, n, "This board has no lists — press A to add one"@, true)
    } else if is_temp_id(a.columns@[a.col as int].list.id@) {
        told(a, n, "List is still being created…"@, false)
    } else {
        prompted(a, n, PromptKind::NewCard { col: a.col, index: new_card_index(a, below) }, Seq::empty())
    }
}

/// What an action does while the card details are shown, scrolled by `scroll`.
pub open spec fn detail_acted<F: Fn(Option<u64>, Option<u64>) -> u64>(
    a: App,
    n: App,
    scroll: u16,
    action: Action,
    between: F,
) -> bool {
    match action {
        Action::Back => n == App { overlay: Overlay::Hidden, ..a },
        Action::Close => n == App { overlay: Overlay::Hidden, ..a },
        Action::Open => n == App { overlay: Overlay::Hidden, ..a },
        Action::Down(k) => n == App { overlay: Overlay::Detail { scroll: scroll.saturating_add(k as u16) }, ..a },
        Action::Up(k) => n == App { overlay: Overlay::Detail { scroll: scroll.saturating_sub(k as u16) }, ..a },
        Action::Top => n == App { overlay: Overlay::Detail { scroll: 0 }, ..a },
        Action::EditDesc => desc_opened(a, n, true),
        Action::Rename => rename_started(a, n, true),
        Action::Change => rename_started(a, n, false),
        Action::Archive => archived(App { overlay: Overlay::Hidden, ..a }, n),
        Action::MoveLeft => moved_across(a, n, -1, between),
        Action::MoveRight => moved_across(a, n, 1, between),
        _ => n == a,
    }
}

/// What an action does, wherever it comes.
pub open spec fn dispatched<F: Fn(Option<u64>, Option<u64>) -> u64>(a: App, n: App, action: Action, between: F) -> bool {
    match action {
        Action::Quit => n == App { should_quit: true, ..a },
        Action::Command => prompted(a, n, PromptKind::Command, Seq::empty()),
        Action::Search => prompted(a, n, PromptKind::Search, Seq::empty()),
        Action::NextMatch => searched(a, n, true),
        Action::PrevMatch => searched(a, n, false),
        Action::Help => n == App { overlay: Overlay::Help, ..a },
        _ => match a.overlay {
            Overlay::Detail { scroll } => detail_acted(a, n, scroll, action, between),
            _ => if a.screen == Screen::Picker {
                picker_acted(a, n, action)
            } else {
                board_acted(a, n, action, between)
            },
        },
    }
}

/// A `MoveUp` count that `move_within` can negate.
pub open spec fn negatable(action: Action) -> bool {
    action matches Action::MoveUp(k) ==> (k as isize) != isize::MIN
}

/// What a key press does outside the prompt and the description editor.
pub open spec fn key_handled<F: Fn(Option<u64>, Option<u64>) -> u64>(a: App, n: App, key: Key, between: F) -> bool {
    if a.prompt is Some || a.overlay is Desc {
        n == a
    } else if a.overlay is Help {
        n == App { overlay: Overlay::Hidden, ..a }
    } else {
        exists|m: App|
            #[trigger] key_read(a, m, key) && match feed_spec(a.keys@, key).1 {
                None => n == m,
                Some(action) => dispatched(m, n, action, between),
            }
    }
}

/// `m` is `a` after feeding `key` to the key parser.
pub open spec fn key_read(a: App, m: App, key: Key) -> bool {
    &&& m.keys@ == feed_spec(a.keys@, key).0
    &&& m.keys.wf()
    &&& if feed_spec(a.keys@, key).1 is Some {
        m == App { keys: m.keys, status: None, ..a }
    } else {
        m == App { keys: m.keys, ..a }
    }
}

impl App {
    pub fn open_prompt(&mut self, kind: PromptKind, initial: &str)
        ensures
            old(self).wf() ==> final(self).wf(),
            prompted(*old(self), *final(self), kind, initial@),
    {
        self.keys.reset();
        self.prompt = Some(kind);
        self.effects.push(Effect::Prompt { initial: String::from_str(initial) });
        assert(self.effects@.subrange(0, old(self).effects@.len() as int) =~= old(self).effects@);
    }

    /// The row of the selected card if it can be changed; otherwise does what `gated` says.
    fn editable_row(&mut self) -> (r: Option<usize>)
        requires
            old(self).wf(),
        ensures
            editable(*old(self)) ==> r == Some(old(self).current_card_at()->0 as usize) && *final(self)
                == *old(self),
            !editable(*old(self)) ==> r is None && gated(*old(self), *final(self)),
    {
        let row = match self.current_card() {
            Some(card) => {
                if card.is_pending() {
                    None
                } else {
                    Some(self.columns[self.col].selected.unwrap())
                }
            },
            None => return None,
        };
        if row.is_none() {
            self.info(String::from_str("Card is still being created…"));
        }
        row
    }

    pub fn start_rename(&mut self, keep_name: bool)
        requires
            old(self).wf(),
        ensures
            final(self).wf(),
            rename_started(*old(self), *final(self), keep_name),
    {
        if let Some(r) = self.editable_row() {
            let card = &self.columns[self.col].cards[r];
            let kind = PromptKind::Rename { card_id: card.id.clone() };
            let initial = if keep_name { card.name.clone() } else { String::new() };
            self.open_prompt(kind, initial.as_str());
        }
    }

    pub fn rename_card(&mut self, card_id: &str, name: String)
        requires
            old(self).wf(),
            old(self).has_room(),
            pending_wf(old(self).pending_saves@),
        ensures
            final(self).wf(),
            renamed(*old(self), *final(self), card_id@, name),
    {
        let (c, r) = match self.find_card(card_id) {
            Some(p) => p,
            None => return,
        };
        if self.columns[c].cards[r].name == name {
            return;
        }
        let mut card = self.remove_card(c, r);
        card.name = name.clone();
        self.insert_card(c, r, card);
        assert(self.columns@[c as int].cards@ =~= old(self).columns@[c as int].cards@.update(
            r as int,
            Card { name, ..old(self).columns@[c as int].cards@[r as int] },
        ));
        proof {
            assert(column_wf(old(self).columns@[c as int]));
            assert(self.columns@[c as int].cards@.len() == old(self).columns@[c as int].cards@.len());
            lemma_column_now_wf(old(self).columns@, self.columns@, c as int, self.columns@[c as int].cards@, old(self).columns@[c as int].selected);
        }
        let mut fields: Vec<CardField> = Vec::new();
        fields.push(CardField::Name(name));
        self.save_card(card_id, fields);
        assert(fields@ =~= seq![CardField::Name(name)]);
    }

    pub fn commit_desc(&mut self, card_id: &str, desc: String, original: &str)
        requires
            old(self).wf(),
            old(self).has_room(),
            pending_wf(old(self).pending_saves@),
        ensures
            final(self).wf(),
            desc_committed(*old(self), *final(self), card_id@, desc, original@),
    {
        if desc == String::from_str(original) {
            return;
        }
        if let Some((c, r)) = self.find_card(card_id) {
            let mut card = self.remove_card(c, r);
            card.desc = desc.clone();
            self.insert_card(c, r, card);
            assert(self.columns@[c as int].cards@ =~= old(self).columns@[c as int].cards@.update(
                r as int,
                Card { desc, ..old(self).columns@[c as int].cards@[r as int] },
            ));
            proof {
                assert(column_wf(old(self).columns@[c as int]));
            assert(self.columns@[c as int].cards@.len() == old(self).columns@[c as int].cards@.len());
            lemma_column_now_wf(old(self).columns@, self.columns@, c as int, self.columns@[c as int].cards@, old(self).columns@[c as int].selected);
            }
        }
        let mut fields: Vec<CardField> = Vec::new();
        fields.push(CardField::Desc(desc));
        self.save_card(card_id, fields);
        assert(fields@ =~= seq![CardField::Desc(desc)]);
    }

    /// The first column whose list has id `id`.
    pub fn list_position(&self, id: &String) -> (r: Option<usize>)
        ensures
            r matches Some(c) ==> list_index(self.columns@, id@) == Some(c as int) && c < self.columns@.len(),
            r is None ==> list_index(self.columns@, id@) is None,
    {
        let mut c: usize = 0;
        while c < self.columns.len()
            invariant
                c <= self.columns.len(),
                forall|d: int| 0 <= d < c ==> #[trigger] self.columns@[d].list.id@ != id@,
            decreases self.columns.len() - c,
        {
            if self.columns[c].list.id == *id {
                proof {
                    lemma_list_index(self.columns@, id@, c as int);
                }
                return Some(c);
            }
            c = c + 1;
        }
        None
    }

    pub fn undo_archive(&mut self)
        requires
            old(self).wf(),
            old(self).has_room(),
        ensures
            final(self).wf(),
            undone(*old(self), *final(self)),
    {
        let mut card = match self.last_archived.take() {
            Some(card) => card,
            None => {
                self.info(String::from_str("Nothing to undo"));
                return;
            },
        };
        let c = match self.list_position(&card.id_list) {
            Some(c) => c,
            None => {
                self.error(String::from_str("The card's list no longer exists"));
                return;
            },
        };
        card.closed = false;
        let i = insert_point_of(&self.columns[c].cards, card.pos);
        proof {
            lemma_insert_point(self.columns@[c as int].cards@, card.pos, i as int);
        }
        let id = card.id.clone();
        let mut msg = String::from_str("Restored \"");
        msg.append(card.name.as_str());
        msg.append("\"");
        self.insert_card(c, i, card);
        self.col = c;
        self.set_selected(c, Some(i));
        let mut fields: Vec<CardField> = Vec::new();
        fields.push(CardField::Closed(false));
        self.save_card(id.as_str(), fields);
        assert(fields@ =~= seq![CardField::Closed(false)]);
        self.info(msg);
    }

    #[verifier::rlimit(40)]
    pub fn move_within<F: Fn(Option<u64>, Option<u64>) -> u64>(&mut self, delta: isize, between: &F)
        requires
            old(self).wf(),
            old(self).has_room(),
            forall|p: Option<u64>, n: Option<u64>| between.requires((p, n)),
        ensures
            final(self).wf(),
            moved_within(*old(self), *final(self), delta as int, *between),
    {
        let r = match self.editable_row() {
            Some(r) => r,
            None => return,
        };
        let c = self.col;
        let len = self.columns[c].cards.len();
        let want: i128 = r as i128 + delta as i128;
        let t: usize = if want < 0 {
            0
        } else if want > len as i128 - 1 {
            len - 1
        } else {
            want as usize
        };
        if t == r {
            return;
        }
        let id = self.columns[c].cards[r].id.clone();
        let moved = self.remove_card(c, r);
        self.insert_card(c, t, moved);
        let pos = self.reposition(c, t, between);
        self.set_selected(c, Some(t));
        let mut fields: Vec<CardField> = Vec::new();
        fields.push(CardField::Pos(pos));
        self.save_card(id.as_str(), fields);
        proof {
            let cards = old(self).columns@[c as int].cards@;
            let rest = cards.remove(r as int);
            assert(fields@ =~= seq![CardField::Pos(pos)]);
            assert(rest.insert(t as int, cards[r as int]).update(t as int, Card { pos, ..cards[r as int] })
                =~= rest.insert(t as int, Card { pos, ..cards[r as int] }));
            assert(neighbours(rest.insert(t as int, cards[r as int]), t as int) == gap(rest, t as int));
        }
    }

    #[verifier::rlimit(100)]
    #[verifier::spinoff_prover]
    pub fn move_across<F: Fn(Option<u64>, Option<u64>) -> u64>(&mut self, dir: isize, between: &F)
        requires
            old(self).wf(),
            old(self).has_room(),
            forall|p: Option<u64>, n: Option<u64>| between.requires((p, n)),
        ensures
            final(self).wf(),
            moved_across(*old(self), *final(self), dir as int, *between),
    {
        let r = match self.editable_row() {
            Some(r) => r,
            None => return,
        };
        let c = self.col;
        let want: i128 = c as i128 + dir as i128;
        if want < 0 || want >= self.columns.len() as i128 {
            return;
        }
        let t = want as usize;
        if self.columns[t].list.is_pending() {
            self.info(String::from_str("List is still being created…"));
            return;
        }
        let ghost s0 = *self;
        let mut moved = self.remove_card(c, r);
        let id = moved.id.clone();
        self.clamp_selection(c);
        let ghost s2 = *self;
        let list_id = self.columns[t].list.id.clone();
        moved.id_list = list_id.clone();
        let n = self.columns[t].cards.len();
        let i = if r < n { r } else { n };
        self.insert_card(t, i, moved);
        let ghost s3 = *self;
        let pos = self.reposition(t, i, between);
        let ghost s4 = *self;
        self.col = t;
        self.set_selected(t, Some(i));
        let ghost s5 = *self;
        let mut fields: Vec<CardField> = Vec::new();
        fields.push(CardField::IdList(list_id));
        fields.push(CardField::Pos(pos));
        self.save_card(id.as_str(), fields);
        proof {
            if t == c {
                let card = s0.columns@[c as int].cards@[r as int];
                let rest = s0.columns@[c as int].cards@.remove(r as int);
                let lid = s0.columns@[c as int].list.id;
                let moved_card = Card { id_list: lid, ..card };
                assert(fields@ =~= seq![CardField::IdList(lid), CardField::Pos(pos)]);
                assert(s2.columns@[c as int].cards@ == rest);
                assert(s3.columns@[c as int].cards@ == rest.insert(i as int, moved_card));
                assert(neighbours(rest.insert(i as int, moved_card), i as int) == gap(rest, i as int));
                assert(rest.insert(i as int, moved_card).update(i as int, Card { pos, ..moved_card })
                    =~= rest.insert(i as int, Card { id_list: lid, pos, ..card }));
                assert(s4.columns@[c as int].cards@ == rest.insert(i as int, Card { id_list: lid, pos, ..card }));
                assert(s5.columns@[c as int].cards@ == s4.columns@[c as int].cards@);
                assert forall|d: int| 0 <= d < s0.columns.len() && d != c implies #[trigger] s5.columns@[d] == s0.columns@[d] by {
                    assert(s2.columns@[d] == s0.columns@[d]);
                    assert(s3.columns@[d] == s2.columns@[d]);
                    assert(s4.columns@[d] == s3.columns@[d]);
                }
                assert(self.columns == s5.columns);
            } else {
                let card = s0.columns@[c as int].cards@[r as int];
                let rest = s0.columns@[c as int].cards@.remove(r as int);
                let target = s0.columns@[t as int].cards@;
                let lid = s0.columns@[t as int].list.id;
                let moved_card = Card { id_list: lid, ..card };
                assert(fields@ =~= seq![CardField::IdList(lid), CardField::Pos(pos)]);
                assert(s2.columns@[c as int].cards@ == rest);
                assert(s2.columns@[c as int].selected == clamp_sel(s0.columns@[c as int].selected, rest.len()));
                assert(s2.columns@[t as int] == s0.columns@[t as int]);
                assert(s3.columns@[t as int].cards@ == target.insert(i as int, moved_card));
                assert(neighbours(target.insert(i as int, moved_card), i as int) == gap(target, i as int));
                assert(target.insert(i as int, moved_card).update(i as int, Card { pos, ..moved_card })
                    =~= target.insert(i as int, Card { id_list: lid, pos, ..card }));
                assert(s4.columns@[t as int].cards@ == target.insert(i as int, Card { id_list: lid, pos, ..card }));
                assert(s5.columns@[t as int].cards@ == s4.columns@[t as int].cards@);
                assert(s5.columns@[c as int] == s2.columns@[c as int]);
                assert forall|d: int| 0 <= d < s0.columns.len() && d != c && d != t implies #[trigger] s5.columns@[d] == s0.columns@[d] by {
                    assert(s2.columns@[d] == s0.columns@[d]);
                    assert(s3.columns@[d] == s2.columns@[d]);
                    assert(s4.columns@[d] == s3.columns@[d]);
                }
                assert(self.columns == s5.columns);
            }
        }
    }

    pub fn create_card<F: Fn(Option<u64>, Option<u64>) -> u64>(&mut self, c: usize, index: usize, name: String, between: &F)
        requires
            old(self).wf(),
            old(self).has_room(),
            forall|p: Option<u64>, n: Option<u64>| between.requires((p, n)),
        ensures
            final(self).wf(),
            card_created(*old(self), *final(self), c as int, index as int, name, *between),
    {
        if c >= self.columns.len() {
            return;
        }
        let n = self.columns[c].cards.len();
        let index = if index < n { index } else { n };
        let list_id = self.columns[c].list.id.clone();
        let tid = self.next_temp_id();
        let card = Card {
            id: tid.clone(),
            name: name.clone(),
            desc: String::new(),
            id_list: list_id.clone(),
            id_board: String::new(),
            pos: 0,
            closed: false,
            labels: Vec::new(),
            due: None,
            due_complete: false,
            short_url: String::new(),
        };
        let ghost s1 = *self;
        self.insert_card(c, index, card);
        let grown = self.columns[c].cards.len();
        let pos = self.reposition(c, index, between);
        self.col = c;
        self.set_selected(c, Some(index));
        let ghost s4 = *self;
        self.write(Write::Create { temp_id: tid, list_id, name, pos });
        let ghost s5 = *self;
        assert(index < grown);
        self.open_prompt(PromptKind::NewCard { col: c, index: index + 1 }, "");
        proof {
            reveal_strlit("");
            assert(""@ =~= Seq::<char>::empty());
            let cards = old(self).columns@[c as int].cards@;
            let k = old(self).effects@.len() as int;
            let nc = Card { pos, ..card };
            assert(neighbours(cards.insert(index as int, card), index as int) == gap(cards, index as int));
            assert(cards.insert(index as int, card).update(index as int, nc) =~= cards.insert(index as int, nc));
            assert(s4.columns@[c as int].cards@ == cards.insert(index as int, nc));
            assert(self.columns == s4.columns);
            assert(self.columns@[c as int].cards@[index as int] == nc);
            assert(s5.effects@ == s4.effects@.push(s5.effects@[k]));
            assert(s4.effects@ == old(self).effects@);
            assert(self.effects@.subrange(0, k) =~= old(self).effects@);
            assert(self.effects@[k] == s5.effects@[k]);
            let fin = *self;
            let card2 = fin.columns@[c as int].cards@[index as int];
            assert(card2.id@ == temp_id((old(self).temp_seq + 1) as nat));
            assert(card2.name == name);
            assert(card2.desc@.len() == 0);
            assert(card2.labels@.len() == 0);
            assert(between.ensures(gap(cards, index as int), card2.pos));
            assert(column_now(old(self).columns@, fin.columns@, c as int, cards.insert(index as int, card2), Some(index)));
            assert(fin.effects@[k] matches Effect::Write(Write::Create { temp_id: t, list_id: l, name: m, pos })
            && t@ == card2.id@ && l == card2.id_list && m == name && pos == card2.pos);
            assert(is_prompt(fin.effects@[k + 1], Seq::empty()));
            assert(fin.prompt == Some(PromptKind::NewCard { col: c, index: (index + 1) as usize }));
            assert(fin == App {
            columns: fin.columns,
            col: fin.col,
            temp_seq: fin.temp_seq,
            inflight: fin.inflight,
            effects: fin.effects,
            prompt: fin.prompt,
            keys: fin.keys,
            ..*old(self)
        });
        }
    }

    pub fn archive_current(&mut self)
        requires
            old(self).wf(),
            old(self).has_room(),
        ensures
            final(self).wf(),
            archived(*old(self), *final(self)),
    {
        let r = match self.editable_row() {
            Some(r) => r,
            None => return,
        };
        let c = self.col;
        let card = self.remove_card(c, r);
        self.clamp_selection(c);
        let mut msg = String::from_str("Archived \"");
        msg.append(card.name.as_str());
        msg.append("\" — press u to undo");
        self.info(msg);
        let mut fields: Vec<CardField> = Vec::new();
        fields.push(CardField::Closed(true));
        self.save_card(card.id.as_str(), fields);
        assert(fields@ =~= seq![CardField::Closed(true)]);
        self.last_archived = Some(card);
    }

    pub fn show_picker(&mut self)
        requires
            old(self).wf(),
        ensures
            final(self).wf(),
            picker_shown(*old(self), *final(self)),
    {
        self.screen = Screen::Picker;
        let id = match &self.board {
            Some(b) => b.id.clone(),
            None => return,
        };
        let mut i: usize = 0;
        while i < self.boards.len()
            invariant
                i <= self.boards.len(),
                old(self).board matches Some(b) && b.id@ == id@,
                old(self).wf(),
                *self == (App { screen: Screen::Picker, ..*old(self) }),
                forall|j: int| 0 <= j < i ==> #[trigger] self.boards@[j].id@ != id@,
            decreases self.boards.len() - i,
        {
            if self.boards[i].id == id {
                proof {
                    assert(is_first_board(self.boards@, id@, i as int));
                    let k = choose|k: int| is_first_board(self.boards@, id@, k);
                    assert(k == i as int) by {
                        if k < i {
                            assert(self.boards@[k].id@ != id@);
                        } else if (i as int) < k {
                            assert(self.boards@[i as int].id@ != id@);
                        }
                    }
                }
                self.picker = Some(i);
                return;
            }
            i = i + 1;
        }
    }

    pub fn open_desc_editor(&mut self, return_to_detail: bool)
        requires
            old(self).wf(),
        ensures
            final(self).wf(),
            desc_opened(*old(self), *final(self), return_to_detail),
    {
        let r = match self.editable_row() {
            Some(r) => r,
            None => return,
        };
        let card = &self.columns[self.col].cards[r];
        let editor = DescEditor {
            card_id: card.id.clone(),
            card_name: card.name.clone(),
            original: card.desc.clone(),
            insert: false,
            pending: None,
            cmd: None,
            message: None,
            return_to_detail,
        };
        let text = card.desc.clone();
        self.overlay = Overlay::Desc(editor);
        self.effects.push(Effect::EditDesc { text });
        assert(self.effects@.subrange(0, old(self).effects@.len() as int) =~= old(self).effects@);
    }

    /// Every navigable item as (column, row), in reading order.
    fn search_positions(&self) -> (order: Vec<(usize, usize)>)
        ensures
            order@ == search_order(*self),
    {
        let mut order: Vec<(usize, usize)> = Vec::new();
        if self.screen == Screen::Picker {
            let mut i: usize = 0;
            while i < self.boards.len()
                invariant
                    i <= self.boards.len(),
                    self.screen == Screen::Picker,
                    order@ == Seq::new(i as nat, |j: int| (0usize, j as usize)),
                decreases self.boards.len() - i,
            {
                order.push((0, i));
                i = i + 1;
                assert(order@ =~= Seq::new(i as nat, |j: int| (0usize, j as usize)));
            }
            return order;
        }
        let mut c: usize = 0;
        while c < self.columns.len()
            invariant
                c <= self.columns.len(),
                self.screen != Screen::Picker,
                order@ == board_order(self.columns@.subrange(0, c as int)),
            decreases self.columns.len() - c,
        {
            let n = self.columns[c].cards.len();
            let ghost before = order@;
            let mut r: usize = 0;
            while r < n
                invariant
                    r <= n,
                    c < self.columns.len(),
                    n == self.columns@[c as int].cards@.len(),
                    order@ == before + Seq::new(r as nat, |j: int| (c, j as usize)),
                decreases n - r,
            {
                order.push((c, r));
                r = r + 1;
                assert(order@ =~= before + Seq::new(r as nat, |j: int| (c, j as usize)));
            }
            proof {
                let sub = self.columns@.subrange(0, c + 1);
                assert(sub.drop_last() =~= self.columns@.subrange(0, c as int));
                assert(sub.last() == self.columns@[c as int]);
                assert(Seq::new(n as nat, |j: int| (c, j as usize)) =~= Seq::new(
                    sub.last().cards@.len(),
                    |j: int| ((sub.len() - 1) as usize, j as usize),
                ));
            }
            c = c + 1;
        }
        assert(self.columns@.subrange(0, self.columns@.len() as int) =~= self.columns@);
        order
    }

    /// The lower-cased name of the item at `p`.
    fn lower_name_at(&self, p: (usize, usize)) -> (name: String)
        requires
            self.screen == Screen::Picker ==> p.1 < self.boards.len(),
            self.screen != Screen::Picker ==> p.0 < self.columns.len() && p.1
                < self.columns@[p.0 as int].cards.len(),
        ensures
            name@ == lowercase(name_at(*self, p)),
    {
        if self.screen == Screen::Picker {
            to_lowercase(self.boards[p.1].name.as_str())
        } else {
            to_lowercase(self.columns[p.0].cards[p.1].name.as_str())
        }
    }

    pub fn search_next(&mut self, forward: bool)
        requires
            old(self).wf(),
        ensures
            final(self).wf(),
            searched(*old(self), *final(self), forward),
    {
        let query = match &self.search {
            Some(q) => q.clone(),
            None => {
                self.info(String::from_str("No previous search"));
                return;
            },
        };
        let order = self.search_positions();
        let ghost a = *self;
        proof {
            lemma_board_order(self.columns@);
        }
        let len = order.len();
        let current: Option<(usize, usize)> = if self.screen == Screen::Picker {
            match self.picker {
                Some(r) => Some((0, r)),
                None => None,
            }
        } else {
            match self.row() {
                Some(r) => Some((self.col, r)),
                None => None,
            }
        };
        let ghost at_cur = |p: (usize, usize)| search_current(a) == Some(p);
        let ghost right = |p: (usize, usize)| p.0 >= a.col;
        let mut start: usize = 0;
        let mut skip: usize = 0;
        let mut found_cur = false;
        if let Some(cur) = current {
            let mut i: usize = 0;
            while i < len && !found_cur
                invariant
                    i <= len,
                    len == order@.len(),
                    order@ == search_order(a),
                    current == search_current(a),
                    current == Some(cur),
                    forall|p: (usize, usize)| #[trigger] at_cur(p) == (search_current(a) == Some(p)),
                    forall|j: int| 0 <= j < i ==> !at_cur(#[trigger] order@[j]),
                    found_cur ==> i < len && at_cur(order@[i as int]),
                decreases len - i + (if found_cur { 0int } else { 1int }),
            {
                if order[i].0 == cur.0 && order[i].1 == cur.1 {
                    found_cur = true;
                } else {
                    i = i + 1;
                }
            }
            if found_cur {
                start = i;
                skip = 1;
                proof {
                    assert(first_in(order@, at_cur, i as int));
                    let k = choose|k: int| first_in(order@, at_cur, k);
                    assert(k == i as int) by {
                        if k < i {
                            assert(!at_cur(order@[k]));
                        } else if (i as int) < k {
                            assert(!at_cur(order@[i as int]));
                        }
                    }
                }
            }
        }
        if !found_cur {
            proof {
                if search_current(a) is Some {
                    assert(!exists|i: int| first_in(order@, at_cur, i));
                }
            }
            let mut i: usize = 0;
            let mut found = false;
            while i < len && !found
                invariant
                    i <= len,
                    len == order@.len(),
                    order@ == search_order(a),
                    self.col == a.col,
                    forall|p: (usize, usize)| #[trigger] right(p) == (p.0 >= a.col),
                    forall|j: int| 0 <= j < i ==> !right(#[trigger] order@[j]),
                    found ==> i < len && right(order@[i as int]),
                decreases len - i + (if found { 0int } else { 1int }),
            {
                if order[i].0 >= self.col {
                    found = true;
                } else {
                    i = i + 1;
                }
            }
            if found {
                start = i;
                proof {
                    assert(first_in(order@, right, i as int));
                    let k = choose|k: int| first_in(order@, right, k);
                    assert(k == i as int) by {
                        if k < i {
                            assert(!right(order@[k]));
                        } else if (i as int) < k {
                            assert(!right(order@[i as int]));
                        }
                    }
                }
            } else {
                proof {
                    assert(!exists|i: int| first_in(order@, right, i));
                }
            }
        }
        assert(search_start(a) == (start as int, skip as int));
        let mut k: usize = 0;
        let mut hit_at: Option<(usize, usize)> = None;
        while k < len && hit_at.is_none()
            invariant
                k <= len,
                len == order@.len(),
                order@ == search_order(a),
                *self == a,
                a.wf(),
                a.search == Some(query),
                search_start(a) == (start as int, skip as int),
                start < len || len == 0,
                skip <= 1,
                forall|j: int| #![trigger order@[j]] 0 <= j < order@.len() ==> (a.screen == Screen::Picker ==> order@[j].1 < a.boards.len())
                    && (a.screen != Screen::Picker ==> order@[j].0 < a.columns.len() && order@[j].1 < a.columns@[order@[j].0 as int].cards.len()),
                forall|j: int| 0 <= j < k ==> !#[trigger] hit(a, forward, query@, j),
                hit_at matches Some(p) ==> k < len && hit(a, forward, query@, k as int) && p == visited(a, forward, k as int),
            decreases len - k + (if hit_at is Some { 0int } else { 1int }),
        {
            let step: u128 = k as u128 + skip as u128;
            let idx: usize = if forward {
                ((start as u128 + step) % (len as u128)) as usize
            } else {
                ((start as u128 + (len as u128) * 2 - step) % (len as u128)) as usize
            };
            assert(idx == step_index(start as int, k + skip, len as int, forward));
            assert(idx < len) by {
                let l = len as int;
                let x = if forward { start + k + skip } else { start + l * 2 - (k + skip) };
                assert(x % l < l) by (nonlinear_arith)
                    requires
                        l > 0,
                ;
            }
            let p = order[idx];
            let name = self.lower_name_at(p);
            if contains(name.as_str(), query.as_str()) {
                hit_at = Some(p);
            } else {
                k = k + 1;
            }
        }
        match hit_at {
            None => {
                proof {
                    assert forall|j: int| !first_hit(a, forward, query@, j) by {
                        if 0 <= j < len {
                            assert(!hit(a, forward, query@, j));
                        }
                    }
                }
                let mut msg = String::from_str("Pattern not found: ");
                msg.append(query.as_str());
                self.error(msg);
            },
            Some(p) => {
                proof {
                    assert(first_hit(a, forward, query@, k as int));
                    let kk = choose|kk: int| first_hit(a, forward, query@, kk);
                    assert(kk == k as int) by {
                        if kk < k {
                            assert(!hit(a, forward, query@, kk));
                        } else if (k as int) < kk {
                            assert(!hit(a, forward, query@, k as int));
                        }
                    }
                }
                if self.screen == Screen::Picker {
                    self.picker = Some(p.1);
                } else {
                    self.col = p.0;
                    self.set_selected(p.0, Some(p.1));
                }
            },
        }
    }

    pub fn on_picker_action(&mut self, action: Action)
        requires
            old(self).wf(),
            old(self).has_room(),
        ensures
            final(self).wf(),
            picker_acted(*old(self), *final(self), action),
    {
        if let Some(t) = nav_target(self.picker, self.boards.len(), action, self.half_page) {
            self.picker = Some(t);
            return;
        }
        match action {
            Action::Open | Action::Right(_) => {
                let b = match self.picker {
                    Some(i) => {
                        if i < self.boards.len() {
                            Some(self.boards[i].clone())
                        } else {
                            None
                        }
                    },
                    None => None,
                };
                if let Some(b) = b {
                    self.open_board(b);
                }
            },
            Action::Back => {
                if self.search.is_some() {
                    self.search = None;
                } else if self.board.is_some() {
                    self.screen = Screen::Board;
                } else {
                    self.should_quit = true;
                }
            },
            Action::Close => self.should_quit = true,
            Action::Refresh => self.load_boards(),
            _ => {},
        }
    }

    #[verifier::rlimit(40)]
    pub fn on_board_action<F: Fn(Option<u64>, Option<u64>) -> u64>(&mut self, action: Action, between: &F)
        requires
            old(self).wf(),
            old(self).has_room(),
            negatable(action),
            forall|p: Option<u64>, n: Option<u64>| between.requires((p, n)),
        ensures
            final(self).wf(),
            board_acted(*old(self), *final(self), action, *between),
    {
        let len = match self.current_column() {
            Some(c) => c.cards.len(),
            None => 0,
        };
        if let Some(t) = nav_target(self.row(), len, action, self.half_page) {
            proof {
                if self.col < self.columns.len() {
                    assert(column_wf(self.columns@[self.col as int]));
                }
            }
            assert(t < len);
            self.select_row(t);
            return;
        }
        match action {
            Action::Left(n) => self.col = self.col.saturating_sub(n),
            Action::Right(n) => {
                let last = self.columns.len().saturating_sub(1);
                let want = self.col.saturating_add(n);
                self.col = if want < last { want } else { last };
            },
            Action::Open => {
                if self.current_card().is_some() {
                    self.overlay = Overlay::Detail { scroll: 0 };
                }
            },
            Action::Back => {
                if self.search.is_some() {
                    self.search = None;
                } else {
                    self.show_picker();
                }
            },
            Action::Close => self.show_picker(),
            Action::NewBelow => self.prompt_new_card(true),
            Action::NewAbove => self.prompt_new_card(false),
            Action::Rename => self.start_rename(true),
            Action::Change => self.start_rename(false),
            Action::EditDesc => self.open_desc_editor(false),
            Action::Archive => self.archive_current(),
            Action::Undo => self.undo_archive(),
            Action::MoveLeft => self.move_across(-1, between),
            Action::MoveRight => self.move_across(1, between),
            Action::MoveDown(n) => self.move_within(n as isize, between),
            Action::MoveUp(n) => self.move_within(-(n as isize), between),
            Action::Refresh => self.reload_board(),
            _ => {},
        }
    }

    /// Opens the prompt for a new card below (or above) the selected one.
    fn prompt_new_card(&mut self, below: bool)
        requires
            old(self).wf(),
        ensures
            final(self).wf(),
            new_card_prompted(*old(self), *final(self), below),
    {
        if self.columns.len() == 0 {
            self.error(String::from_str("This board has no lists — press A to add one"));
            return;
        }
        if self.columns[self.col].list.is_pending() {
            self.info(String::from_str("List is still being created…"));
            return;
        }
        let n = self.columns[self.col].cards.len();
        assert(column_wf(self.columns@[self.col as int]));
        let index = match self.row() {
            Some(r) => if below { r + 1 } else { r },
            None => 0,
        };
        proof {
            reveal_strlit("");
            assert(""@ =~= Seq::<char>::empty());
        }
        self.open_prompt(PromptKind::NewCard { col: self.col, index }, "");
    }

    pub fn on_detail_action<F: Fn(Option<u64>, Option<u64>) -> u64>(&mut self, action: Action, between: &F)
        requires
            old(self).wf(),
            old(self).has_room(),
            forall|p: Option<u64>, n: Option<u64>| between.requires((p, n)),
        ensures
            final(self).wf(),
            old(self).overlay is Detail ==> detail_acted(*old(self), *final(self), old(self).overlay->scroll, action, *between),
            !(old(self).overlay is Detail) ==> *final(self) == *old(self),
    {
        let scroll = match self.overlay {
            Overlay::Detail { scroll } => scroll,
            _ => return,
        };
        match action {
            Action::Back | Action::Close | Action::Open => self.overlay = Overlay::Hidden,
            Action::Down(n) => self.overlay = Overlay::Detail { scroll: scroll.saturating_add(n as u16) },
            Action::Up(n) => self.overlay = Overlay::Detail { scroll: scroll.saturating_sub(n as u16) },
            Action::Top => self.overlay = Overlay::Detail { scroll: 0 },
            Action::EditDesc => self.open_desc_editor(true),
            Action::Rename => self.start_rename(true),
            Action::Change => self.start_rename(false),
            Action::Archive => {
                self.overlay = Overlay::Hidden;
                self.archive_current();
            },
            Action::MoveLeft => self.move_across(-1, between),
            Action::MoveRight => self.move_across(1, between),
            _ => {},
        }
    }

    /// Carries out an action that the key parser produced.
    pub fn on_action<F: Fn(Option<u64>, Option<u64>) -> u64>(&mut self, action: Action, between: &F)
        requires
            old(self).wf(),
            old(self).has_room(),
            negatable(action),
            forall|p: Option<u64>, n: Option<u64>| between.requires((p, n)),
        ensures
            final(self).wf(),
            dispatched(*old(self), *final(self), action, *between),
    {
        proof {
            reveal_strlit("");
            assert(""@ =~= Seq::<char>::empty());
        }
        match action {
            Action::Quit => self.should_quit = true,
            Action::Command => self.open_prompt(PromptKind::Command, ""),
            Action::Search => self.open_prompt(PromptKind::Search, ""),
            Action::NextMatch => self.search_next(true),
            Action::PrevMatch => self.search_next(false),
            Action::Help => self.overlay = Overlay::Help,
            _ => {
                if let Overlay::Detail { .. } = self.overlay {
                    self.on_detail_action(action, between);
                } else if self.screen == Screen::Picker {
                    self.on_picker_action(action);
                } else {
                    self.on_board_action(action, between);
                }
            },
        }
    }

    /// A key press outside the prompt and the description editor (their keys go to
    /// `on_prompt_key` and `on_desc_key`): closes the help, or feeds the key parser and
    /// carries out the action it completes.
    pub fn on_key<F: Fn(Option<u64>, Option<u64>) -> u64>(&mut self, key: Key, between: &F)
        requires
            old(self).wf(),
            old(self).has_room(),
            forall|p: Option<u64>, n: Option<u64>| between.requires((p, n)),
        ensures
            final(self).wf(),
            key_handled(*old(self), *final(self), key, *between),
    {
        if self.prompt.is_some() {
            return;
        }
        if let Overlay::Desc(_) = self.overlay {
            return;
        }
        if let Overlay::Help = self.overlay {
            self.overlay = Overlay::Hidden;
            return;
        }
        proof {
            self.keys.lemma_wf();
            law_counts_bounded(self.keys@, key);
        }
        let action = self.keys.feed(key);
        let a = match action {
            Some(a) => a,
            None => {
                assert(key_read(*old(self), *self, key));
                return;
            },
        };
        self.status = None;
        let ghost m = *self;
        assert(key_read(*old(self), m, key));
        self.on_action(a, between);
    }
}

/// The first row whose card is not placed before position `p`.
fn insert_point_of(cards: &Vec<Card>, p: u64) -> (i: usize)
    ensures
        is_insert_point(cards@, p, i as int),
{
    let mut i: usize = 0;
    while i < cards.len() && cards[i].pos < p
        invariant
            i <= cards.len(),
            forall|j: int| 0 <= j < i ==> #[trigger] cards@[j].pos < p,
        decreases cards.len() - i,
    {
        i = i + 1;
    }
    i
}

/// `u` undoes `dd`: `archive_current` followed by `undo_archive` puts every list back as it
/// was, the card reopened at its old row and selected there, reports the card as restored, and
/// leaves two updates of the card queued, the first closing it and the second reopening it. This holds where the card is shown in the first column of its
/// own list, is open, and its column is in strictly increasing order of position.
pub proof fn law_undo_restores_archived(a: App, b: App, n: App)
    requires
        a.wf(),
        editable(a),
        list_index(a.columns@, sel_card(a).id_list@) == Some(a.col as int),
        !sel_card(a).closed,
        forall|i: int, j: int|
            0 <= i < j < a.columns@[a.col as int].cards.len() ==> #[trigger] a.columns@[a.col as int].cards@[i].pos
                < #[trigger] a.columns@[a.col as int].cards@[j].pos,
        archived(a, b),
        undone(b, n),
    ensures
        n.columns.len() == a.columns.len(),
        forall|d: int| 0 <= d < a.columns.len() ==> {
            &&& #[trigger] n.columns@[d].list == a.columns@[d].list
            &&& n.columns@[d].cards@ == a.columns@[d].cards@
            &&& n.columns@[d].selected == a.columns@[d].selected
        },
        n.col == a.col,
        n.columns@[a.col as int].selected == Some(a.current_card_at()->0 as usize),
        n.columns@[a.col as int].cards@[a.current_card_at()->0] == sel_card(a),
        !n.columns@[a.col as int].cards@[a.current_card_at()->0].closed,
        n.last_archived is None,
        n.status matches Some((m, false)) && m@ == "Restored \""@ + sel_card(a).name@ + "\""@,
        n.effects@.len() == a.effects@.len() + 2,
        n.effects@.subrange(0, a.effects@.len() as int) == a.effects@,
        is_update(n.effects@[a.effects@.len() as int], sel_card(a).id@, seq![CardField::Closed(true)]),
        is_update(n.effects@[a.effects@.len() as int + 1], sel_card(a).id@, seq![CardField::Closed(false)]),
{
    let c = a.col as int;
    let r = a.current_card_at()->0;
    let card = sel_card(a);
    let cards = a.columns@[c].cards@;
    let rest = cards.remove(r);
    assert(b.last_archived == Some(card));
    lemma_list_index_same(a.columns@, b.columns@, card.id_list@);
    assert(list_index(b.columns@, card.id_list@) == Some(c));
    assert(b.columns@[c].cards@ == rest);
    assert(is_insert_point(rest, card.pos, r)) by {
        assert forall|j: int| 0 <= j < r implies #[trigger] rest[j].pos < card.pos by {
            assert(rest[j] == cards[j]);
        }
        if r < rest.len() {
            assert(rest[r] == cards[r + 1]);
        }
    }
    lemma_insert_point(rest, card.pos, r);
    assert(Card { closed: false, ..card } == card);
    assert(rest.insert(r, card) =~= cards);
    assert(a.columns@[c].selected == Some(r as usize));
    assert(n.effects@.subrange(0, b.effects@.len() as int) == b.effects@);
    assert(n.effects@.subrange(0, a.effects@.len() as int) =~= a.effects@) by {
        assert(b.effects@.subrange(0, a.effects@.len() as int) == a.effects@);
    }
    assert(n.effects@[a.effects@.len() as int] == b.effects@.last()) by {
        assert(n.effects@.subrange(0, b.effects@.len() as int)[a.effects@.len() as int] == n.effects@[a.effects@.len() as int]);
    }
}

/// `o` and `O` on a board: with row `r` selected in a list that the server has confirmed, `O`
/// opens the new-card prompt at row `r`, so the new card goes above the selected one, and `o`
/// at row `r + 1`, below it; in an empty list both open it at row 0. The prompt opens empty
/// and nothing else changes.
pub proof fn law_new_card_above_or_below<F: Fn(Option<u64>, Option<u64>) -> u64>(
    a: App,
    n: App,
    below: bool,
    between: F,
)
    requires
        a.wf(),
        a.columns.len() > 0,
        !is_temp_id(a.columns@[a.col as int].list.id@),
        board_acted(a, n, if below { Action::NewBelow } else { Action::NewAbove }, between),
    ensures
        a.current_card_at() matches Some(r) ==> n.prompt == Some(
            PromptKind::NewCard { col: a.col, index: (if below { r + 1 } else { r }) as usize },
        ),
        a.current_card_at() is None ==> n.prompt == Some(PromptKind::NewCard { col: a.col, index: 0 }),
        n.columns == a.columns,
        n.col == a.col,
        is_prompt(n.effects@.last(), Seq::empty()),
{
    assert(column_wf(a.columns@[a.col as int]));
}

} // verus!
