//! What the non-interactive subcommands compute from what the Trello API returned: which
//! board and list a command acts on, the fields it sends, and the text it prints.
use vstd::prelude::*;
use vstd::string::*;
use vstd::seq_lib::*;

use crate::cli::{find, find_pick, FindError, join, joined};
use crate::model::{Board, Card, Label, List};
use crate::sort::{rank_class, same_rank, sort, sorted, Ranked};
use crate::text::{chars_of, slice_chars, string_of};

verus! {

/// Why a subcommand stopped before it called the API.
pub enum CliError {
    /// Neither `--board` nor `default_board` names a board.
    NoBoard,
    /// A card was added to a board without lists.
    NoLists { board: String },
    /// `edit` was given nothing to change.
    NothingToChange,
    /// A board or list query found no single item.
    Find(FindError),
}

impl CliError {
    /// The error as the command line reports it.
    pub fn message(&self) -> (m: String)
        ensures
            self is NoBoard ==> m@ == "no board given: pass --board or set default_board in the config"@,
            self matches CliError::NoLists { board } ==> m@ == "board '"@ + board@ + "' has no lists"@,
            self is NothingToChange ==> m@ == "nothing to change: pass --name and/or --desc"@,
            self matches CliError::Find(e) ==> (e matches FindError::NoMatch { what, query } ==> m@
                == "no "@ + what@ + " matches '"@ + query@ + "'"@),
            self matches CliError::Find(e) ==> (e matches FindError::Ambiguous { what, query, names }
                ==> m@ == "'"@ + query@ + "' matches several "@ + what@ + "s: "@ + joined(
                names@.map_values(|p: String| p@),
                ", "@,
            )),
    {
        match self {
            CliError::NoBoard => String::from_str("no board given: pass --board or set default_board in the config"),
            CliError::NoLists { board } => {
                let mut m = String::from_str("board '");
                m.append(board.as_str());
                m.append("' has no lists");
                m
            },
            CliError::NothingToChange => String::from_str("nothing to change: pass --name and/or --desc"),
            CliError::Find(e) => e.message(),
        }
    }
}

/// The board a command names: `--board` when given, else the configured default board.
pub fn board_query(arg: Option<String>, default_board: Option<String>) -> (r: Result<String, CliError>)
    ensures
        arg matches Some(a) ==> r == Ok::<String, CliError>(a),
        arg is None ==> (default_board matches Some(d) ==> r == Ok::<String, CliError>(d)),
        arg is None && default_board is None ==> r matches Err(CliError::NoBoard),
{
    match arg {
        Some(a) => Ok(a),
        None => match default_board {
            Some(d) => Ok(d),
            None => Err(CliError::NoBoard),
        },
    }
}

/// The board that `query` names among `boards` (see [`find`]).
pub fn pick_board<'a>(boards: &'a [Board], query: &str) -> (r: Result<&'a Board, CliError>)
    ensures
        find_pick(boards@, query@) matches Some(i) ==> (r matches Ok(b) && *b == boards@[i]),
        find_pick(boards@, query@) is None ==> (r matches Err(CliError::Find(e)) && (e matches FindError::NoMatch { what, query: q } ==> what@ == "board"@ && q@ == query@)
            && (e matches FindError::Ambiguous { what, query: q, .. } ==> what@ == "board"@ && q@ == query@)),
{
    match find(boards, "board", query) {
        Ok(b) => Ok(b),
        Err(e) => {
            proof {
                reveal_strlit("board");
            }
            Err(CliError::Find(e))
        },
    }
}

/// The list that `query` names among `lists` (see [`find`]).
pub fn pick_list<'a>(lists: &'a [List], query: &str) -> (r: Result<&'a List, CliError>)
    ensures
        find_pick(lists@, query@) matches Some(i) ==> (r matches Ok(l) && *l == lists@[i]),
        find_pick(lists@, query@) is None ==> (r matches Err(CliError::Find(e)) && (e matches FindError::NoMatch { what, query: q } ==> what@ == "list"@ && q@ == query@)
            && (e matches FindError::Ambiguous { what, query: q, .. } ==> what@ == "list"@ && q@ == query@)),
{
    match find(lists, "list", query) {
        Ok(l) => Ok(l),
        Err(e) => Err(CliError::Find(e)),
    }
}

/// The list a new card goes to: the one `query` names, or else the board's first list.
pub fn add_target<'a>(lists: &'a [List], query: Option<&str>, board_name: &str) -> (r: Result<&'a List, CliError>)
    ensures
        query matches Some(q) ==> (find_pick(lists@, q@) matches Some(i) ==> (r matches Ok(l) && *l == lists@[i])),
        query matches Some(q) ==> (find_pick(lists@, q@) is None ==> r matches Err(CliError::Find(_))),
        query is None && lists@.len() > 0 ==> (r matches Ok(l) && *l == lists@[0]),
        query is None && lists@.len() == 0 ==> (r matches Err(CliError::NoLists { board }) && board@ == board_name@),
{
    match query {
        Some(q) => pick_list(lists, q),
        None => {
            if lists.len() > 0 {
                Ok(&lists[0])
            } else {
                Err(CliError::NoLists { board: String::from_str(board_name) })
            }
        },
    }
}

/// A pair of field name and value as the card endpoints take them.
pub open spec fn field_is(f: (String, String), name: Seq<char>, value: Seq<char>) -> bool {
    f.0@ == name && f.1@ == value
}

/// Where a card goes in its list: `top` or `bottom`.
pub open spec fn place(top: bool) -> Seq<char> {
    if top { "top"@ } else { "bottom"@ }
}

fn place_str(top: bool) -> (s: String)
    ensures
        s@ == place(top),
{
    if top { String::from_str("top") } else { String::from_str("bottom") }
}

fn field(name: &str, value: String) -> (f: (String, String))
    ensures
        field_is(f, name@, value@),
{
    (String::from_str(name), value)
}

/// The fields of a card that `add` creates in `list_id`; no description means an empty one.
pub fn add_fields(list_id: &str, name: String, desc: Option<String>, top: bool) -> (r: Vec<(String, String)>)
    ensures
        r@.len() == 4,
        field_is(r@[0], "idList"@, list_id@),
        field_is(r@[1], "name"@, name@),
        field_is(r@[2], "desc"@, match desc {
            Some(d) => d@,
            None => Seq::empty(),
        }),
        field_is(r@[3], "pos"@, place(top)),
{
    let d = match desc {
        Some(d) => d,
        None => String::new(),
    };
    let mut r = Vec::new();
    r.push(field("idList", String::from_str(list_id)));
    r.push(field("name", name));
    r.push(field("desc", d));
    r.push(field("pos", place_str(top)));
    r
}

/// The fields that `edit` changes: the name, then the description, each when given.
pub fn edit_fields(name: Option<String>, desc: Option<String>) -> (r: Result<Vec<(String, String)>, CliError>)
    ensures
        name is None && desc is None ==> r matches Err(CliError::NothingToChange),
        !(name is None && desc is None) ==> (r matches Ok(v) && v@.len() == (if name is Some { 1int } else { 0 })
            + (if desc is Some { 1int } else { 0 }) && (name matches Some(n) ==> field_is(v@[0], "name"@, n@))
            && (desc matches Some(d) ==> field_is(v@[v@.len() - 1], "desc"@, d@))),
{
    let mut v = Vec::new();
    match name {
        Some(n) => v.push(field("name", n)),
        None => {},
    }
    match desc {
        Some(d) => v.push(field("desc", d)),
        None => {},
    }
    if v.len() == 0 {
        return Err(CliError::NothingToChange);
    }
    Ok(v)
}

/// The fields that `move` changes: the card's list and its place there.
pub fn move_fields(list_id: &str, top: bool) -> (r: Vec<(String, String)>)
    ensures
        r@.len() == 2,
        field_is(r@[0], "idList"@, list_id@),
        field_is(r@[1], "pos"@, place(top)),
{
    let mut r = Vec::new();
    r.push(field("idList", String::from_str(list_id)));
    r.push(field("pos", place_str(top)));
    r
}

/// The field that `archive` changes.
pub fn archive_fields() -> (r: Vec<(String, String)>)
    ensures
        r@.len() == 1,
        field_is(r@[0], "closed"@, "true"@),
{
    let mut r = Vec::new();
    r.push(field("closed", String::from_str("true")));
    r
}

/// An argument of `-` stands for text read from standard input.
pub fn reads_stdin(arg: &str) -> (b: bool)
    ensures
        b == (arg@ == "-"@),
{
    let dash = String::from_str("-");
    let a = String::from_str(arg);
    a == dash
}

/// `s` without the line feeds at its end.
pub open spec fn without_trailing_newlines(s: Seq<char>) -> Seq<char>
    decreases s.len(),
{
    if s.len() > 0 && s.last() == '\n' {
        without_trailing_newlines(s.drop_last())
    } else {
        s
    }
}

/// Text read from standard input, without the line feeds at its end.
pub fn strip_trailing_newlines(s: &str) -> (r: String)
    ensures
        r@ == without_trailing_newlines(s@),
{
    let v = chars_of(s);
    let mut n = v.len();
    assert(v@.subrange(0, n as int) =~= v@);
    while n > 0 && v[n - 1] == '\n'
        invariant
            n <= v.len(),
            without_trailing_newlines(v@.subrange(0, n as int)) == without_trailing_newlines(v@),
        decreases n,
    {
        assert(v@.subrange(0, n as int).drop_last() =~= v@.subrange(0, n - 1));
        n = n - 1;
    }
    let part = slice_chars(v.as_slice(), 0, n);
    string_of(part.as_slice())
}

/// `a` and `b` on one line, separated by a tab.
pub open spec fn tab2(a: Seq<char>, b: Seq<char>) -> Seq<char> {
    a + "\t"@ + b
}

fn tabbed(a: &str, b: &str) -> (s: String)
    ensures
        s@ == tab2(a@, b@),
{
    let mut s = String::from_str(a);
    s.append("\t");
    s.append(b);
    s
}

/// A board as `boards` prints it: id and name.
pub fn board_line(b: &Board) -> (s: String)
    ensures
        s@ == tab2(b.id@, b.name@),
{
    tabbed(b.id.as_str(), b.name.as_str())
}

/// A list as `lists` prints it: id and name.
pub fn list_line(l: &List) -> (s: String)
    ensures
        s@ == tab2(l.id@, l.name@),
{
    tabbed(l.id.as_str(), l.name.as_str())
}

/// A card as `add`, `edit` and `move` print it: id and short URL.
pub fn card_line(c: &Card) -> (s: String)
    ensures
        s@ == tab2(c.id@, c.short_url@),
{
    tabbed(c.id.as_str(), c.short_url.as_str())
}

/// The names of labels, in order.
pub open spec fn label_names(labels: Seq<Label>) -> Seq<Seq<char>> {
    labels.map_values(|l: Label| l.name@)
}

/// What `show` prints for a card: its fields, then its description after a blank line.
pub open spec fn show_spec(c: Card) -> Seq<char> {
    let head = "id\t"@ + c.id@ + "\nurl\t"@ + c.short_url@ + "\nlist\t"@ + c.id_list@ + "\n"@
        + "name\t"@ + c.name@ + "\n"@;
    let due = match c.due {
        Some(d) => "due\t"@ + d@ + (if c.due_complete { " (done)"@ } else { Seq::empty() }) + "\n"@,
        None => Seq::empty(),
    };
    let labels = if c.labels@.len() > 0 {
        "labels\t"@ + joined(label_names(c.labels@), ", "@) + "\n"@
    } else {
        Seq::empty()
    };
    let desc = if c.desc@.len() > 0 { "\n"@ + c.desc@ + "\n"@ } else { Seq::empty() };
    head + due + labels + desc
}

/// The text `show` prints for a card.
pub fn show_text(c: &Card) -> (s: String)
    ensures
        s@ == show_spec(*c),
{
    let mut s = String::from_str("id\t");
    s.append(c.id.as_str());
    s.append("\nurl\t");
    s.append(c.short_url.as_str());
    s.append("\nlist\t");
    s.append(c.id_list.as_str());
    s.append("\n");
    s.append("name\t");
    s.append(c.name.as_str());
    s.append("\n");
    let ghost head = s@;
    match &c.due {
        Some(d) => {
            s.append("due\t");
            s.append(d.as_str());
            if c.due_complete {
                s.append(" (done)");
            }
            s.append("\n");
        },
        None => {},
    }
    let ghost with_due = s@;
    if c.labels.len() > 0 {
        let mut names: Vec<String> = Vec::new();
        let mut i: usize = 0;
        while i < c.labels.len()
            invariant
                i <= c.labels.len(),
                names@.len() == i,
                forall|k: int| 0 <= k < i ==> #[trigger] names@[k]@ == c.labels@[k].name@,
            decreases c.labels.len() - i,
        {
            names.push(c.labels[i].name.clone());
            i = i + 1;
        }
        assert(names@.map_values(|p: String| p@) =~= label_names(c.labels@));
        s.append("labels\t");
        let l = join(&names, ", ");
        s.append(l.as_str());
        s.append("\n");
    }
    let ghost with_labels = s@;
    if c.desc.unicode_len() > 0 {
        s.append("\n");
        s.append(c.desc.as_str());
        s.append("\n");
    }
    proof {
        reveal_strlit("id\t");
        reveal_strlit("\nurl\t");
        reveal_strlit("\nlist\t");
        reveal_strlit("\n");
        reveal_strlit("name\t");
        reveal_strlit("due\t");
        reveal_strlit(" (done)");
        reveal_strlit("labels\t");
    }
    assert(s@ =~= show_spec(*c));
    s
}

/// A card as `cards` lists it, with the name and board position of its list.
pub struct CardRow {
    pub card: Card,
    /// The name of the card's list; empty when the board has no such list.
    pub list: String,
    /// Where the card's list stands among the board's lists.
    pub list_index: Option<usize>,
}

/// `i` is the first of `lists` with id `id`.
pub open spec fn is_list_at(lists: Seq<List>, id: Seq<char>, i: int) -> bool {
    &&& 0 <= i < lists.len()
    &&& lists[i].id@ == id
    &&& forall|j: int| 0 <= j < i ==> #[trigger] lists[j].id@ != id
}

/// Where the first list with id `id` stands, if any list has it.
pub open spec fn list_at(lists: Seq<List>, id: Seq<char>) -> Option<int> {
    if exists|i: int| is_list_at(lists, id, i) {
        Some(choose|i: int| is_list_at(lists, id, i))
    } else {
        None
    }
}

proof fn lemma_list_at(lists: Seq<List>, id: Seq<char>, i: int)
    requires
        is_list_at(lists, id, i),
    ensures
        list_at(lists, id) == Some(i),
{
    let k = choose|k: int| is_list_at(lists, id, k);
    assert(k == i) by {
        if k < i {
            assert(lists[k].id@ != id);
        } else if i < k {
            assert(lists[i].id@ != id);
        }
    }
}

/// The row gives the name and place of the card's list in `lists`.
pub open spec fn row_fits(lists: Seq<List>, r: CardRow) -> bool {
    match list_at(lists, r.card.id_list@) {
        Some(i) => r.list_index == Some(i as usize) && r.list@ == lists[i].name@,
        None => r.list_index is None && r.list@ == Seq::<char>::empty(),
    }
}

/// The cards `cards` lists: those of the list with id `only` when one is given.
pub open spec fn shown_cards(cards: Seq<Card>, only: Option<Seq<char>>) -> Seq<Card> {
    match only {
        Some(id) => cards.filter(|c: Card| c.id_list@ == id),
        None => cards,
    }
}

/// The rank of a list position: rows of unknown lists come first.
pub open spec fn index_rank(i: Option<usize>) -> int {
    match i {
        Some(k) => k + 1,
        None => 0,
    }
}

impl Ranked for CardRow {
    /// Board order: by list, then by position within the list.
    open spec fn rank_le(self, other: Self) -> bool {
        ||| index_rank(self.list_index) < index_rank(other.list_index)
        ||| index_rank(self.list_index) == index_rank(other.list_index) && self.card.pos <= other.card.pos
    }

    proof fn lemma_rank_total(a: Self, b: Self) {
    }

    proof fn lemma_rank_trans(a: Self, b: Self, c: Self) {
    }

    fn ranks_le(&self, other: &Self) -> (r: bool) {
        let a: usize = match self.list_index {
            Some(k) => k,
            None => 0,
        };
        let b: usize = match other.list_index {
            Some(k) => k,
            None => 0,
        };
        match (self.list_index, other.list_index) {
            (None, Some(_)) => true,
            (Some(_), None) => false,
            _ => a < b || (a == b && self.card.pos <= other.card.pos),
        }
    }
}

/// The first list with id `id`.
fn list_position(lists: &Vec<List>, id: &String) -> (r: Option<usize>)
    ensures
        r matches Some(i) ==> list_at(lists@, id@) == Some(i as int),
        r is None ==> list_at(lists@, id@) is None,
{
    let mut i: usize = 0;
    while i < lists.len()
        invariant
            i <= lists.len(),
            forall|j: int| 0 <= j < i ==> #[trigger] lists@[j].id@ != id@,
        decreases lists.len() - i,
    {
        if lists[i].id == *id {
            proof {
                lemma_list_at(lists@, id@, i as int);
            }
            return Some(i);
        }
        i = i + 1;
    }
    proof {
        if exists|k: int| is_list_at(lists@, id@, k) {
            let k = choose|k: int| is_list_at(lists@, id@, k);
            assert(lists@[k].id@ != id@);
        }
    }
    None
}

/// The row of a card: the name and place of its list.
fn row_for(lists: &Vec<List>, card: Card) -> (r: CardRow)
    ensures
        r.card == card,
        row_fits(lists@, r),
{
    match list_position(lists, &card.id_list) {
        Some(i) => CardRow { card, list: lists[i].name.clone(), list_index: Some(i) },
        None => CardRow { card, list: String::new(), list_index: None },
    }
}

proof fn lemma_map_multiset<A, B>(s: Seq<A>, t: Seq<A>, f: spec_fn(A) -> B)
    requires
        s.to_multiset() == t.to_multiset(),
    ensures
        s.map_values(f).to_multiset() == t.map_values(f).to_multiset(),
    decreases s.len(),
{
    broadcast use group_to_multiset_ensures;
    broadcast use vstd::multiset::group_multiset_axioms;

    to_multiset_len(s);
    to_multiset_len(t);
    if s.len() == 0 {
        assert(t.len() == 0);
        assert(s.map_values(f) =~= t.map_values(f));
    } else {
        let x = s.last();
        assert(s.to_multiset().count(x) > 0) by {
            assert(s.contains(x)) by {
                assert(s[s.len() - 1] == x);
            }
        }
        assert(t.contains(x));
        let j = choose|j: int| 0 <= j < t.len() && t[j] == x;
        let s1 = s.drop_last();
        let t1 = t.remove(j);
        assert(s1.to_multiset() == s.to_multiset().remove(x)) by {
            assert(s =~= s1.push(x));
        }
        to_multiset_remove(t, j);
        lemma_map_multiset(s1, t1, f);
        assert(s.map_values(f) =~= s1.map_values(f).push(f(x)));
        assert(t.map_values(f) =~= t1.map_values(f).insert(j, f(x)));
        to_multiset_insert(t1.map_values(f), j, f(x));
    }
}

/// Where a card sorts among the rows: the place of its list (unknown lists first), then its
/// position.
pub open spec fn card_rank(lists: Seq<List>, c: Card) -> (int, u64) {
    (
        match list_at(lists, c.id_list@) {
            Some(i) => i + 1,
            None => 0,
        },
        c.pos,
    )
}

/// The cards of rows, in order.
pub open spec fn cards_of_rows(s: Seq<CardRow>) -> Seq<Card> {
    s.map_values(|x: CardRow| x.card)
}

/// Where a row sorts.
pub open spec fn row_rank(x: CardRow) -> (int, u64) {
    (index_rank(x.list_index), x.card.pos)
}

proof fn lemma_row_classes(s: Seq<CardRow>, lists: Seq<List>, key: CardRow)
    requires
        lists.len() <= usize::MAX,
        forall|k: int| 0 <= k < s.len() ==> row_fits(lists, #[trigger] s[k]),
    ensures
        cards_of_rows(rank_class(s, key)) == cards_of_rows(s).filter(
            |c: Card| card_rank(lists, c) == row_rank(key),
        ),
    decreases s.len(),
{
    reveal(Seq::filter);
    let f = |x: CardRow| x.card;
    let p = |c: Card| card_rank(lists, c) == row_rank(key);
    if s.len() == 0 {
        assert(rank_class(s, key).map_values(f) =~= s.map_values(f).filter(p));
    } else {
        let s1 = s.drop_last();
        let x = s.last();
        lemma_row_classes(s1, lists, key);
        assert(row_fits(lists, s[s.len() - 1]));
        if let Some(i) = list_at(lists, x.card.id_list@) {
            let k = choose|k: int| is_list_at(lists, x.card.id_list@, k);
            assert(is_list_at(lists, x.card.id_list@, k));
        }
        assert(same_rank(x, key) == (card_rank(lists, x.card) == row_rank(key)));
        assert(s.map_values(f).drop_last() =~= s1.map_values(f));
        assert(s.map_values(f).last() == x.card);
        if same_rank(x, key) {
            assert(rank_class(s, key).map_values(f) =~= rank_class(s1, key).map_values(f).push(x.card));
        } else {
            assert(rank_class(s, key).map_values(f) =~= rank_class(s1, key).map_values(f));
        }
    }
}

/// The rows `cards` prints: the cards of the list `only` when given, else all of them, in
/// board order (by list, then by position; cards that tie keep their order), each with its
/// list's name.
pub fn card_rows(lists: &Vec<List>, cards: Vec<Card>, only: Option<&List>) -> (r: Vec<CardRow>)
    ensures
        sorted(r@),
        r@.map_values(|x: CardRow| x.card).to_multiset() == shown_cards(
            cards@,
            match only {
                Some(l) => Some(l.id@),
                None => None,
            },
        ).to_multiset(),
        forall|k: int| 0 <= k < r@.len() ==> row_fits(lists@, #[trigger] r@[k]),
        forall|key: CardRow| cards_of_rows(#[trigger] rank_class(r@, key)) == shown_cards(
            cards@,
            match only {
                Some(l) => Some(l.id@),
                None => None,
            },
        ).filter(|c: Card| card_rank(lists@, c) == row_rank(key)),
{
    broadcast use group_to_multiset_ensures;

    let ghost want = match only {
        Some(l) => Some(l.id@),
        None => None,
    };
    let ghost orig = cards@;
    let mut rest = cards;
    let mut rows: Vec<CardRow> = Vec::new();
    let ghost mut done: Seq<Card> = Seq::empty();
    while rest.len() > 0
        invariant
            orig == done + rest@,
            rows@.map_values(|x: CardRow| x.card) == shown_cards(done, want),
            forall|k: int| 0 <= k < rows@.len() ==> row_fits(lists@, #[trigger] rows@[k]),
            want == match only {
                Some(l) => Some(l.id@),
                None => None::<Seq<char>>,
            },
        decreases rest.len(),
    {
        let c = rest.remove(0);
        proof {
            assert(orig == done.push(c) + rest@);
            assert(done.push(c).drop_last() =~= done);
        }
        let keep = match only {
            Some(l) => c.id_list == l.id,
            None => true,
        };
        if keep {
            let row = row_for(lists, c);
            rows.push(row);
            proof {
                assert(rows@.map_values(|x: CardRow| x.card) =~= shown_cards(done, want).push(c));
            }
        }
        proof {
            let d2 = done.push(c);
            assert(d2.drop_last() =~= done);
            assert(d2.last() == c);
            if want is Some {
                let id = want->0;
                let pred = |x: Card| x.id_list@ == id;
                assert(keep == pred(c));
                reveal(Seq::filter);
                assert(d2.filter(pred) == if pred(c) { done.filter(pred).push(c) } else { done.filter(pred) });
                assert(shown_cards(d2, want) == if keep {
                    shown_cards(done, want).push(c)
                } else {
                    shown_cards(done, want)
                });
            }
            done = d2;
        }
    }
    assert(orig =~= done);
    let r = sort(rows);
    proof {
        assert forall|key: CardRow| cards_of_rows(#[trigger] rank_class(r@, key))
            == shown_cards(orig, want).filter(|c: Card| card_rank(lists@, c) == row_rank(key)) by {
            assert(rank_class(r@, key) == rank_class(rows@, key));
            assert(lists@.len() == lists.len());
            lemma_row_classes(rows@, lists@, key);
        }
        lemma_map_multiset(r@, rows@, |x: CardRow| x.card);
        assert forall|k: int| 0 <= k < r@.len() implies row_fits(lists@, #[trigger] r@[k]) by {
            assert(r@.to_multiset().count(r@[k]) > 0) by {
                assert(r@.contains(r@[k]));
            }
            assert(rows@.contains(r@[k]));
        }
    }
    r
}

/// A row as `cards` prints it: card id, list name and card name.
pub fn card_row_line(r: &CardRow) -> (s: String)
    ensures
        s@ == r.card.id@ + "\t"@ + r.list@ + "\t"@ + r.card.name@,
{
    let mut s = String::from_str(r.card.id.as_str());
    s.append("\t");
    s.append(r.list.as_str());
    s.append("\t");
    s.append(r.card.name.as_str());
    s
}

/// The lists of a board in board order; lists of equal position keep their order.
pub fn sorted_lists(lists: Vec<List>) -> (r: Vec<List>)
    ensures
        sorted(r@),
        r@.to_multiset() == lists@.to_multiset(),
        forall|key: List| #[trigger] rank_class(r@, key) == rank_class(lists@, key),
{
    sort(lists)
}

/// The lines `show` prints before the due date: id, URL, list and name.
pub open spec fn show_fields(c: Card) -> Seq<char> {
    "id\t"@ + c.id@ + "\nurl\t"@ + c.short_url@ + "\nlist\t"@ + c.id_list@ + "\n"@ + "name\t"@ + c.name@
        + "\n"@
}

/// `show` marks a due date as done exactly when the card's due date is complete: after the
/// fields, an open due date prints as the line `due\t<date>`, and a complete one prints the
/// same text with ` (done)` put at the end of that line, everything else alike.
pub proof fn law_show_marks_done(c: Card, d: String)
    requires
        c.due == Some(d),
    ensures
        ({
            let open = show_spec(Card { due_complete: false, ..c });
            let done = show_spec(Card { due_complete: true, ..c });
            let f = show_fields(c).len() as int;
            let p = f + 4 + d@.len();
            &&& open.subrange(0, f) == show_fields(c)
            &&& open.subrange(f, p + 1) == "due\t"@ + d@ + "\n"@
            &&& done == open.subrange(0, p) + " (done)"@ + open.subrange(p, open.len() as int)
        }),
{
    reveal_strlit("due\t");
    reveal_strlit(" (done)");
    reveal_strlit("\n");
    let c0 = Card { due_complete: false, ..c };
    let c1 = Card { due_complete: true, ..c };
    let open = show_spec(c0);
    let done = show_spec(c1);
    let head = show_fields(c);
    let line = "due\t"@ + d@;
    let tail = (if c.labels@.len() > 0 {
        "labels\t"@ + joined(label_names(c.labels@), ", "@) + "\n"@
    } else {
        Seq::empty()
    }) + (if c.desc@.len() > 0 { "\n"@ + c.desc@ + "\n"@ } else { Seq::empty() });
    assert(open =~= head + line + "\n"@ + tail);
    assert(done =~= head + line + " (done)"@ + "\n"@ + tail);
    let f = head.len() as int;
    let p = f + 4 + d@.len();
    assert(open.subrange(0, f) =~= head);
    assert(open.subrange(f, p + 1) =~= line + "\n"@);
    assert(open.subrange(0, p) =~= head + line);
    assert(open.subrange(p, open.len() as int) =~= "\n"@ + tail);
    assert(done =~= open.subrange(0, p) + " (done)"@ + open.subrange(p, open.len() as int));
}

} // verus!
