//! Boards, lists, cards and labels as the Trello API describes them.
//!
//! Trello orders lists and cards by a floating-point `pos`. Here a position is held as
//! its order key: a `u64` that compares as the positions compare under `f64::total_cmp`.
use vstd::prelude::*;
use vstd::utf8::char_u32_cast;

use crate::sort::{rank_class, sort, sorted, Ranked};
use crate::text::{chars_of, lowercase, starts_with, to_lowercase};

verus! {

#[derive(Debug)]
pub struct Board {
    pub id: String,
    pub name: String,
}

#[derive(Debug)]
pub struct List {
    pub id: String,
    pub name: String,
    /// Order key of the list's position on its board.
    pub pos: u64,
}

#[derive(Debug)]
pub struct Label {
    pub name: String,
    pub color: Option<String>,
}

/// A card.
#[derive(Debug)]
pub struct Card {
    pub id: String,
    pub name: String,
    pub desc: String,
    pub id_list: String,
    pub id_board: String,
    /// Order key of the card's position in its list.
    pub pos: u64,
    pub closed: bool,
    pub labels: Vec<Label>,
    pub due: Option<String>,
    pub due_complete: bool,
    pub short_url: String,
}

/// The prefix of ids given to lists and cards created locally but not yet confirmed.
pub open spec fn temp_prefix() -> Seq<char> {
    seq!['t', 'm', 'p', '-']
}

/// An id that the client made up for an object the server has not confirmed yet.
pub open spec fn is_temp_id(id: Seq<char>) -> bool {
    temp_prefix().is_prefix_of(id)
}

fn id_is_temp(id: &String) -> (b: bool)
    ensures
        b == is_temp_id(id@),
{
    let p = "tmp-";
    proof {
        reveal_strlit("tmp-");
        assert(p@ =~= temp_prefix());
    }
    starts_with(id.as_str(), p)
}

fn clone_opt_string(s: &Option<String>) -> (r: Option<String>)
    ensures
        r == *s,
{
    match s {
        Some(x) => Some(x.clone()),
        None => None,
    }
}

impl Clone for Board {
    fn clone(&self) -> (r: Self)
        ensures
            r == *self,
    {
        Board { id: self.id.clone(), name: self.name.clone() }
    }
}

impl Clone for List {
    fn clone(&self) -> (r: Self)
        ensures
            r == *self,
    {
        List { id: self.id.clone(), name: self.name.clone(), pos: self.pos }
    }
}

impl Clone for Label {
    fn clone(&self) -> (r: Self)
        ensures
            r == *self,
    {
        Label { name: self.name.clone(), color: clone_opt_string(&self.color) }
    }
}

impl Clone for Card {
    fn clone(&self) -> (r: Self)
        ensures
            r.id == self.id,
            r.name == self.name,
            r.desc == self.desc,
            r.id_list == self.id_list,
            r.id_board == self.id_board,
            r.pos == self.pos,
            r.closed == self.closed,
            r.labels@ == self.labels@,
            r.due == self.due,
            r.due_complete == self.due_complete,
            r.short_url == self.short_url,
    {
        let labels = self.labels.clone();
        assert(labels@ =~= self.labels@);
        Card {
            id: self.id.clone(),
            name: self.name.clone(),
            desc: self.desc.clone(),
            id_list: self.id_list.clone(),
            id_board: self.id_board.clone(),
            pos: self.pos,
            closed: self.closed,
            labels,
            due: clone_opt_string(&self.due),
            due_complete: self.due_complete,
            short_url: self.short_url.clone(),
        }
    }
}

impl List {
    /// Lists created locally but not yet confirmed by the server.
    pub fn is_pending(&self) -> (b: bool)
        ensures
            b == is_temp_id(self.id@),
    {
        id_is_temp(&self.id)
    }
}

impl Card {
    /// Cards created locally but not yet confirmed by the server.
    pub fn is_pending(&self) -> (b: bool)
        ensures
            b == is_temp_id(self.id@),
    {
        id_is_temp(&self.id)
    }
}

impl Ranked for List {
    open spec fn rank_le(self, other: Self) -> bool {
        self.pos <= other.pos
    }

    proof fn lemma_rank_total(a: Self, b: Self) {
    }

    proof fn lemma_rank_trans(a: Self, b: Self, c: Self) {
    }

    fn ranks_le(&self, other: &Self) -> (r: bool) {
        self.pos <= other.pos
    }
}

impl Ranked for Card {
    open spec fn rank_le(self, other: Self) -> bool {
        self.pos <= other.pos
    }

    proof fn lemma_rank_total(a: Self, b: Self) {
    }

    proof fn lemma_rank_trans(a: Self, b: Self, c: Self) {
    }

    fn ranks_le(&self, other: &Self) -> (r: bool) {
        self.pos <= other.pos
    }
}

/// `a` comes no later than `b` in the order of their characters' code points, a prefix
/// first; this is the order in which Rust compares strings.
pub open spec fn lex_le(a: Seq<char>, b: Seq<char>) -> bool
    decreases a.len(),
{
    if a.len() == 0 {
        true
    } else if b.len() == 0 {
        false
    } else if a[0] != b[0] {
        (a[0] as u32) < (b[0] as u32)
    } else {
        lex_le(a.drop_first(), b.drop_first())
    }
}

proof fn lemma_lex_total(a: Seq<char>, b: Seq<char>)
    ensures
        lex_le(a, b) || lex_le(b, a),
    decreases a.len(),
{
    if a.len() > 0 && b.len() > 0 {
        if a[0] == b[0] {
            lemma_lex_total(a.drop_first(), b.drop_first());
        } else {
            char_u32_cast(a[0], a[0] as u32);
            char_u32_cast(b[0], b[0] as u32);
        }
    }
}

proof fn lemma_lex_trans(a: Seq<char>, b: Seq<char>, c: Seq<char>)
    requires
        lex_le(a, b),
        lex_le(b, c),
    ensures
        lex_le(a, c),
    decreases a.len(),
{
    if a.len() > 0 && b.len() > 0 && c.len() > 0 && a[0] == b[0] && b[0] == c[0] {
        lemma_lex_trans(a.drop_first(), b.drop_first(), c.drop_first());
    }
}

/// Whether `a` comes no later than `b` as Rust compares strings.
fn str_le(a: &str, b: &str) -> (r: bool)
    ensures
        r == lex_le(a@, b@),
{
    let x = chars_of(a);
    let y = chars_of(b);
    let mut i: usize = 0;
    assert(x@.subrange(0, x@.len() as int) =~= x@);
    assert(y@.subrange(0, y@.len() as int) =~= y@);
    while i < x.len() && i < y.len() && x[i] == y[i]
        invariant
            i <= x.len(),
            i <= y.len(),
            lex_le(x@, y@) == lex_le(x@.subrange(i as int, x@.len() as int), y@.subrange(i as int, y@.len() as int)),
        decreases x.len() - i,
    {
        let ghost xs = x@.subrange(i as int, x@.len() as int);
        let ghost ys = y@.subrange(i as int, y@.len() as int);
        assert(xs.drop_first() =~= x@.subrange(i + 1, x@.len() as int));
        assert(ys.drop_first() =~= y@.subrange(i + 1, y@.len() as int));
        i = i + 1;
    }
    let ghost xs = x@.subrange(i as int, x@.len() as int);
    let ghost ys = y@.subrange(i as int, y@.len() as int);
    if i == x.len() {
        assert(xs.len() == 0);
        true
    } else if i == y.len() {
        assert(xs.len() > 0 && ys.len() == 0);
        false
    } else {
        let p = x[i];
        let q = y[i];
        assert(xs[0] == p && ys[0] == q && p != q);
        (p as u32) < (q as u32)
    }
}

impl Ranked for Board {
    /// By name, ignoring case.
    open spec fn rank_le(self, other: Self) -> bool {
        lex_le(lowercase(self.name@), lowercase(other.name@))
    }

    proof fn lemma_rank_total(a: Self, b: Self) {
        lemma_lex_total(lowercase(a.name@), lowercase(b.name@));
    }

    proof fn lemma_rank_trans(a: Self, b: Self, c: Self) {
        lemma_lex_trans(lowercase(a.name@), lowercase(b.name@), lowercase(c.name@));
    }

    fn ranks_le(&self, other: &Self) -> (r: bool) {
        let a = to_lowercase(self.name.as_str());
        let b = to_lowercase(other.name.as_str());
        str_le(a.as_str(), b.as_str())
    }
}

/// The boards in order of their names, ignoring case, as the board list shows them; boards
/// whose names are equal ignoring case keep their order.
pub fn boards_by_name(boards: Vec<Board>) -> (r: Vec<Board>)
    ensures
        sorted(r@),
        r@.to_multiset() == boards@.to_multiset(),
        forall|key: Board| #[trigger] rank_class(r@, key) == rank_class(boards@, key),
{
    sort(boards)
}

} // verus!
