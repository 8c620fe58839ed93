//! Non-interactive subcommands (`trello-tui add ...`), for scripts and agents: the commands,
//! and the rules that find boards, lists and cards from what the user typed.
use vstd::prelude::*;
use vstd::string::*;

use crate::model::{Board, Card, List};
use crate::sort::{sort, sorted, Ranked};
use crate::text::{
    before_char, chars_of, find_from, first_occurrence_from, has_infix, lowercase, slice_chars,
    string_of, contains, to_lowercase, lemma_first_occurrence_bounds,
};

verus! {

pub struct Cli {
    /// Print boards and exit (same as `boards`).
    pub boards: bool,
    pub command: Option<Command>,
}

pub struct Output {
    /// Print JSON instead of tab-separated text.
    pub json: bool,
}

pub struct BoardArg {
    /// Board id or name (defaults to `default_board` from the config).
    pub board: Option<String>,
}

#[allow(inconsistent_fields)]
pub enum Command {
    /// List open boards.
    Boards { out: Output },
    /// List the lists on a board.
    Lists { board: BoardArg, out: Output },
    /// List the cards on a board.
    Cards { board: BoardArg, list: Option<String>, out: Output },
    /// Show one card.
    Show { card: String, out: Output },
    /// Add a card and print its id and URL.
    Add {
        name: String,
        board: BoardArg,
        list: Option<String>,
        desc: Option<String>,
        top: bool,
        out: Output,
    },
    /// Change a card's name or description.
    Edit { card: String, name: Option<String>, desc: Option<String>, out: Output },
    /// Move a card to another list on its board.
    Move { card: String, list: String, top: bool, out: Output },
    /// Archive a card.
    Archive { card: String },
    /// Add a comment to a card.
    Comment { card: String, text: String },
}

impl Command {
    pub fn boards() -> (c: Self)
        ensures
            c == (Command::Boards { out: Output { json: false } }),
    {
        Command::Boards { out: Output { json: false } }
    }
}

/// Things that have an id and a name the user can refer to them by.
pub trait Named {
    spec fn id_view(&self) -> Seq<char>;

    spec fn name_view(&self) -> Seq<char>;

    fn id(&self) -> (r: &String)
        ensures
            r@ == self.id_view(),
    ;

    fn name(&self) -> (r: &String)
        ensures
            r@ == self.name_view(),
    ;
}

impl Named for Board {
    open spec fn id_view(&self) -> Seq<char> {
        self.id@
    }

    open spec fn name_view(&self) -> Seq<char> {
        self.name@
    }

    fn id(&self) -> (r: &String) {
        &self.id
    }

    fn name(&self) -> (r: &String) {
        &self.name
    }
}

impl Named for List {
    open spec fn id_view(&self) -> Seq<char> {
        self.id@
    }

    open spec fn name_view(&self) -> Seq<char> {
        self.name@
    }

    fn id(&self) -> (r: &String) {
        &self.id
    }

    fn name(&self) -> (r: &String) {
        &self.name
    }
}

/// Why a query found no single item.
pub enum FindError {
    /// Nothing matches.
    NoMatch { what: String, query: String },
    /// The query is part of several names; `names` lists them in order.
    Ambiguous { what: String, query: String, names: Vec<String> },
}

/// The query is an item's exact id.
pub open spec fn id_matches<T: Named>(t: T, query: Seq<char>) -> bool {
    t.id_view() == query
}

/// The query is an item's name, ignoring case.
pub open spec fn name_equals<T: Named>(t: T, query: Seq<char>) -> bool {
    lowercase(t.name_view()) == lowercase(query)
}

/// The query is part of an item's name, ignoring case.
pub open spec fn name_contains<T: Named>(t: T, query: Seq<char>) -> bool {
    has_infix(lowercase(t.name_view()), lowercase(query))
}

/// The indices of the items whose name contains the query, in order.
pub open spec fn name_hits<T: Named>(s: Seq<T>, query: Seq<char>) -> Seq<usize>
    decreases s.len(),
{
    if s.len() == 0 {
        Seq::empty()
    } else {
        let h = name_hits(s.drop_last(), query);
        if name_contains(s.last(), query) {
            h.push((s.len() - 1) as usize)
        } else {
            h
        }
    }
}

proof fn lemma_name_hits_bounded<T: Named>(s: Seq<T>, query: Seq<char>)
    requires
        s.len() <= usize::MAX,
    ensures
        forall|k: int|
            0 <= k < name_hits(s, query).len() ==> #[trigger] name_hits(s, query)[k] < s.len()
                && name_contains(s[name_hits(s, query)[k] as int], query),
    decreases s.len(),
{
    if s.len() > 0 {
        let d = s.drop_last();
        lemma_name_hits_bounded(d, query);
        assert forall|k: int| 0 <= k < name_hits(d, query).len() implies #[trigger] name_hits(
            d,
            query,
        )[k] < s.len() && name_contains(s[name_hits(d, query)[k] as int], query) by {
            assert(d[name_hits(d, query)[k] as int] == s[name_hits(d, query)[k] as int]);
        }
    }
}

/// The item that `find` picks: the first with the query as its id, else the first with the
/// query as its name (ignoring case), else the only one whose name contains the query.
pub open spec fn find_pick<T: Named>(items: Seq<T>, query: Seq<char>) -> Option<int> {
    if exists|i: int| 0 <= i < items.len() && id_matches(items[i], query) {
        Some(
            choose|i: int|
                0 <= i < items.len() && id_matches(items[i], query) && forall|j: int|
                    0 <= j < i ==> !id_matches(#[trigger] items[j], query),
        )
    } else if exists|i: int| 0 <= i < items.len() && name_equals(items[i], query) {
        Some(
            choose|i: int|
                0 <= i < items.len() && name_equals(items[i], query) && forall|j: int|
                    0 <= j < i ==> !name_equals(#[trigger] items[j], query),
        )
    } else if name_hits(items, query).len() == 1 {
        Some(name_hits(items, query)[0] as int)
    } else {
        None
    }
}

/// `find_pick`'s choice is well defined: the first match of each kind exists and is unique.
proof fn lemma_find_pick<T: Named>(items: Seq<T>, query: Seq<char>, i: int)
    requires
        0 <= i < items.len(),
        ({
            ||| id_matches(items[i], query) && forall|j: int|
                0 <= j < i ==> !id_matches(#[trigger] items[j], query)
            ||| (forall|j: int| 0 <= j < items.len() ==> !id_matches(#[trigger] items[j], query))
                && name_equals(items[i], query) && forall|j: int|
                0 <= j < i ==> !name_equals(#[trigger] items[j], query)
        }),
    ensures
        find_pick(items, query) == Some(i),
{
    if id_matches(items[i], query) {
        let k = choose|k: int|
            0 <= k < items.len() && id_matches(items[k], query) && forall|j: int|
                0 <= j < k ==> !id_matches(#[trigger] items[j], query);
        assert(!(k < i));
        assert(!(i < k));
    } else {
        let k = choose|k: int|
            0 <= k < items.len() && name_equals(items[k], query) && forall|j: int|
                0 <= j < k ==> !name_equals(#[trigger] items[j], query);
        assert(!(k < i));
        assert(!(i < k));
    }
}

/// Finds an item by exact id, then exact name (case-insensitive), then a unique name substring.
pub fn find<'a, T: Named>(items: &'a [T], what: &str, query: &str) -> (r: Result<&'a T, FindError>)
    ensures
        find_pick(items@, query@) matches Some(i) ==> (r matches Ok(t) && *t == items@[i]),
        find_pick(items@, query@) is None ==> (r matches Err(e) && match e {
            FindError::NoMatch { what: w, query: q } => w@ == what@ && q@ == query@
                && name_hits(items@, query@).len() == 0,
            FindError::Ambiguous { what: w, query: q, names } => w@ == what@ && q@ == query@
                && name_hits(items@, query@).len() > 1 && names@.len() == name_hits(
                items@,
                query@,
            ).len() && forall|k: int|
                0 <= k < names@.len() ==> #[trigger] names@[k]@ == items@[name_hits(
                    items@,
                    query@,
                )[k] as int].name_view(),
        }),
{
    let q = String::from_str(query);
    let mut i: usize = 0;
    while i < items.len()
        invariant
            i <= items.len(),
            q@ == query@,
            forall|j: int| 0 <= j < i ==> !id_matches(#[trigger] items@[j], query@),
        decreases items.len() - i,
    {
        if *items[i].id() == q {
            proof {
                lemma_find_pick(items@, query@, i as int);
            }
            return Ok(&items[i]);
        }
        i = i + 1;
    }
    let lq = to_lowercase(query);
    let mut i: usize = 0;
    while i < items.len()
        invariant
            i <= items.len(),
            lq@ == lowercase(query@),
            forall|j: int| 0 <= j < items@.len() ==> !id_matches(#[trigger] items@[j], query@),
            forall|j: int| 0 <= j < i ==> !name_equals(#[trigger] items@[j], query@),
        decreases items.len() - i,
    {
        if to_lowercase(items[i].name().as_str()) == lq {
            proof {
                lemma_find_pick(items@, query@, i as int);
            }
            return Ok(&items[i]);
        }
        i = i + 1;
    }
    let mut hits: Vec<usize> = Vec::new();
    let mut i: usize = 0;
    while i < items.len()
        invariant
            i <= items.len(),
            lq@ == lowercase(query@),
            hits@ == name_hits(items@.subrange(0, i as int), query@),
        decreases items.len() - i,
    {
        let hit = contains(to_lowercase(items[i].name().as_str()).as_str(), lq.as_str());
        proof {
            let s = items@.subrange(0, i + 1);
            assert(s.drop_last() =~= items@.subrange(0, i as int));
        }
        if hit {
            hits.push(i);
        }
        i = i + 1;
    }
    assert(items@.subrange(0, items@.len() as int) =~= items@);
    proof {
        lemma_name_hits_bounded(items@, query@);
        assert(!exists|j: int| 0 <= j < items@.len() && id_matches(items@[j], query@));
        assert(!exists|j: int| 0 <= j < items@.len() && name_equals(items@[j], query@));
    }
    if hits.len() == 1 {
        return Ok(&items[hits[0]]);
    }
    if hits.len() == 0 {
        return Err(FindError::NoMatch { what: String::from_str(what), query: q });
    }
    let mut names: Vec<String> = Vec::new();
    let mut k: usize = 0;
    while k < hits.len()
        invariant
            k <= hits.len(),
            hits@ == name_hits(items@, query@),
            forall|m: int| 0 <= m < hits@.len() ==> #[trigger] hits@[m] < items@.len(),
            names@.len() == k,
            forall|m: int| 0 <= m < k ==> #[trigger] names@[m]@ == items@[hits@[m] as int].name_view(),
        decreases hits.len() - k,
    {
        names.push(items[hits[k]].name().clone());
        k = k + 1;
    }
    Err(FindError::Ambiguous { what: String::from_str(what), query: q, names })
}

/// `parts` joined with `sep` between consecutive parts.
pub open spec fn joined(parts: Seq<Seq<char>>, sep: Seq<char>) -> Seq<char>
    decreases parts.len(),
{
    if parts.len() == 0 {
        Seq::empty()
    } else if parts.len() == 1 {
        parts[0]
    } else {
        joined(parts.drop_last(), sep) + sep + parts.last()
    }
}

/// The strings of `parts`, joined with `sep`.
pub fn join(parts: &Vec<String>, sep: &str) -> (s: String)
    ensures
        s@ == joined(parts@.map_values(|p: String| p@), sep@),
{
    let ghost views = parts@.map_values(|p: String| p@);
    let mut s = String::new();
    let mut i: usize = 0;
    while i < parts.len()
        invariant
            i <= parts.len(),
            views == parts@.map_values(|p: String| p@),
            s@ == joined(views.subrange(0, i as int), sep@),
        decreases parts.len() - i,
    {
        if i > 0 {
            s.append(sep);
        }
        s.append(parts[i].as_str());
        proof {
            assert(views.subrange(0, i + 1).drop_last() =~= views.subrange(0, i as int));
            if i == 0 {
                assert(s@ =~= views.subrange(0, 1)[0]);
            } else {
                assert(s@ =~= joined(views.subrange(0, i as int), sep@) + sep@ + views[i as int]);
            }
        }
        i = i + 1;
    }
    assert(views.subrange(0, parts@.len() as int) =~= views);
    s
}

impl FindError {
    /// The error as the command line reports it.
    pub fn message(&self) -> (m: String)
        ensures
            self matches FindError::NoMatch { what, query } ==> m@ == "no "@ + what@
                + " matches '"@ + query@ + "'"@,
            self matches FindError::Ambiguous { what, query, names } ==> m@ == "'"@ + query@
                + "' matches several "@ + what@ + "s: "@ + joined(
                names@.map_values(|p: String| p@),
                ", "@,
            ),
    {
        match self {
            FindError::NoMatch { what, query } => {
                let mut m = String::from_str("no ");
                m.append(what.as_str());
                m.append(" matches '");
                m.append(query.as_str());
                m.append("'");
                m
            },
            FindError::Ambiguous { what, query, names } => {
                let mut m = String::from_str("'");
                m.append(query.as_str());
                m.append("' matches several ");
                m.append(what.as_str());
                m.append("s: ");
                let list = join(names, ", ");
                m.append(list.as_str());
                m
            },
        }
    }
}

/// The marker of a card path in a Trello URL.
pub open spec fn card_path() -> Seq<char> {
    seq!['/', 'c', '/']
}

/// What `card_ref` reads from an argument: the short link after `/c/`, up to the next `/`;
/// an argument without `/c/` is taken as it is.
pub open spec fn card_ref_spec(arg: Seq<char>) -> Seq<char> {
    match first_occurrence_from(arg, card_path(), 0) {
        Some(k) => before_char(arg.subrange(k + 3, arg.len() as int), '/'),
        None => arg,
    }
}

/// Accepts a card id, short link, or `https://trello.com/c/<shortLink>/...` URL.
pub fn card_ref(arg: &str) -> (r: String)
    ensures
        r@ == card_ref_spec(arg@),
{
    let v = chars_of(arg);
    let mut pat: Vec<char> = Vec::new();
    pat.push('/');
    pat.push('c');
    pat.push('/');
    assert(pat@ =~= card_path());
    proof {
        lemma_first_occurrence_bounds(v@, card_path(), 0);
    }
    match find_from(v.as_slice(), pat.as_slice(), 0) {
        Some(k) => {
            assert(first_occurrence_from(v@, card_path(), 0) == Some(k as int));
            let n = v.len();
            assert(k + 3 <= n);
            let rest = slice_chars(v.as_slice(), k + 3, n);
            let mut slash: Vec<char> = Vec::new();
            slash.push('/');
            assert(slash@ =~= seq!['/']);
            match find_from(rest.as_slice(), slash.as_slice(), 0) {
                Some(m) => {
                    proof {
                        lemma_first_occurrence_bounds(rest@, seq!['/'], 0);
                    }
                    let part = slice_chars(rest.as_slice(), 0, m);
                    string_of(part.as_slice())
                },
                None => string_of(rest.as_slice()),
            }
        },
        None => String::from_str(arg),
    }
}

/// Before the first match found from `from` on, `pat` does not occur.
proof fn lemma_first_occurrence_misses(s: Seq<char>, pat: Seq<char>, from: int, j: int)
    requires
        0 <= from <= j,
        j + pat.len() <= s.len(),
        match first_occurrence_from(s, pat, from) {
            Some(k) => j < k,
            None => true,
        },
    ensures
        s.subrange(j, j + pat.len()) != pat,
    decreases j - from,
{
    if j > from {
        lemma_first_occurrence_misses(s, pat, from + 1, j);
    }
}

/// A text without `/` holds no card path.
proof fn lemma_no_slash_no_path(s: Seq<char>, from: int)
    requires
        forall|i: int| 0 <= i < s.len() ==> s[i] != '/',
    ensures
        first_occurrence_from(s, card_path(), from) is None,
    decreases s.len() + 1 - from,
{
    if from >= 0 && from + 3 <= s.len() {
        assert(s.subrange(from, from + 3)[0] != card_path()[0]);
        lemma_no_slash_no_path(s, from + 1);
    }
}

/// The part of `s` before its first `/` holds no `/`.
proof fn lemma_before_slash(s: Seq<char>)
    ensures
        forall|i: int| 0 <= i < before_char(s, '/').len() ==> before_char(s, '/')[i] != '/',
{
    let r = before_char(s, '/');
    assert forall|i: int| 0 <= i < r.len() implies r[i] != '/' by {
        lemma_first_occurrence_bounds(s, seq!['/'], 0);
        lemma_first_occurrence_misses(s, seq!['/'], 0, i);
        assert(s.subrange(i, i + 1)[0] == s[i]);
        if s[i] == '/' {
            assert(s.subrange(i, i + 1) =~= seq!['/']);
        }
    }
}

/// Reading a card reference is idempotent: what `card_ref` gives back for a URL holds no
/// `/`, so reading it again changes nothing.
pub proof fn law_card_ref_idempotent(arg: Seq<char>)
    ensures
        card_ref_spec(card_ref_spec(arg)) == card_ref_spec(arg),
        first_occurrence_from(arg, card_path(), 0) is Some ==> forall|i: int|
            0 <= i < card_ref_spec(arg).len() ==> card_ref_spec(arg)[i] != '/',
{
    if let Some(k) = first_occurrence_from(arg, card_path(), 0) {
        lemma_first_occurrence_bounds(arg, card_path(), 0);
        let rest = arg.subrange(k + 3, arg.len() as int);
        lemma_before_slash(rest);
        lemma_no_slash_no_path(before_char(rest, '/'), 0);
    }
}

} // verus!
