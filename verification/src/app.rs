//! The client's state and what each message does to it.
//!
//! Work that leaves the process (API calls, opening a text editor widget) is not done here:
//! the state queues an [`Effect`] for it, and the program around the library performs the
//! effects in order and hands the outcomes back as [`Msg`]s.
use vstd::prelude::*;
use vstd::string::*;

use crate::config::Config;
use crate::keys::{KeyParser, idle};
use crate::model::{Board, Card, List, is_temp_id, temp_prefix};
use crate::sort::{rank_class, sort, sorted};
use crate::text::{decimal, lemma_decimal_value, lowercase, push_decimal, to_lowercase};

verus! {

#[derive(Debug, Clone, Copy, PartialEq, Eq, Structural)]
pub enum Screen {
    Picker,
    Board,
}

pub enum PromptKind {
    Command,
    Search,
    NewCard { col: usize, index: usize },
    Rename { card_id: String },
}

/// The description editor's state besides its text, which the editor widget holds.
pub struct DescEditor {
    pub card_id: String,
    pub card_name: String,
    pub original: String,
    pub insert: bool,
    pub pending: Option<char>,
    /// `Some` while typing an ex command (`:w`, `:q`, ...).
    pub cmd: Option<String>,
    pub message: Option<String>,
    pub return_to_detail: bool,
}

/// What is drawn over the screen; `Hidden` when nothing is.
pub enum Overlay {
    Hidden,
    Detail { scroll: u16 },
    Help,
    Desc(DescEditor),
}

pub struct Column {
    pub list: List,
    pub cards: Vec<Card>,
    /// The selected row, `None` exactly when the list has no cards.
    pub selected: Option<usize>,
}

/// A card field that an update sets.
pub enum CardField {
    Name(String),
    Desc(String),
    Closed(bool),
    IdList(String),
    /// The order key of the new position.
    Pos(u64),
}

/// A mutation. Writes run one at a time, in order, so rapid edits to the same
/// card (e.g. `JJJ`, or `dd` then `u`) reach Trello in the order they were made.
pub enum Write {
    Create { temp_id: String, list_id: String, name: String, pos: u64 },
    Update { card_id: String, fields: Vec<CardField> },
}

/// Work that the state asks the program around it to do.
pub enum Effect {
    /// Fetch the open boards; the answer comes back as `Msg::Boards`.
    LoadBoards,
    /// Fetch a board's lists and cards; the answer comes back as `Msg::BoardData`.
    LoadBoard { board_id: String },
    /// Queue a write; the answer comes back as `Msg::CardCreated` or `Msg::CardSaved`.
    Write(Write),
    /// Show the bottom-line prompt with this text.
    Prompt { initial: String },
    /// Show the description editor with this text.
    EditDesc { text: String },
}

/// What comes back from the API. An error is its message.
#[allow(inconsistent_fields)]
pub enum Msg {
    Boards(Result<Vec<Board>, String>),
    BoardData { board_id: String, result: Result<(Vec<List>, Vec<Card>), String> },
    CardCreated { temp_id: String, result: Result<Card, String> },
    CardSaved { card_id: String, result: Result<Card, String> },
}

pub struct App {
    /// Queued updates per card; server copies are adopted only once none remain.
    pub pending_saves: Vec<(String, usize)>,
    pub column_width: u16,
    pub default_board: Option<String>,
    pub screen: Screen,
    pub overlay: Overlay,
    pub prompt: Option<PromptKind>,
    pub keys: KeyParser,
    pub boards: Vec<Board>,
    pub boards_loaded: bool,
    /// The selected row of the board picker.
    pub picker: Option<usize>,
    pub board: Option<Board>,
    pub board_loading: bool,
    pub columns: Vec<Column>,
    pub col: usize,
    /// First visible column; adjusted by the renderer.
    pub col_offset: usize,
    /// Rows moved by Ctrl-d / Ctrl-u; set by the renderer from the column height.
    pub half_page: usize,
    pub search: Option<String>,
    pub status: Option<(String, bool)>,
    pub inflight: usize,
    pub last_archived: Option<Card>,
    pub temp_seq: u64,
    pub should_quit: bool,
    /// Effects not yet taken by the program.
    pub effects: Vec<Effect>,
}

/// A column's selection is in range, and present exactly when the column has cards.
pub open spec fn column_wf(c: Column) -> bool {
    match c.selected {
        Some(r) => r < c.cards.len(),
        None => c.cards.len() == 0,
    }
}

/// Every count of pending saves can grow by one.
pub open spec fn saves_room(p: Seq<(String, usize)>) -> bool {
    forall|i: int| 0 <= i < p.len() ==> #[trigger] p[i].1 < usize::MAX
}

/// No card id occurs twice among the pending saves.
pub open spec fn pending_wf(p: Seq<(String, usize)>) -> bool {
    forall|i: int, j: int| 0 <= i < j < p.len() ==> #[trigger] p[i].0@ != #[trigger] p[j].0@
}

/// How many updates of a card are queued and not yet answered.
pub open spec fn pending_count(p: Seq<(String, usize)>, id: Seq<char>) -> nat {
    if exists|i: int| 0 <= i < p.len() && p[i].0@ == id {
        p[choose|i: int| 0 <= i < p.len() && p[i].0@ == id].1 as nat
    } else {
        0
    }
}

proof fn lemma_pending_count_at(p: Seq<(String, usize)>, i: int)
    requires
        pending_wf(p),
        0 <= i < p.len(),
    ensures
        pending_count(p, p[i].0@) == p[i].1,
{
    let k = choose|k: int| 0 <= k < p.len() && p[k].0@ == p[i].0@;
    assert(k == i) by {
        if k < i {
            assert(p[k].0@ != p[i].0@);
        } else if i < k {
            assert(p[i].0@ != p[k].0@);
        }
    }
}

/// The selection of column `c` after clamping it into range.
pub open spec fn clamped(c: Column) -> Option<usize> {
    if c.cards.len() == 0 {
        None
    } else {
        let s = match c.selected {
            Some(r) => r,
            None => 0usize,
        };
        Some(if s < c.cards.len() - 1 { s } else { (c.cards.len() - 1) as usize })
    }
}

/// The (column, row) of the first card with id `id`, columns in order and rows in order.
pub open spec fn is_card_pos(cols: Seq<Column>, id: Seq<char>, c: int, r: int) -> bool {
    &&& 0 <= c < cols.len()
    &&& 0 <= r < cols[c].cards.len()
    &&& cols[c].cards@[r].id@ == id
    &&& forall|k: int| 0 <= k < r ==> #[trigger] cols[c].cards@[k].id@ != id
    &&& forall|d: int, k: int|
        0 <= d < c && 0 <= k < cols[d].cards.len() ==> #[trigger] cols[d].cards@[k].id@ != id
}

/// No card has id `id`.
pub open spec fn no_card(cols: Seq<Column>, id: Seq<char>) -> bool {
    forall|d: int, k: int|
        0 <= d < cols.len() && 0 <= k < cols[d].cards.len() ==> #[trigger] cols[d].cards@[k].id@ != id
}

/// Where the card with id `id` is, if any card has it.
pub open spec fn card_pos(cols: Seq<Column>, id: Seq<char>) -> Option<(int, int)> {
    if exists|c: int, r: int| is_card_pos(cols, id, c, r) {
        Some(choose|p: (int, int)| is_card_pos(cols, id, p.0, p.1))
    } else {
        None
    }
}

proof fn lemma_card_pos_unique(cols: Seq<Column>, id: Seq<char>, c: int, r: int)
    requires
        is_card_pos(cols, id, c, r),
    ensures
        card_pos(cols, id) == Some((c, r)),
{
    assert(is_card_pos(cols, id, (c, r).0, (c, r).1));
    let p = choose|p: (int, int)| is_card_pos(cols, id, p.0, p.1);
    assert(p.0 == c) by {
        if p.0 < c {
            assert(cols[p.0].cards@[p.1].id@ != id);
        } else if c < p.0 {
            assert(cols[c].cards@[r].id@ != id);
        }
    }
    assert(p.1 == r) by {
        if p.1 < r {
            assert(cols[c].cards@[p.1].id@ != id);
        } else if r < p.1 {
            assert(cols[c].cards@[r].id@ != id);
        }
    }
}

proof fn lemma_card_pos_none(cols: Seq<Column>, id: Seq<char>)
    requires
        no_card(cols, id),
    ensures
        card_pos(cols, id) is None,
{
    if exists|c: int, r: int| is_card_pos(cols, id, c, r) {
        let (c, r) = choose|c: int, r: int| is_card_pos(cols, id, c, r);
        assert(cols[c].cards@[r].id@ != id);
    }
}

/// The column `c` of `cols` with its selection set to `sel`.
pub open spec fn with_selected(cols: Seq<Column>, c: int, sel: Option<usize>) -> Seq<Column> {
    cols.update(c, Column { selected: sel, ..cols[c] })
}

impl App {
    /// The state's invariant: selections in range and the current column one that exists.
    pub open spec fn wf(&self) -> bool {
        &&& forall|c: int| 0 <= c < self.columns.len() ==> #[trigger] column_wf(self.columns@[c])
        &&& (self.columns.len() == 0 ==> self.col == 0)
        &&& (self.columns.len() > 0 ==> self.col < self.columns.len())
        &&& (self.picker matches Some(r) ==> r < self.boards.len())
        &&& pending_wf(self.pending_saves@)
        &&& self.keys.wf()
    }

    /// The counters have room for one more request and one more temporary id.
    pub open spec fn has_room(&self) -> bool {
        &&& self.inflight < usize::MAX
        &&& self.temp_seq < u64::MAX
        &&& saves_room(self.pending_saves@)
    }

    /// Whether `has_room` holds; the program stops before a counter would overflow.
    pub fn room(&self) -> (b: bool)
        ensures
            b == self.has_room(),
    {
        if self.inflight == usize::MAX || self.temp_seq == u64::MAX {
            return false;
        }
        let mut i: usize = 0;
        while i < self.pending_saves.len()
            invariant
                i <= self.pending_saves.len(),
                forall|j: int| 0 <= j < i ==> #[trigger] self.pending_saves@[j].1 < usize::MAX,
            decreases self.pending_saves.len() - i,
        {
            if self.pending_saves[i].1 == usize::MAX {
                return false;
            }
            i = i + 1;
        }
        true
    }

    pub fn new(config: Config) -> (a: App)
        ensures
            a.wf(),
            a.has_room(),
            a.column_width == config.column_width,
            a.default_board == config.default_board,
            a.screen == Screen::Picker,
            a.overlay is Hidden,
            a.prompt is None,
            a.keys@ == idle(),
            a.boards@.len() == 0,
            !a.boards_loaded,
            a.picker is None,
            a.board is None,
            !a.board_loading,
            a.columns@.len() == 0,
            a.col == 0,
            a.col_offset == 0,
            a.half_page == 10,
            a.search is None,
            a.status is None,
            a.inflight == 0,
            a.last_archived is None,
            a.temp_seq == 0,
            !a.should_quit,
            a.effects@.len() == 0,
            a.pending_saves@.len() == 0,
    {
        App {
            pending_saves: Vec::new(),
            column_width: config.column_width,
            default_board: config.default_board,
            screen: Screen::Picker,
            overlay: Overlay::Hidden,
            prompt: None,
            keys: KeyParser::new(),
            boards: Vec::new(),
            boards_loaded: false,
            picker: None,
            board: None,
            board_loading: false,
            columns: Vec::new(),
            col: 0,
            col_offset: 0,
            half_page: 10,
            search: None,
            status: None,
            inflight: 0,
            last_archived: None,
            temp_seq: 0,
            should_quit: false,
            effects: Vec::new(),
        }
    }

    /// Hands over the queued effects, oldest first.
    pub fn take_effects(&mut self) -> (e: Vec<Effect>)
        ensures
            e@ == old(self).effects@,
            final(self).effects@.len() == 0,
            *final(self) == (App { effects: final(self).effects, ..*old(self) }),
    {
        let mut e: Vec<Effect> = Vec::new();
        std::mem::swap(&mut e, &mut self.effects);
        e
    }

    // ---- board helpers --------------------------------------------------

    pub fn current_column(&self) -> (r: Option<&Column>)
        ensures
            self.col < self.columns.len() ==> (r matches Some(c) && *c == self.columns@[self.col as int]),
            self.col >= self.columns.len() ==> r is None,
    {
        if self.col < self.columns.len() {
            Some(&self.columns[self.col])
        } else {
            None
        }
    }

    pub fn row(&self) -> (r: Option<usize>)
        ensures
            r == (if self.col < self.columns.len() {
                self.columns@[self.col as int].selected
            } else {
                None
            }),
    {
        match self.current_column() {
            Some(c) => c.selected,
            None => None,
        }
    }

    pub fn current_card(&self) -> (r: Option<&Card>)
        ensures
            match self.current_card_at() {
                Some(k) => r matches Some(card) && *card == self.columns@[self.col as int].cards@[k],
                None => r is None,
            },
    {
        match self.current_column() {
            Some(c) => match c.selected {
                Some(i) => {
                    if i < c.cards.len() {
                        Some(&c.cards[i])
                    } else {
                        None
                    }
                },
                None => None,
            },
            None => None,
        }
    }

    /// The row of the selected card in the current column, if there is one.
    pub open spec fn current_card_at(&self) -> Option<int> {
        if self.col < self.columns.len() {
            match self.columns@[self.col as int].selected {
                Some(i) => if i < self.columns@[self.col as int].cards.len() {
                    Some(i as int)
                } else {
                    None
                },
                None => None,
            }
        } else {
            None
        }
    }

    pub fn find_card(&self, id: &str) -> (r: Option<(usize, usize)>)
        ensures
            match card_pos(self.columns@, id@) {
                Some((c, k)) => r == Some((c as usize, k as usize)),
                None => r is None,
            },
            r matches Some((c, k)) ==> is_card_pos(self.columns@, id@, c as int, k as int),
    {
        let want = String::from_str(id);
        let mut c: usize = 0;
        while c < self.columns.len()
            invariant
                c <= self.columns.len(),
                want@ == id@,
                forall|d: int, k: int|
                    0 <= d < c && 0 <= k < self.columns@[d].cards.len()
                        ==> #[trigger] self.columns@[d].cards@[k].id@ != id@,
            decreases self.columns.len() - c,
        {
            let col = &self.columns[c];
            let mut k: usize = 0;
            while k < col.cards.len()
                invariant
                    c < self.columns.len(),
                    *col == self.columns@[c as int],
                    k <= col.cards.len(),
                    want@ == id@,
                    forall|j: int| 0 <= j < k ==> #[trigger] col.cards@[j].id@ != id@,
                    forall|d: int, j: int|
                        0 <= d < c && 0 <= j < self.columns@[d].cards.len()
                            ==> #[trigger] self.columns@[d].cards@[j].id@ != id@,
                decreases col.cards.len() - k,
            {
                if col.cards[k].id == want {
                    proof {
                        lemma_card_pos_unique(self.columns@, id@, c as int, k as int);
                    }
                    return Some((c, k));
                }
                k = k + 1;
            }
            c = c + 1;
        }
        proof {
            lemma_card_pos_none(self.columns@, id@);
        }
        None
    }

    /// Sets the selection of column `c`.
    pub(crate) fn set_selected(&mut self, c: usize, sel: Option<usize>)
        requires
            c < old(self).columns.len(),
        ensures
            final(self).columns@ == with_selected(old(self).columns@, c as int, sel),
            *final(self) == (App { columns: final(self).columns, ..*old(self) }),
    {
        let mut column = self.columns.remove(c);
        column.selected = sel;
        self.columns.insert(c, column);
        assert(self.columns@ =~= with_selected(old(self).columns@, c as int, sel));
    }

    /// Keeps a column's selection valid: `None` when empty, in range otherwise.
    pub fn clamp_selection(&mut self, c: usize)
        ensures
            old(self).wf() ==> final(self).wf(),
            c < old(self).columns.len() ==> final(self).columns@ == with_selected(
                old(self).columns@,
                c as int,
                clamped(old(self).columns@[c as int]),
            ),
            c < old(self).columns.len() ==> column_wf(final(self).columns@[c as int]),
            c >= old(self).columns.len() ==> final(self).columns@ == old(self).columns@,
            *final(self) == (App { columns: final(self).columns, ..*old(self) }),
    {
        if c >= self.columns.len() {
            return;
        }
        let n = self.columns[c].cards.len();
        let sel = if n == 0 {
            None
        } else {
            let s = match self.columns[c].selected {
                Some(r) => r,
                None => 0,
            };
            Some(if s < n - 1 { s } else { n - 1 })
        };
        self.set_selected(c, sel);
    }

    pub fn select_row(&mut self, row: usize)
        ensures
            old(self).wf() ==> final(self).wf(),
            old(self).col < old(self).columns.len() && old(self).columns@[old(self).col as int].cards.len() > 0
                ==> final(self).columns@ == with_selected(
                old(self).columns@,
                old(self).col as int,
                Some(
                    if row < old(self).columns@[old(self).col as int].cards.len() - 1 {
                        row
                    } else {
                        (old(self).columns@[old(self).col as int].cards.len() - 1) as usize
                    },
                ),
            ),
            !(old(self).col < old(self).columns.len() && old(self).columns@[old(self).col as int].cards.len() > 0)
                ==> final(self).columns@ == old(self).columns@,
            *final(self) == (App { columns: final(self).columns, ..*old(self) }),
    {
        if self.col >= self.columns.len() {
            return;
        }
        let n = self.columns[self.col].cards.len();
        if n > 0 {
            let c = self.col;
            self.set_selected(c, Some(if row < n - 1 { row } else { n - 1 }));
        }
    }
}

/// Column `c` of `new` has cards `cards` and selection `sel`; every other column is as in `old`.
pub open spec fn column_now(old: Seq<Column>, new: Seq<Column>, c: int, cards: Seq<Card>, sel: Option<usize>) -> bool {
    &&& 0 <= c < old.len()
    &&& new.len() == old.len()
    &&& forall|d: int| 0 <= d < old.len() && d != c ==> #[trigger] new[d] == old[d]
    &&& new[c].list == old[c].list
    &&& new[c].cards@ == cards
    &&& new[c].selected == sel
}

pub proof fn lemma_column_now_wf(old: Seq<Column>, new: Seq<Column>, c: int, cards: Seq<Card>, sel: Option<usize>)
    requires
        forall|d: int| 0 <= d < old.len() ==> #[trigger] column_wf(old[d]),
        column_now(old, new, c, cards, sel),
        match sel {
            Some(r) => r < cards.len(),
            None => cards.len() == 0,
        },
    ensures
        forall|d: int| 0 <= d < new.len() ==> #[trigger] column_wf(new[d]),
{
    assert forall|d: int| 0 <= d < new.len() implies #[trigger] column_wf(new[d]) by {
        if d != c {
            assert(new[d] == old[d]);
        } else {
            assert(new[d].cards@.len() == cards.len());
        }
    }
}

/// The positions of the cards around row `i`, which a card placed at `i` must sort between.
pub open spec fn neighbours(cards: Seq<Card>, i: int) -> (Option<u64>, Option<u64>) {
    (
        if i > 0 { Some(cards[i - 1].pos) } else { None },
        if i + 1 < cards.len() { Some(cards[i + 1].pos) } else { None },
    )
}

/// The id given to the `n`th card or list created locally.
pub open spec fn temp_id(n: nat) -> Seq<char> {
    seq!['t', 'm', 'p', '-'] + decimal(n)
}

/// Temporary ids never repeat: ids made from different counter values differ, and each one
/// is taken for an object the server has not confirmed yet.
pub proof fn law_temp_ids_distinct(m: nat, n: nat)
    ensures
        is_temp_id(temp_id(n)),
        m != n ==> temp_id(m) != temp_id(n),
{
    assert(temp_prefix().is_prefix_of(temp_id(n))) by {
        assert(temp_id(n).subrange(0, 4) =~= temp_prefix());
    }
    if temp_id(m) == temp_id(n) {
        assert(decimal(m) =~= temp_id(m).subrange(4, temp_id(m).len() as int));
        assert(decimal(n) =~= temp_id(n).subrange(4, temp_id(n).len() as int));
        lemma_decimal_value(m);
        lemma_decimal_value(n);
    }
}

/// `e` queues an update of card `id` that sets `fields`.
pub open spec fn is_update(e: Effect, id: Seq<char>, fields: Seq<CardField>) -> bool {
    e matches Effect::Write(Write::Update { card_id, fields: f }) && card_id@ == id && f@ == fields
}

/// `e` opens the prompt with `initial` as its text.
pub open spec fn is_prompt(e: Effect, initial: Seq<char>) -> bool {
    e matches Effect::Prompt { initial: i } && i@ == initial
}

/// After queuing an update of card `id`, one more update of it is pending and no other count moved.
pub open spec fn bumped(old: Seq<(String, usize)>, new: Seq<(String, usize)>, id: Seq<char>) -> bool {
    &&& pending_wf(new)
    &&& forall|k: Seq<char>| #[trigger] pending_count(new, k) == pending_count(old, k) + if k == id { 1nat } else { 0nat }
    &&& forall|i: int| 0 <= i < new.len() ==> #[trigger] new[i].1 <= (if new[i].0@ == id { pending_count(old, id) + 1 } else { pending_count(old, new[i].0@) })
}

proof fn lemma_pending_absent(p: Seq<(String, usize)>, k: Seq<char>)
    requires
        forall|i: int| 0 <= i < p.len() ==> #[trigger] p[i].0@ != k,
    ensures
        pending_count(p, k) == 0,
{
}

/// `c` is the first column whose list has id `id`.
pub open spec fn is_first_list(cols: Seq<Column>, id: Seq<char>, c: int) -> bool {
    &&& 0 <= c < cols.len()
    &&& cols[c].list.id@ == id
    &&& forall|d: int| 0 <= d < c ==> #[trigger] cols[d].list.id@ != id
}

/// The first column whose list has id `id`, if any.
pub open spec fn list_index(cols: Seq<Column>, id: Seq<char>) -> Option<int> {
    if exists|c: int| is_first_list(cols, id, c) {
        Some(choose|c: int| is_first_list(cols, id, c))
    } else {
        None
    }
}

pub proof fn lemma_list_index(cols: Seq<Column>, id: Seq<char>, c: int)
    requires
        is_first_list(cols, id, c),
    ensures
        list_index(cols, id) == Some(c),
{
    let k = choose|k: int| is_first_list(cols, id, k);
    assert(k == c) by {
        if k < c {
            assert(cols[k].list.id@ != id);
        } else if c < k {
            assert(cols[c].list.id@ != id);
        }
    }
}


pub proof fn lemma_list_index_same(c1: Seq<Column>, c2: Seq<Column>, id: Seq<char>)
    requires
        c1.len() == c2.len(),
        forall|d: int| 0 <= d < c1.len() ==> #[trigger] c1[d].list == c2[d].list,
    ensures
        list_index(c1, id) == list_index(c2, id),
{
    if exists|c: int| is_first_list(c1, id, c) {
        let c = choose|c: int| is_first_list(c1, id, c);
        lemma_list_index(c1, id, c);
        assert forall|d: int| 0 <= d < c implies #[trigger] c2[d].list.id@ != id by {
            assert(c1[d].list == c2[d].list);
        }
        assert(is_first_list(c2, id, c));
        lemma_list_index(c2, id, c);
    } else if exists|c: int| is_first_list(c2, id, c) {
        let c = choose|c: int| is_first_list(c2, id, c);
        assert forall|d: int| 0 <= d < c implies #[trigger] c1[d].list.id@ != id by {
            assert(c1[d].list == c2[d].list);
        }
        assert(is_first_list(c1, id, c));
    }
}

/// The cards, in the order given, that belong to column `k`: the first column whose list is
/// the card's list.
pub open spec fn cards_for(cards: Seq<Card>, cols: Seq<Column>, k: int) -> Seq<Card>
    decreases cards.len(),
{
    if cards.len() == 0 {
        Seq::empty()
    } else {
        let r = cards_for(cards.drop_last(), cols, k);
        if list_index(cols, cards.last().id_list@) == Some(k) {
            r.push(cards.last())
        } else {
            r
        }
    }
}

proof fn lemma_cards_for_same(cards: Seq<Card>, c1: Seq<Column>, c2: Seq<Column>, k: int)
    requires
        c1.len() == c2.len(),
        forall|d: int| 0 <= d < c1.len() ==> #[trigger] c1[d].list == c2[d].list,
    ensures
        cards_for(cards, c1, k) == cards_for(cards, c2, k),
    decreases cards.len(),
{
    if cards.len() > 0 {
        lemma_cards_for_same(cards.drop_last(), c1, c2, k);
        lemma_list_index_same(c1, c2, cards.last().id_list@);
    }
}

/// The lists of the columns, in order.
pub open spec fn lists_of(cols: Seq<Column>) -> Seq<List> {
    Seq::new(cols.len(), |k: int| cols[k].list)
}

/// The selection that the first old column with list `id` had.
pub open spec fn prev_selection(old: Seq<Column>, id: Seq<char>) -> Option<usize> {
    match list_index(old, id) {
        Some(c) => old[c].selected,
        None => None,
    }
}

/// The selection of a column `k` of `new` restored from the old columns and clamped.
pub open spec fn restored_selection(old: Seq<Column>, new: Seq<Column>, k: int) -> Option<usize> {
    let s = prev_selection(old, new[k].list.id@);
    if new[k].cards@.len() == 0 {
        None
    } else {
        let x = match s {
            Some(r) => r,
            None => 0usize,
        };
        Some(if x < new[k].cards@.len() - 1 { x } else { (new[k].cards@.len() - 1) as usize })
    }
}

/// What `set_board_data` does: the board now shows `lists` in order of position, each with its
/// cards in order of position (items of equal position in the order given); selections and the
/// cursor stay on the same list and card.
pub open spec fn board_set(a: App, n: App, lists: Seq<List>, cards: Seq<Card>) -> bool {
    let cols = n.columns@;
    let prev_card = match a.current_card_at() {
        Some(r) => Some(a.columns@[a.col as int].cards@[r].id@),
        None => None,
    };
    let prev_list = if a.col < a.columns.len() { Some(a.columns@[a.col as int].list.id@) } else { None };
    &&& cols.len() == lists.len()
    &&& sorted(lists_of(cols))
    &&& lists_of(cols).to_multiset() == lists.to_multiset()
    &&& forall|k: int| 0 <= k < cols.len() ==> sorted(#[trigger] cols[k].cards@)
    &&& forall|k: int| 0 <= k < cols.len() ==> (#[trigger] cols[k].cards@).to_multiset() == cards_for(cards, cols, k).to_multiset()
    &&& forall|key: List| #[trigger] rank_class(lists_of(cols), key) == rank_class(lists, key)
    &&& forall|k: int, key: Card| 0 <= k < cols.len() ==> #[trigger] rank_class(cols[k].cards@, key) == rank_class(cards_for(cards, cols, k), key)
    &&& if prev_card is Some && card_pos(cols, prev_card->0) is Some {
        let (c, r) = card_pos(cols, prev_card->0)->0;
        &&& n.col == c
        &&& cols[c].selected == Some(r as usize)
        &&& forall|k: int| 0 <= k < cols.len() && k != c ==> #[trigger] cols[k].selected == restored_selection(a.columns@, cols, k)
    } else {
        &&& n.col == match prev_list {
            Some(id) => match list_index(cols, id) {
                Some(c) => c as usize,
                None => 0usize,
            },
            None => 0usize,
        }
        &&& forall|k: int| 0 <= k < cols.len() ==> #[trigger] cols[k].selected == restored_selection(a.columns@, cols, k)
    }
    &&& n == App { columns: n.columns, col: n.col, ..a }
}

/// After an update of card `id` was answered: `remaining` updates of it are still pending (one
/// fewer than before, and none once the last is answered) and no other count moved.
pub open spec fn settled(old: Seq<(String, usize)>, new: Seq<(String, usize)>, id: Seq<char>, remaining: usize) -> bool {
    &&& pending_wf(new)
    &&& remaining == (if pending_count(old, id) > 1 { pending_count(old, id) - 1 } else { 0 })
    &&& forall|k: Seq<char>| #[trigger] pending_count(new, k) == if k == id { remaining as nat } else { pending_count(old, k) }
    &&& forall|i: int| 0 <= i < new.len() ==> #[trigger] new[i].1 <= (if new[i].0@ == id { pending_count(old, id) } else { pending_count(old, new[i].0@) })
}

/// An answered update undoes the count its queuing added: after queuing an update of a card
/// and then receiving one answer for it, every card has as many updates pending as before.
pub proof fn law_answer_settles_queued_update(
    p0: Seq<(String, usize)>,
    p1: Seq<(String, usize)>,
    p2: Seq<(String, usize)>,
    id: Seq<char>,
    remaining: usize,
)
    requires
        bumped(p0, p1, id),
        settled(p1, p2, id, remaining),
    ensures
        forall|k: Seq<char>| #[trigger] pending_count(p2, k) == pending_count(p0, k),
        remaining == pending_count(p0, id),
{
    assert(pending_count(p1, id) == pending_count(p0, id) + 1);
}

/// `i` is the first board whose name is `name`, ignoring case.
pub open spec fn is_first_named(boards: Seq<Board>, name: Seq<char>, i: int) -> bool {
    &&& 0 <= i < boards.len()
    &&& lowercase(boards[i].name@) == name
    &&& forall|j: int| 0 <= j < i ==> lowercase(#[trigger] boards[j].name@) != name
}

/// The state once boards have arrived: the picker's selection kept in range.
pub open spec fn with_boards(a: App, boards: Vec<Board>) -> App {
    let sel = match a.picker {
        Some(r) => r,
        None => 0usize,
    };
    App {
        boards,
        boards_loaded: true,
        picker: if boards@.len() == 0 {
            None
        } else {
            Some(if sel < boards@.len() - 1 { sel } else { (boards@.len() - 1) as usize })
        },
        default_board: None,
        ..a
    }
}

/// What a message from the API does.
pub open spec fn handled(a: App, n: App, msg: Msg) -> bool {
    let a1 = App { inflight: a.inflight.saturating_sub(1), ..a };
    match msg {
        Msg::Boards(Ok(boards)) => {
            let a2 = with_boards(a1, boards);
            match a.default_board {
                None => n == a2,
                Some(name) => {
                    let wanted = lowercase(name@);
                    if exists|i: int| is_first_named(boards@, wanted, i) {
                        board_opened(a2, n, boards@[choose|i: int| is_first_named(boards@, wanted, i)])
                    } else {
                        &&& n == App { status: n.status, ..a2 }
                        &&& n.status matches Some((m, true)) && m@ == "default_board '"@ + wanted + "' not found"@
                    }
                },
            }
        },
        Msg::Boards(Err(e)) => {
            &&& n == App { boards_loaded: true, status: n.status, ..a1 }
            &&& n.status matches Some((m, true)) && m@ == "Loading boards failed: "@ + e@
        },
        Msg::BoardData { board_id, result } => {
            if !(a.board matches Some(b) && b.id@ == board_id@) {
                n == a1
            } else {
                let a2 = App { board_loading: false, ..a1 };
                match result {
                    Ok((lists, cards)) => board_set(a2, n, lists@, cards@),
                    Err(e) => {
                        &&& n == App { status: n.status, ..a2 }
                        &&& n.status matches Some((m, true)) && m@ == "Loading board failed: "@ + e@
                    },
                }
            }
        },
        Msg::CardCreated { temp_id, result } => match card_pos(a.columns@, temp_id@) {
            Some((c, r)) => match result {
                Ok(card) => {
                    &&& column_now(a.columns@, n.columns@, c, a.columns@[c].cards@.update(r, card), a.columns@[c].selected)
                    &&& n == App { columns: n.columns, ..a1 }
                },
                Err(e) => {
                    let rest = a.columns@[c].cards@.remove(r);
                    &&& column_now(a.columns@, n.columns@, c, rest, clamp_sel_len(a.columns@[c].selected, rest.len()))
                    &&& n.status matches Some((m, true)) && m@ == "Creating card failed: "@ + e@
                    &&& n == App { columns: n.columns, status: n.status, ..a1 }
                },
            },
            None => match result {
                Ok(_) => n == a1,
                Err(e) => {
                    &&& n == App { status: n.status, ..a1 }
                    &&& n.status matches Some((m, true)) && m@ == "Creating card failed: "@ + e@
                },
            },
        },
        Msg::CardSaved { card_id, result } => {
            let cnt = pending_count(a.pending_saves@, card_id@);
            let remaining: usize = if cnt > 1 { (cnt - 1) as usize } else { 0 };
            &&& settled(a.pending_saves@, n.pending_saves@, card_id@, remaining)
            &&& match result {
                Ok(card) => if remaining == 0 && !card.closed && card_pos(a.columns@, card.id@) is Some {
                    let (c, r) = card_pos(a.columns@, card.id@)->0;
                    &&& column_now(a.columns@, n.columns@, c, a.columns@[c].cards@.update(r, card), a.columns@[c].selected)
                    &&& n == App { columns: n.columns, pending_saves: n.pending_saves, ..a1 }
                } else {
                    n == App { pending_saves: n.pending_saves, ..a1 }
                },
                Err(e) => {
                    &&& n.status matches Some((m, true)) && m@ == "Saving failed, reloaded board: "@ + e@
                    &&& reloaded(App { status: n.status, pending_saves: n.pending_saves, ..a1 }, n)
                },
            }
        },
    }
}

/// The selection of a column of `len` cards after clamping `sel` into range.
pub open spec fn clamp_sel_len(sel: Option<usize>, len: nat) -> Option<usize> {
    if len == 0 {
        None
    } else {
        let s = match sel {
            Some(r) => r,
            None => 0usize,
        };
        Some(if s < len - 1 { s } else { (len - 1) as usize })
    }
}

/// What `load_boards` does: asks for the open boards.
pub open spec fn boards_requested(a: App, n: App) -> bool {
    &&& n.inflight == a.inflight + 1
    &&& n.effects@ == a.effects@.push(Effect::LoadBoards)
    &&& n == App { inflight: n.inflight, effects: n.effects, ..a }
}

/// What `reload_board` does: asks for the open board's lists and cards, if a board is open.
pub open spec fn reloaded(a: App, n: App) -> bool {
    match a.board {
        None => n == a,
        Some(b) => {
            &&& n.inflight == a.inflight + 1
            &&& n.effects@.len() == a.effects@.len() + 1
            &&& n.effects@.subrange(0, a.effects@.len() as int) == a.effects@
            &&& n.effects@.last() matches Effect::LoadBoard { board_id } && board_id@ == b.id@
            &&& n == App { inflight: n.inflight, effects: n.effects, board_loading: true, ..a }
        },
    }
}

/// What `open_board` does: shows the board screen; a board other than the one shown (or one
/// not loaded yet) replaces it and is loaded.
pub open spec fn board_opened(a: App, n: App, board: Board) -> bool {
    if a.board matches Some(b) && b.id@ == board.id@ && a.columns.len() > 0 {
        n == App { screen: Screen::Board, overlay: Overlay::Hidden, ..a }
    } else {
        &&& n.columns@.len() == 0
        &&& n.inflight == a.inflight + 1
        &&& n.effects@.len() == a.effects@.len() + 1
        &&& n.effects@.subrange(0, a.effects@.len() as int) == a.effects@
        &&& n.effects@.last() matches Effect::LoadBoard { board_id } && board_id@ == board.id@
        &&& n == App {
            screen: Screen::Board,
            overlay: Overlay::Hidden,
            columns: n.columns,
            col: 0,
            col_offset: 0,
            last_archived: None,
            board: Some(board),
            board_loading: true,
            inflight: n.inflight,
            effects: n.effects,
            ..a
        }
    }
}

/// The first column whose list has id `id`.
fn position_in(cols: &Vec<Column>, id: &String) -> (r: Option<usize>)
    ensures
        r matches Some(c) ==> list_index(cols@, id@) == Some(c as int) && c < cols@.len(),
        r is None ==> list_index(cols@, id@) is None,
{
    let mut c: usize = 0;
    while c < cols.len()
        invariant
            c <= cols.len(),
            forall|d: int| 0 <= d < c ==> #[trigger] cols@[d].list.id@ != id@,
        decreases cols.len() - c,
    {
        if cols[c].list.id == *id {
            proof {
                lemma_list_index(cols@, id@, c as int);
            }
            return Some(c);
        }
        c = c + 1;
    }
    None
}

/// Empty columns for `lists`, in order.
fn empty_columns(lists: &Vec<List>) -> (cols: Vec<Column>)
    ensures
        cols@.len() == lists@.len(),
        forall|k: int| 0 <= k < cols@.len() ==> (#[trigger] cols@[k]).list == lists@[k] && cols@[k].cards@.len() == 0
            && cols@[k].selected is None,
{
    let mut cols: Vec<Column> = Vec::new();
    let mut k: usize = 0;
    while k < lists.len()
        invariant
            k <= lists.len(),
            cols@.len() == k,
            forall|j: int| 0 <= j < k ==> (#[trigger] cols@[j]).list == lists@[j] && cols@[j].cards@.len() == 0
                && cols@[j].selected is None,
        decreases lists.len() - k,
    {
        cols.push(Column { list: lists[k].clone(), cards: Vec::new(), selected: None });
        k = k + 1;
    }
    cols
}

/// Puts each card, in order, at the end of the first column whose list is its list.
fn distribute(cols: &mut Vec<Column>, cards: Vec<Card>)
    requires
        forall|k: int| 0 <= k < old(cols)@.len() ==> (#[trigger] old(cols)@[k]).cards@.len() == 0,
    ensures
        final(cols)@.len() == old(cols)@.len(),
        forall|k: int| 0 <= k < final(cols)@.len() ==> (#[trigger] final(cols)@[k]).list == old(cols)@[k].list
            && final(cols)@[k].selected == old(cols)@[k].selected
            && final(cols)@[k].cards@ == cards_for(cards@, old(cols)@, k),
{
    let ghost start = cols@;
    let ghost all = cards@;
    let mut rest = cards;
    let ghost mut done: Seq<Card> = Seq::empty();
    while rest.len() > 0
        invariant
            all == done + rest@,
            cols@.len() == start.len(),
            forall|k: int| 0 <= k < cols@.len() ==> (#[trigger] cols@[k]).list == start[k].list
                && cols@[k].selected == start[k].selected
                && cols@[k].cards@ == cards_for(done, start, k),
        decreases rest.len(),
    {
        let card = rest.remove(0);
        proof {
            assert(all == done.push(card) + rest@);
            assert(done.push(card).drop_last() =~= done);
            lemma_list_index_same(cols@, start, card.id_list@);
        }
        let target = position_in(cols, &card.id_list);
        let ghost before = cols@;
        match target {
            Some(k) => {
                let mut col = cols.remove(k);
                col.cards.push(card);
                cols.insert(k, col);
                proof {
                    assert forall|j: int| 0 <= j < cols@.len() implies (#[trigger] cols@[j]).list == start[j].list
                        && cols@[j].selected == start[j].selected
                        && cols@[j].cards@ == cards_for(done.push(card), start, j) by {
                        assert(done.push(card).last() == card);
                        assert(cards_for(done.push(card), start, j) == if list_index(start, card.id_list@) == Some(j) {
                            cards_for(done, start, j).push(card)
                        } else {
                            cards_for(done, start, j)
                        });
                        if j != k {
                            assert(cols@[j] == before[j]);
                        }
                    }
                }
            },
            None => {},
        }
        proof {
            done = done.push(card);
        }
    }
    assert(all =~= done);
}

impl App {
    /// Column `c` with row `i` taken out.
    pub(crate) fn remove_card(&mut self, c: usize, i: usize) -> (card: Card)
        requires
            c < old(self).columns.len(),
            i < old(self).columns@[c as int].cards.len(),
        ensures
            card == old(self).columns@[c as int].cards@[i as int],
            column_now(
                old(self).columns@,
                final(self).columns@,
                c as int,
                old(self).columns@[c as int].cards@.remove(i as int),
                old(self).columns@[c as int].selected,
            ),
            *final(self) == (App { columns: final(self).columns, ..*old(self) }),
    {
        let mut column = self.columns.remove(c);
        let card = column.cards.remove(i);
        self.columns.insert(c, column);
        card
    }

    /// Column `c` with `card` put in at row `i`.
    pub(crate) fn insert_card(&mut self, c: usize, i: usize, card: Card)
        requires
            c < old(self).columns.len(),
            i <= old(self).columns@[c as int].cards.len(),
        ensures
            column_now(
                old(self).columns@,
                final(self).columns@,
                c as int,
                old(self).columns@[c as int].cards@.insert(i as int, card),
                old(self).columns@[c as int].selected,
            ),
            *final(self) == (App { columns: final(self).columns, ..*old(self) }),
    {
        let mut column = self.columns.remove(c);
        column.cards.insert(i, card);
        self.columns.insert(c, column);
    }

    /// Recomputes `pos` for the card at `(c, i)` from its neighbours and returns it;
    /// `between` gives a position that sorts between two others.
    pub fn reposition<F: Fn(Option<u64>, Option<u64>) -> u64>(&mut self, c: usize, i: usize, between: &F) -> (pos: u64)
        requires
            c < old(self).columns.len(),
            i < old(self).columns@[c as int].cards.len(),
            forall|p: Option<u64>, n: Option<u64>| between.requires((p, n)),
        ensures
            between.ensures(neighbours(old(self).columns@[c as int].cards@, i as int), pos),
            column_now(
                old(self).columns@,
                final(self).columns@,
                c as int,
                old(self).columns@[c as int].cards@.update(
                    i as int,
                    Card { pos, ..old(self).columns@[c as int].cards@[i as int] },
                ),
                old(self).columns@[c as int].selected,
            ),
            *final(self) == (App { columns: final(self).columns, ..*old(self) }),
    {
        let n = self.columns[c].cards.len();
        let prev = if i > 0 { Some(self.columns[c].cards[i - 1].pos) } else { None };
        let next = if i + 1 < n { Some(self.columns[c].cards[i + 1].pos) } else { None };
        let pos = between(prev, next);
        let ghost mid = *self;
        let mut card = self.remove_card(c, i);
        card.pos = pos;
        self.insert_card(c, i, card);
        assert(self.columns@[c as int].cards@ =~= old(self).columns@[c as int].cards@.update(
            i as int,
            Card { pos, ..old(self).columns@[c as int].cards@[i as int] },
        ));
        pos
    }

    pub fn info(&mut self, msg: String)
        ensures
            old(self).wf() ==> final(self).wf(),
            *final(self) == (App { status: Some((msg, false)), ..*old(self) }),
    {
        self.status = Some((msg, false));
    }

    pub fn error(&mut self, msg: String)
        ensures
            old(self).wf() ==> final(self).wf(),
            *final(self) == (App { status: Some((msg, true)), ..*old(self) }),
    {
        self.status = Some((msg, true));
    }

    pub fn next_temp_id(&mut self) -> (id: String)
        requires
            old(self).temp_seq < u64::MAX,
        ensures
            old(self).wf() ==> final(self).wf(),
            final(self).temp_seq == old(self).temp_seq + 1,
            id@ == temp_id(final(self).temp_seq as nat),
            *final(self) == (App { temp_seq: final(self).temp_seq, ..*old(self) }),
    {
        self.temp_seq = self.temp_seq + 1;
        let mut s = String::from_str("tmp-");
        proof {
            reveal_strlit("tmp-");
        }
        push_decimal(&mut s, self.temp_seq);
        s
    }

    /// One more update of card `id` is pending.
    fn bump_pending(&mut self, id: &String)
        requires
            pending_wf(old(self).pending_saves@),
            forall|i: int| 0 <= i < old(self).pending_saves.len() ==> #[trigger] old(self).pending_saves@[i].1 < usize::MAX,
        ensures
            bumped(old(self).pending_saves@, final(self).pending_saves@, id@),
            *final(self) == (App { pending_saves: final(self).pending_saves, ..*old(self) }),
    {
        let ghost p = self.pending_saves@;
        let mut i: usize = 0;
        while i < self.pending_saves.len()
            invariant
                i <= self.pending_saves.len(),
                self.pending_saves@ == p,
                *self == *old(self),
                p == old(self).pending_saves@,
                pending_wf(p),
                forall|j: int| 0 <= j < p.len() ==> #[trigger] p[j].1 < usize::MAX,
                forall|j: int| 0 <= j < i ==> #[trigger] p[j].0@ != id@,
            decreases self.pending_saves.len() - i,
        {
            if self.pending_saves[i].0 == *id {
                let (k, n) = self.pending_saves.remove(i);
                self.pending_saves.insert(i, (k, n + 1));
                proof {
                    let q = self.pending_saves@;
                    assert(q =~= p.update(i as int, (p[i as int].0, (n + 1) as usize)));
                    lemma_pending_count_at(p, i as int);
                    assert(pending_wf(q)) by {
                        assert forall|a: int, b: int| 0 <= a < b < q.len() implies #[trigger] q[a].0@ != #[trigger] q[b].0@ by {
                            assert(p[a].0@ != p[b].0@);
                        }
                    }
                    assert forall|key: Seq<char>| #[trigger] pending_count(q, key) == pending_count(p, key) + if key == id@ { 1nat } else { 0nat } by {
                        if key == id@ {
                            lemma_pending_count_at(q, i as int);
                        } else if exists|j: int| 0 <= j < p.len() && p[j].0@ == key {
                            let j = choose|j: int| 0 <= j < p.len() && p[j].0@ == key;
                            lemma_pending_count_at(p, j);
                            lemma_pending_count_at(q, j);
                        } else {
                            lemma_pending_absent(p, key);
                            lemma_pending_absent(q, key);
                        }
                    }
                    assert forall|j: int| 0 <= j < q.len() implies #[trigger] q[j].1 <= (if q[j].0@ == id@ { pending_count(p, id@) + 1 } else { pending_count(p, q[j].0@) }) by {
                        lemma_pending_count_at(p, j);
                    }
                }
                return;
            }
            i = i + 1;
        }
        self.pending_saves.push((id.clone(), 1));
        proof {
            let q = self.pending_saves@;
            lemma_pending_absent(p, id@);
            assert(pending_wf(q)) by {
                assert forall|a: int, b: int| 0 <= a < b < q.len() implies #[trigger] q[a].0@ != #[trigger] q[b].0@ by {
                    if b < p.len() {
                        assert(p[a].0@ != p[b].0@);
                    }
                }
            }
            assert forall|key: Seq<char>| #[trigger] pending_count(q, key) == pending_count(p, key) + if key == id@ { 1nat } else { 0nat } by {
                if key == id@ {
                    lemma_pending_count_at(q, p.len() as int);
                } else if exists|j: int| 0 <= j < p.len() && p[j].0@ == key {
                    let j = choose|j: int| 0 <= j < p.len() && p[j].0@ == key;
                    lemma_pending_count_at(p, j);
                    lemma_pending_count_at(q, j);
                } else {
                    lemma_pending_absent(p, key);
                    lemma_pending_absent(q, key);
                }
            }
            assert forall|j: int| 0 <= j < q.len() implies #[trigger] q[j].1 <= (if q[j].0@ == id@ { pending_count(p, id@) + 1 } else { pending_count(p, q[j].0@) }) by {
                if j < p.len() {
                    lemma_pending_count_at(p, j);
                }
            }
        }
    }

    pub fn write(&mut self, job: Write)
        requires
            old(self).inflight < usize::MAX,
            saves_room(old(self).pending_saves@),
            pending_wf(old(self).pending_saves@),
        ensures
            old(self).wf() ==> final(self).wf(),
            final(self).inflight == old(self).inflight + 1,
            final(self).effects@ == old(self).effects@.push(Effect::Write(job)),
            job matches Write::Update { card_id, .. } ==> bumped(old(self).pending_saves@, final(self).pending_saves@, card_id@),
            job is Create ==> final(self).pending_saves == old(self).pending_saves,
            *final(self) == (App { inflight: final(self).inflight, effects: final(self).effects, pending_saves: final(self).pending_saves, ..*old(self) }),
    {
        if let Write::Update { card_id, .. } = &job {
            self.bump_pending(card_id);
        }
        self.inflight = self.inflight + 1;
        self.effects.push(Effect::Write(job));
    }

    pub fn save_card(&mut self, card_id: &str, fields: Vec<CardField>)
        requires
            old(self).inflight < usize::MAX,
            saves_room(old(self).pending_saves@),
            pending_wf(old(self).pending_saves@),
        ensures
            old(self).wf() ==> final(self).wf(),
            final(self).inflight == old(self).inflight + 1,
            final(self).effects@.len() == old(self).effects@.len() + 1,
            final(self).effects@.subrange(0, old(self).effects@.len() as int) == old(self).effects@,
            final(self).effects@.last() matches Effect::Write(Write::Update { card_id: id, fields: f }) && id@ == card_id@ && f == fields,
            bumped(old(self).pending_saves@, final(self).pending_saves@, card_id@),
            *final(self) == (App { inflight: final(self).inflight, effects: final(self).effects, pending_saves: final(self).pending_saves, ..*old(self) }),
    {
        self.write(Write::Update { card_id: String::from_str(card_id), fields });
        assert(self.effects@.subrange(0, old(self).effects@.len() as int) =~= old(self).effects@);
    }

    /// Shows newly loaded lists and cards, keeping the cursor on the same list and card.
    pub fn set_board_data(&mut self, lists: Vec<List>, cards: Vec<Card>)
        requires
            old(self).wf(),
        ensures
            final(self).wf(),
            board_set(*old(self), *final(self), lists@, cards@),
    {
        let ghost all_lists = lists@;
        let ghost all_cards = cards@;
        let prev_list: Option<String> = if self.col < self.columns.len() {
            Some(self.columns[self.col].list.id.clone())
        } else {
            None
        };
        let prev_card: Option<String> = match self.current_card() {
            Some(c) => Some(c.id.clone()),
            None => None,
        };
        let mut old_cols: Vec<Column> = Vec::new();
        std::mem::swap(&mut old_cols, &mut self.columns);
        let ls = sort(lists);
        let mut cols = empty_columns(&ls);
        let ghost pre = cols@;
        distribute(&mut cols, cards);
        let ghost cols0 = cols@;
        proof {
            assert forall|k: int| 0 <= k < cols0.len() implies (#[trigger] cols0[k]).list == ls@[k]
                && cols0[k].cards@ == cards_for(all_cards, cols0, k) by {
                lemma_cards_for_same(all_cards, pre, cols0, k);
            }
        }
        let mut rest = cols;
        let mut fin: Vec<Column> = Vec::new();
        while rest.len() > 0
            invariant
                fin@.len() + rest@.len() == cols0.len(),
                cols0.len() == ls@.len(),
                forall|j: int| 0 <= j < rest@.len() ==> #[trigger] rest@[j] == cols0[fin@.len() + j],
                forall|k: int| 0 <= k < cols0.len() ==> (#[trigger] cols0[k]).list == ls@[k]
                    && cols0[k].cards@ == cards_for(all_cards, cols0, k),
                forall|j: int| 0 <= j < fin@.len() ==> (#[trigger] fin@[j]).list == cols0[j].list
                    && sorted(fin@[j].cards@)
                    && fin@[j].cards@.to_multiset() == cols0[j].cards@.to_multiset()
                    && fin@[j].selected == restored_selection(old_cols@, fin@, j),
                forall|j: int, key: Card| 0 <= j < fin@.len() ==> #[trigger] rank_class(fin@[j].cards@, key)
                    == rank_class(cols0[j].cards@, key),
            decreases rest.len(),
        {
            let ghost j = fin@.len() as int;
            let col = rest.remove(0);
            let sorted_cards = sort(col.cards);
            let prev = match position_in(&old_cols, &col.list.id) {
                Some(c) => old_cols[c].selected,
                None => None,
            };
            let n = sorted_cards.len();
            let sel = if n == 0 {
                None
            } else {
                let x = match prev {
                    Some(r) => r,
                    None => 0,
                };
                Some(if x < n - 1 { x } else { n - 1 })
            };
            let ghost before = fin@;
            let ghost col_list = col.list;
            let ghost col_cards = col.cards;
            fin.push(Column { list: col.list, cards: sorted_cards, selected: sel });
            proof {
                assert(col == cols0[j]);
                assert(fin@[j].list == cols0[j].list);
                assert(sorted(fin@[j].cards@));
                assert(fin@[j].cards@.to_multiset() == cols0[j].cards@.to_multiset());
                assert(prev == prev_selection(old_cols@, fin@[j].list.id@));
                assert(fin@[j].selected == restored_selection(old_cols@, fin@, j));
                assert forall|i: int, key: Card| 0 <= i < fin@.len() implies #[trigger] rank_class(fin@[i].cards@, key)
                    == rank_class(cols0[i].cards@, key) by {
                    if i < j {
                        assert(fin@[i] == before[i]);
                    }
                }
                assert forall|i: int| 0 <= i < fin@.len() implies (#[trigger] fin@[i]).list == cols0[i].list
                    && sorted(fin@[i].cards@)
                    && fin@[i].cards@.to_multiset() == cols0[i].cards@.to_multiset()
                    && fin@[i].selected == restored_selection(old_cols@, fin@, i) by {
                    if i < j {
                        assert(fin@[i] == before[i]);
                    }
                }
            }
        }
        let ghost newcols = fin@;
        proof {
            assert forall|k: int| 0 <= k < newcols.len() implies (#[trigger] newcols[k]).cards@.to_multiset() == cards_for(all_cards, newcols, k).to_multiset() by {
                lemma_cards_for_same(all_cards, cols0, newcols, k);
            }
            assert(lists_of(newcols) =~= ls@);
        }
        self.columns = fin;
        self.col = match &prev_list {
            Some(id) => match position_in(&self.columns, id) {
                Some(c) => c,
                None => 0,
            },
            None => 0,
        };
        let ghost mid = *self;
        if let Some(id) = prev_card {
            if let Some((c, r)) = self.find_card(id.as_str()) {
                self.col = c;
                self.set_selected(c, Some(r));
                proof {
                    assert(is_card_pos(self.columns@, id@, c as int, r as int)) by {
                        assert(forall|d: int| 0 <= d < newcols.len() ==> #[trigger] self.columns@[d].cards == newcols[d].cards);
                    }
                    lemma_card_pos_unique(self.columns@, id@, c as int, r as int);
                }
            }
        }
        proof {
            assert(self.columns@.len() == newcols.len());
            assert(lists_of(self.columns@) =~= lists_of(newcols));
            assert forall|k: int| 0 <= k < self.columns@.len() implies sorted(#[trigger] self.columns@[k].cards@)
                && self.columns@[k].cards@.to_multiset() == cards_for(all_cards, self.columns@, k).to_multiset() by {
                assert(self.columns@[k].cards == newcols[k].cards);
                lemma_cards_for_same(all_cards, newcols, self.columns@, k);
            }
            assert forall|c: int| 0 <= c < self.columns.len() implies #[trigger] column_wf(self.columns@[c]) by {
                assert(column_wf(newcols[c]));
            }
            assert forall|k: int, key: Card| 0 <= k < self.columns@.len() implies #[trigger] rank_class(self.columns@[k].cards@, key)
                == rank_class(cards_for(all_cards, self.columns@, k), key) by {
                assert(self.columns@[k].cards == newcols[k].cards);
                assert(rank_class(newcols[k].cards@, key) == rank_class(cols0[k].cards@, key));
                lemma_cards_for_same(all_cards, cols0, self.columns@, k);
            }
        }
    }

    /// One update of card `id` has been answered; returns how many are still pending.
    fn settle_pending(&mut self, id: &String) -> (remaining: usize)
        requires
            pending_wf(old(self).pending_saves@),
        ensures
            settled(old(self).pending_saves@, final(self).pending_saves@, id@, remaining),
            *final(self) == (App { pending_saves: final(self).pending_saves, ..*old(self) }),
    {
        let ghost p = self.pending_saves@;
        let mut i: usize = 0;
        while i < self.pending_saves.len()
            invariant
                i <= self.pending_saves.len(),
                self.pending_saves@ == p,
                *self == *old(self),
                p == old(self).pending_saves@,
                pending_wf(p),
                forall|j: int| 0 <= j < i ==> #[trigger] p[j].0@ != id@,
            decreases self.pending_saves.len() - i,
        {
            if self.pending_saves[i].0 == *id {
                proof {
                    lemma_pending_count_at(p, i as int);
                }
                let n = self.pending_saves[i].1;
                if n > 1 {
                    let (k, m) = self.pending_saves.remove(i);
                    self.pending_saves.insert(i, (k, m - 1));
                    proof {
                        let q = self.pending_saves@;
                        assert(q =~= p.update(i as int, (p[i as int].0, (n - 1) as usize)));
                        assert(pending_wf(q)) by {
                            assert forall|a: int, b: int| 0 <= a < b < q.len() implies #[trigger] q[a].0@ != #[trigger] q[b].0@ by {
                                assert(p[a].0@ != p[b].0@);
                            }
                        }
                        assert forall|key: Seq<char>| #[trigger] pending_count(q, key) == if key == id@ { (n - 1) as nat } else { pending_count(p, key) } by {
                            if key == id@ {
                                lemma_pending_count_at(q, i as int);
                            } else if exists|j: int| 0 <= j < p.len() && p[j].0@ == key {
                                let j = choose|j: int| 0 <= j < p.len() && p[j].0@ == key;
                                lemma_pending_count_at(p, j);
                                lemma_pending_count_at(q, j);
                            } else {
                                lemma_pending_absent(p, key);
                                lemma_pending_absent(q, key);
                            }
                        }
                        assert forall|j: int| 0 <= j < q.len() implies #[trigger] q[j].1 <= (if q[j].0@ == id@ { pending_count(p, id@) } else { pending_count(p, q[j].0@) }) by {
                            lemma_pending_count_at(p, j);
                        }
                    }
                    return n - 1;
                } else {
                    self.pending_saves.remove(i);
                    proof {
                        let q = self.pending_saves@;
                        assert(q =~= p.remove(i as int));
                        assert(pending_wf(q)) by {
                            assert forall|a: int, b: int| 0 <= a < b < q.len() implies #[trigger] q[a].0@ != #[trigger] q[b].0@ by {
                                let a2 = if a < i { a } else { a + 1 };
                                let b2 = if b < i { b } else { b + 1 };
                                assert(q[a] == p[a2] && q[b] == p[b2]);
                                assert(p[a2].0@ != p[b2].0@);
                            }
                        }
                        assert forall|key: Seq<char>| #[trigger] pending_count(q, key) == if key == id@ { 0nat } else { pending_count(p, key) } by {
                            if key == id@ {
                                assert forall|j: int| 0 <= j < q.len() implies #[trigger] q[j].0@ != key by {
                                    let j2 = if j < i { j } else { j + 1 };
                                    assert(q[j] == p[j2]);
                                    assert(p[j2].0@ != p[i as int].0@);
                                }
                                lemma_pending_absent(q, key);
                            } else if exists|j: int| 0 <= j < p.len() && p[j].0@ == key {
                                let j = choose|j: int| 0 <= j < p.len() && p[j].0@ == key;
                                lemma_pending_count_at(p, j);
                                let j2 = if j < i { j } else { j - 1 };
                                assert(q[j2] == p[j]);
                                lemma_pending_count_at(q, j2);
                            } else {
                                lemma_pending_absent(p, key);
                                lemma_pending_absent(q, key);
                            }
                        }
                        assert forall|j: int| 0 <= j < q.len() implies #[trigger] q[j].1 <= (if q[j].0@ == id@ { pending_count(p, id@) } else { pending_count(p, q[j].0@) }) by {
                            let j2 = if j < i { j } else { j + 1 };
                            assert(q[j] == p[j2]);
                            lemma_pending_count_at(p, j2);
                        }
                    }
                    return 0;
                }
            }
            i = i + 1;
        }
        proof {
            lemma_pending_absent(p, id@);
        }
        0
    }

    /// Puts `card` in place of the card at `(c, r)`.
    fn replace_card(&mut self, c: usize, r: usize, card: Card)
        requires
            c < old(self).columns.len(),
            r < old(self).columns@[c as int].cards.len(),
        ensures
            column_now(
                old(self).columns@,
                final(self).columns@,
                c as int,
                old(self).columns@[c as int].cards@.update(r as int, card),
                old(self).columns@[c as int].selected,
            ),
            *final(self) == (App { columns: final(self).columns, ..*old(self) }),
    {
        let _old = self.remove_card(c, r);
        self.insert_card(c, r, card);
        assert(self.columns@[c as int].cards@ =~= old(self).columns@[c as int].cards@.update(r as int, card));
    }

    pub fn handle(&mut self, msg: Msg)
        requires
            old(self).wf(),
        ensures
            final(self).wf(),
            handled(*old(self), *final(self), msg),
    {
        self.inflight = self.inflight.saturating_sub(1);
        match msg {
            Msg::Boards(Ok(boards)) => {
                let sel = match self.picker {
                    Some(r) => r,
                    None => 0,
                };
                self.boards = boards;
                self.boards_loaded = true;
                let n = self.boards.len();
                self.picker = if n == 0 {
                    None
                } else {
                    Some(if sel < n - 1 { sel } else { n - 1 })
                };
                let wanted = self.default_board.take();
                if let Some(name) = wanted {
                    let lname = to_lowercase(name.as_str());
                    let mut i: usize = 0;
                    let mut found: Option<usize> = None;
                    while i < self.boards.len() && found.is_none()
                        invariant
                            i <= self.boards.len(),
                            lname@ == lowercase(name@),
                            forall|j: int| 0 <= j < i ==> lowercase(#[trigger] self.boards@[j].name@) != lname@,
                            found matches Some(k) ==> k == i && i < self.boards.len() && lowercase(self.boards@[k as int].name@) == lname@,
                        decreases self.boards.len() - i + (if found is Some { 0int } else { 1int }),
                    {
                        if to_lowercase(self.boards[i].name.as_str()) == lname {
                            found = Some(i);
                        } else {
                            i = i + 1;
                        }
                    }
                    match found {
                        Some(k) => {
                            proof {
                                assert(is_first_named(self.boards@, lname@, k as int));
                                let kk = choose|kk: int| is_first_named(self.boards@, lname@, kk);
                                assert(kk == k as int) by {
                                    if kk < k {
                                        assert(lowercase(self.boards@[kk].name@) != lname@);
                                    } else if (k as int) < kk {
                                        assert(lowercase(self.boards@[k as int].name@) != lname@);
                                    }
                                }
                            }
                            let b = self.boards[k].clone();
                            self.open_board(b);
                        },
                        None => {
                            let mut msg = String::from_str("default_board '");
                            msg.append(lname.as_str());
                            msg.append("' not found");
                            self.error(msg);
                        },
                    }
                }
            },
            Msg::Boards(Err(e)) => {
                self.boards_loaded = true;
                let mut msg = String::from_str("Loading boards failed: ");
                msg.append(e.as_str());
                self.error(msg);
            },
            Msg::BoardData { board_id, result } => {
                let same = match &self.board {
                    Some(b) => b.id == board_id,
                    None => false,
                };
                if !same {
                    return;
                }
                self.board_loading = false;
                match result {
                    Ok((lists, cards)) => self.set_board_data(lists, cards),
                    Err(e) => {
                        let mut msg = String::from_str("Loading board failed: ");
                        msg.append(e.as_str());
                        self.error(msg);
                    },
                }
            },
            Msg::CardCreated { temp_id, result } => {
                let found = self.find_card(temp_id.as_str());
                match result {
                    Ok(card) => {
                        if let Some((c, r)) = found {
                            self.replace_card(c, r, card);
                            proof {
                                assert(column_wf(old(self).columns@[c as int]));
                                lemma_column_now_wf(old(self).columns@, self.columns@, c as int, self.columns@[c as int].cards@, old(self).columns@[c as int].selected);
                            }
                        }
                    },
                    Err(e) => {
                        if let Some((c, r)) = found {
                            let _gone = self.remove_card(c, r);
                            self.clamp_selection(c);
                            proof {
                                lemma_column_now_wf(old(self).columns@, self.columns@, c as int, self.columns@[c as int].cards@, self.columns@[c as int].selected);
                            }
                        }
                        let mut msg = String::from_str("Creating card failed: ");
                        msg.append(e.as_str());
                        self.error(msg);
                    },
                }
            },
            Msg::CardSaved { card_id, result } => {
                let remaining = self.settle_pending(&card_id);
                match result {
                    Ok(card) => {
                        if remaining == 0 && !card.closed {
                            if let Some((c, r)) = self.find_card(card.id.as_str()) {
                                self.replace_card(c, r, card);
                                proof {
                                    assert(column_wf(old(self).columns@[c as int]));
                                    lemma_column_now_wf(old(self).columns@, self.columns@, c as int, self.columns@[c as int].cards@, old(self).columns@[c as int].selected);
                                }
                            }
                        }
                    },
                    Err(e) => {
                        let mut msg = String::from_str("Saving failed, reloaded board: ");
                        msg.append(e.as_str());
                        self.error(msg);
                        self.reload_board();
                    },
                }
            },
        }
    }

    pub fn open_board(&mut self, board: Board)
        requires
            old(self).wf(),
            old(self).inflight < usize::MAX,
        ensures
            final(self).wf(),
            board_opened(*old(self), *final(self), board),
    {
        self.screen = Screen::Board;
        self.overlay = Overlay::Hidden;
        let same = match &self.board {
            Some(b) => b.id == board.id,
            None => false,
        };
        if same && self.columns.len() > 0 {
            return;
        }
        self.columns = Vec::new();
        self.col = 0;
        self.col_offset = 0;
        self.last_archived = None;
        self.board = Some(board);
        self.reload_board();
    }

    pub fn load_boards(&mut self)
        requires
            old(self).inflight < usize::MAX,
        ensures
            old(self).wf() ==> final(self).wf(),
            boards_requested(*old(self), *final(self)),
    {
        self.inflight = self.inflight + 1;
        self.effects.push(Effect::LoadBoards);
    }

    pub fn reload_board(&mut self)
        requires
            old(self).inflight < usize::MAX,
        ensures
            old(self).wf() ==> final(self).wf(),
            reloaded(*old(self), *final(self)),
    {
        let board_id = match &self.board {
            Some(b) => b.id.clone(),
            None => return,
        };
        self.board_loading = true;
        self.inflight = self.inflight + 1;
        self.effects.push(Effect::LoadBoard { board_id });
        assert(self.effects@.subrange(0, old(self).effects@.len() as int) =~= old(self).effects@);
    }
}

} // verus!
