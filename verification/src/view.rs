//! What the screen shows, as values: which lists fit on the board, the colors of labels and
//! the pieces of the status line. Drawing them is left to the program around the library.
use vstd::prelude::*;
use vstd::string::*;

use crate::app::{App, Overlay, PromptKind, Screen};
use crate::keys::display_spec;
use crate::model::Label;
use crate::text::{
    before_char, chars_of, contains, find_from, has_infix, lemma_first_occurrence_bounds, lowercase,
    push_char, slice_chars, string_of, to_lowercase,
};

verus! {

/// The lists drawn on the board: columns `start..end`, the focused one `wide` cells wide and
/// the others `width` cells wide.
#[derive(Debug, Clone, Copy, PartialEq, Eq, Structural)]
pub struct ColumnWindow {
    pub start: usize,
    pub end: usize,
    pub width: u16,
    pub wide: u16,
}

/// The width of an unfocused list: the configured width, within the screen, at least one.
pub open spec fn list_width(column_width: u16, area: u16) -> int {
    let w = if column_width < area { column_width as int } else { area as int };
    if w < 1 { 1 } else { w }
}

/// How many lists fit: the focused one at double width, the rest at `list_width`.
pub open spec fn visible_lists(column_width: u16, area: u16) -> int {
    let width = list_width(column_width, area);
    let wide = if 2 * width < area { 2 * width } else { area as int };
    1 + (area - wide) / width
}

/// The first list shown, once the window has been moved to show the focused list `col`.
pub open spec fn window_start(offset: int, col: int, visible: int, len: int) -> int {
    let o = if col < offset {
        col
    } else if col >= offset + visible {
        col + 1 - visible
    } else {
        offset
    };
    let most = if len > visible { len - visible } else { 0 };
    if o < most { o } else { most }
}

/// What fitting the board into `area_width` x `area_height` cells does: the focused list is
/// brought into range, the window moved to show it, and the half-page step set from the height.
pub open spec fn fitted(a: App, n: App, area_width: u16, area_height: u16, r: Option<ColumnWindow>) -> bool {
    let len = a.columns.len() as int;
    if len == 0 {
        n == a && r is None
    } else {
        let width = list_width(a.column_width, area_width);
        let visible = visible_lists(a.column_width, area_width);
        let col = if a.col < len - 1 { a.col as int } else { len - 1 };
        let start = window_start(a.col_offset as int, col, visible, len);
        let end = if start + visible < len { start + visible } else { len };
        let wide2 = if 2 * width < area_width { 2 * width } else { area_width as int };
        let wide = if len > visible { area_width - (visible - 1) * width } else { wide2 };
        let h = if area_height >= 2 { area_height - 2 } else { 0 };
        let half = if h / 2 < 1 { 1 } else { h / 2 };
        &&& n == App { col: col as usize, col_offset: start as usize, half_page: half as usize, ..a }
        &&& r == Some(ColumnWindow { start: start as usize, end: end as usize, width: width as u16, wide: wide as u16 })
    }
}

impl App {
    /// Fits the board into an area of `area_width` x `area_height` cells before it is drawn:
    /// brings the focused list into range, scrolls the window of lists to show it, and sets
    /// the half-page step. `None` when the board has no lists.
    pub fn fit_columns(&mut self, area_width: u16, area_height: u16) -> (r: Option<ColumnWindow>)
        requires
            old(self).wf(),
            old(self).columns.len() > 0 && old(self).col >= old(self).col_offset ==> old(self).col_offset
                + visible_lists(old(self).column_width, area_width) <= usize::MAX,
        ensures
            final(self).wf(),
            fitted(*old(self), *final(self), area_width, area_height, r),
    {
        let len = self.columns.len();
        if len == 0 {
            return None;
        }
        let cw = if self.column_width < area_width { self.column_width } else { area_width };
        let width: u16 = if cw < 1 { 1 } else { cw };
        let twice: u32 = 2 * (width as u32);
        let wide: u16 = if twice < area_width as u32 { 2 * width } else { area_width };
        let visible: usize = 1 + ((area_width - wide) / width) as usize;
        assert(visible == visible_lists(self.column_width, area_width));
        assert(visible <= 65536);
        if self.col > len - 1 {
            self.col = len - 1;
        }
        if self.col < self.col_offset {
            self.col_offset = self.col;
        } else if self.col >= self.col_offset + visible {
            self.col_offset = self.col + 1 - visible;
        }
        let most = if len > visible { len - visible } else { 0 };
        if self.col_offset > most {
            self.col_offset = most;
        }
        let start = self.col_offset;
        let end = if start + visible < len { start + visible } else { len };
        let h: u16 = if area_height >= 2 { area_height - 2 } else { 0 };
        self.half_page = if h / 2 < 1 { 1 } else { (h / 2) as usize };
        let shown_wide: u16 = if len > visible {
            let k: u16 = (visible - 1) as u16;
            assert((visible - 1) * width <= area_width - wide) by (nonlinear_arith)
                requires
                    visible - 1 == (area_width - wide) / (width as int),
                    width >= 1,
                    area_width >= wide,
            ;
            assert(k * width <= area_width) by (nonlinear_arith)
                requires
                    k == visible - 1,
                    (visible - 1) * width <= area_width - wide,
                    wide >= 0,
            ;
            area_width - k * width
        } else {
            wide
        };
        Some(ColumnWindow { start, end, width, wide: shown_wide })
    }
}

/// The terminal colors that Trello's label colors are drawn in.
#[derive(Debug, Clone, Copy, PartialEq, Eq, Structural)]
pub enum TermColor {
    Green,
    Yellow,
    /// Orange, drawn as RGB (255, 159, 26).
    Orange,
    Red,
    Magenta,
    Blue,
    Cyan,
    LightGreen,
    LightMagenta,
    DarkGray,
    Gray,
}

/// The terminal color of a Trello color name; shades such as `red_dark` go by the part
/// before `_`, and an unknown or missing color is gray.
pub open spec fn label_color_spec(color: Option<Seq<char>>) -> TermColor {
    let base = match color {
        Some(c) => before_char(c, '_'),
        None => Seq::empty(),
    };
    if base == "green"@ {
        TermColor::Green
    } else if base == "yellow"@ {
        TermColor::Yellow
    } else if base == "orange"@ {
        TermColor::Orange
    } else if base == "red"@ {
        TermColor::Red
    } else if base == "purple"@ {
        TermColor::Magenta
    } else if base == "blue"@ {
        TermColor::Blue
    } else if base == "sky"@ {
        TermColor::Cyan
    } else if base == "lime"@ {
        TermColor::LightGreen
    } else if base == "pink"@ {
        TermColor::LightMagenta
    } else if base == "black"@ {
        TermColor::DarkGray
    } else {
        TermColor::Gray
    }
}

/// Terminal color for a Trello label color like `"green"` or `"red_dark"`.
pub fn label_color(color: Option<&str>) -> (r: TermColor)
    ensures
        r == label_color_spec(match color {
            Some(c) => Some(c@),
            None => None,
        }),
{
    let base = match color {
        Some(c) => {
            let v = chars_of(c);
            let mut us: Vec<char> = Vec::new();
            us.push('_');
            assert(us@ =~= seq!['_']);
            match find_from(v.as_slice(), us.as_slice(), 0) {
                Some(k) => {
                    proof {
                        lemma_first_occurrence_bounds(v@, seq!['_'], 0);
                    }
                    string_of(slice_chars(v.as_slice(), 0, k).as_slice())
                },
                None => string_of(v.as_slice()),
            }
        },
        None => String::new(),
    };
    if base == String::from_str("green") {
        TermColor::Green
    } else if base == String::from_str("yellow") {
        TermColor::Yellow
    } else if base == String::from_str("orange") {
        TermColor::Orange
    } else if base == String::from_str("red") {
        TermColor::Red
    } else if base == String::from_str("purple") {
        TermColor::Magenta
    } else if base == String::from_str("blue") {
        TermColor::Blue
    } else if base == String::from_str("sky") {
        TermColor::Cyan
    } else if base == String::from_str("lime") {
        TermColor::LightGreen
    } else if base == String::from_str("pink") {
        TermColor::LightMagenta
    } else if base == String::from_str("black") {
        TermColor::DarkGray
    } else {
        TermColor::Gray
    }
}

/// What the prompt's prefix says: `:`, `/`, or what the input is for.
pub open spec fn prefix_spec(a: App) -> Option<Seq<char>> {
    match a.prompt {
        None => None,
        Some(PromptKind::Command) => Some(":"@),
        Some(PromptKind::Search) => Some("/"@),
        Some(PromptKind::NewCard { col, .. }) => Some(" New card in "@ + (if col < a.columns.len() {
            a.columns@[col as int].list.name@
        } else {
            Seq::empty()
        }) + ": "@),
        Some(PromptKind::Rename { .. }) => Some(" Rename: "@),
    }
}

impl App {
    /// The text before the prompt's input, while a prompt is open.
    pub fn prompt_prefix(&self) -> (r: Option<String>)
        ensures
            match r {
                Some(s) => prefix_spec(*self) == Some(s@),
                None => prefix_spec(*self) is None,
            },
    {
        match &self.prompt {
            None => None,
            Some(PromptKind::Command) => Some(String::from_str(":")),
            Some(PromptKind::Search) => Some(String::from_str("/")),
            Some(PromptKind::NewCard { col, .. }) => {
                let mut s = String::from_str(" New card in ");
                if *col < self.columns.len() {
                    s.append(self.columns[*col].list.name.as_str());
                }
                s.append(": ");
                Some(s)
            },
            Some(PromptKind::Rename { .. }) => Some(String::from_str(" Rename: ")),
        }
    }

    /// Whether the description editor is open in insert mode; the status line then shows
    /// INSERT rather than NORMAL.
    pub fn inserting(&self) -> (b: bool)
        ensures
            b == (self.overlay is Desc && self.overlay->Desc_0.insert),
    {
        match &self.overlay {
            Overlay::Desc(ed) => ed.insert,
            _ => false,
        }
    }

    /// Where the user is: the open board's name on the board screen, else `Boards`.
    pub fn location(&self) -> (s: String)
        ensures
            s@ == if self.screen == Screen::Board && self.board is Some {
                self.board->0.name@
            } else {
                "Boards"@
            },
    {
        match (self.screen, &self.board) {
            (Screen::Board, Some(b)) => b.name.clone(),
            _ => String::from_str("Boards"),
        }
    }

    /// The right end of the status line: the keys typed so far, a mark while requests are in
    /// flight, and the hint for help.
    pub fn status_right(&self) -> (s: String)
        ensures
            s@ == display_spec(self.keys@) + (if self.inflight > 0 { " ⟳"@ } else { Seq::empty() })
                + "  ? help "@,
    {
        let mut s = self.keys.pending_display();
        if self.inflight > 0 {
            s.append(" ⟳");
        }
        s.append("  ? help ");
        s
    }
}

/// Whether the search `search`, held in lower case, highlights the name `name`.
pub fn search_hit(name: &str, search: Option<&str>) -> (b: bool)
    ensures
        b == (search is Some && has_infix(lowercase(name@), search->0@)),
{
    match search {
        Some(q) => contains(to_lowercase(name).as_str(), q),
        None => false,
    }
}

/// The labels that have a color.
pub open spec fn colored(labels: Seq<Label>) -> Seq<Label> {
    labels.filter(|l: Label| l.color is Some)
}

/// The color of a label as the board draws it.
pub open spec fn dot_color(l: Label) -> TermColor {
    label_color_spec(match l.color {
        Some(c) => Some(c@),
        None => None,
    })
}

/// The dots drawn before a card's name: the colors of its first four labels that have one.
pub open spec fn dots_spec(labels: Seq<Label>) -> Seq<TermColor> {
    let c = colored(labels);
    c.take(if c.len() < 4 { c.len() as int } else { 4 }).map_values(|l: Label| dot_color(l))
}

/// The colors of the dots drawn before a card's name.
pub fn label_dots(labels: &Vec<Label>) -> (r: Vec<TermColor>)
    ensures
        r@ == dots_spec(labels@),
{
    let mut r: Vec<TermColor> = Vec::new();
    let mut i: usize = 0;
    while i < labels.len() && r.len() < 4
        invariant
            i <= labels.len(),
            r@.len() <= 4,
            r@.len() == colored(labels@.subrange(0, i as int)).len(),
            r@ == colored(labels@.subrange(0, i as int)).map_values(|l: Label| dot_color(l)),
        decreases labels.len() - i,
    {
        let l = &labels[i];
        proof {
            reveal(Seq::filter);
            assert(labels@.subrange(0, i + 1).drop_last() =~= labels@.subrange(0, i as int));
        }
        match &l.color {
            Some(c) => {
                let t = label_color(Some(c.as_str()));
                r.push(t);
                proof {
                    let before = colored(labels@.subrange(0, i as int));
                    assert(colored(labels@.subrange(0, i + 1)) == before.push(*l));
                    assert(r@ =~= before.push(*l).map_values(|x: Label| dot_color(x)));
                }
            },
            None => {
                proof {
                    assert(colored(labels@.subrange(0, i + 1)) == colored(labels@.subrange(0, i as int)));
                }
            },
        }
        i = i + 1;
    }
    proof {
        let c = colored(labels@);
        let ci = colored(labels@.subrange(0, i as int));
        lemma_colored_prefix(labels@, i as int);
        if r@.len() < 4 {
            assert(i == labels.len());
            assert(labels@.subrange(0, i as int) =~= labels@);
        }
        assert(ci.len() <= c.len());
        assert(c.take(r@.len() as int) =~= ci);
    }
    r
}

/// The labels with a color among the first `i` are a prefix of those among all of them.
proof fn lemma_colored_prefix(labels: Seq<Label>, i: int)
    requires
        0 <= i <= labels.len(),
    ensures
        colored(labels.subrange(0, i)).len() <= colored(labels).len(),
        colored(labels).take(colored(labels.subrange(0, i)).len() as int) == colored(labels.subrange(0, i)),
{
    broadcast use Seq::filter_distributes_over_add;

    let a = labels.subrange(0, i);
    let b = labels.subrange(i, labels.len() as int);
    assert(labels =~= a + b);
    let p = |l: Label| l.color is Some;
    assert(colored(labels) == a.filter(p) + b.filter(p));
    assert((a.filter(p) + b.filter(p)).take(a.filter(p).len() as int) =~= a.filter(p));
}

/// The text a label shows in the card details: its name, or its color when it has no name.
pub fn label_text(l: &Label) -> (s: String)
    ensures
        s@ == if l.name@.len() > 0 {
            l.name@
        } else {
            match l.color {
                Some(c) => c@,
                None => Seq::empty(),
            }
        },
{
    if l.name.unicode_len() > 0 {
        l.name.clone()
    } else {
        match &l.color {
            Some(c) => c.clone(),
            None => String::new(),
        }
    }
}

/// Fitting the board always shows the focused list: it lies in the window of lists drawn,
/// the window starts no further right than needed to fill the screen, the half-page step is
/// at least one row, and the lists themselves do not change.
pub proof fn law_window_shows_focus(a: App, n: App, area_width: u16, area_height: u16, r: Option<ColumnWindow>)
    requires
        a.wf(),
        a.columns.len() > 0,
        fitted(a, n, area_width, area_height, r),
    ensures
        ({
            let len = a.columns.len() as int;
            let visible = visible_lists(a.column_width, area_width);
            &&& n.col as int == (if a.col < len - 1 { a.col as int } else { len - 1 })
            &&& n.col_offset <= n.col
            &&& n.col < n.col_offset + visible
            &&& n.col_offset <= (if len > visible { len - visible } else { 0 })
            &&& r matches Some(win) && win.start == n.col_offset && win.start <= n.col < win.end
                && win.end <= len
            &&& n.half_page >= 1
            &&& n.half_page as int == ({
                let h = if area_height >= 2 { area_height - 2 } else { 0 };
                if h / 2 < 1 { 1 } else { h / 2 }
            })
            &&& n.columns == a.columns
        }),
{
    let width = list_width(a.column_width, area_width);
    let wide = if 2 * width < area_width { 2 * width } else { area_width as int };
    assert(width >= 1);
    assert((area_width - wide) / width >= 0) by (nonlinear_arith)
        requires
            area_width - wide >= 0,
            width >= 1,
    ;
}

/// `s` with each `T` shown as a space.
pub open spec fn t_as_space(s: Seq<char>) -> Seq<char> {
    s.map_values(|c: char| if c == 'T' { ' ' } else { c })
}

/// How many bytes UTF-8 takes for `c`.
pub open spec fn utf8_width(c: char) -> nat {
    if (c as u32) < 0x80 {
        1
    } else if (c as u32) < 0x800 {
        2
    } else if (c as u32) < 0x10000 {
        3
    } else {
        4
    }
}

/// How many bytes UTF-8 takes for `s`.
pub open spec fn utf8_len(s: Seq<char>) -> nat
    decreases s.len(),
{
    if s.len() == 0 {
        0
    } else {
        utf8_len(s.drop_last()) + utf8_width(s.last())
    }
}

/// The first `k` characters of `s` take exactly `b` bytes: byte offset `b` falls between
/// characters.
pub open spec fn is_boundary_at(s: Seq<char>, b: nat, k: int) -> bool {
    0 <= k <= s.len() && utf8_len(s.take(k)) == b
}

/// How many characters come before byte offset `b` of `s`, when `b` falls between characters.
pub open spec fn chars_before(s: Seq<char>, b: nat) -> Option<int> {
    if exists|k: int| is_boundary_at(s, b, k) {
        Some(choose|k: int| is_boundary_at(s, b, k))
    } else {
        None
    }
}

/// What `str::get(from..to)` gives for the string `s`: the characters between two byte
/// offsets, when both fall between characters and are in order.
pub open spec fn byte_slice(s: Seq<char>, from: nat, to: nat) -> Option<Seq<char>> {
    match (chars_before(s, from), chars_before(s, to)) {
        (Some(i), Some(j)) => if i <= j { Some(s.subrange(i, j)) } else { None },
        _ => None,
    }
}

proof fn lemma_utf8_step(s: Seq<char>, k: int)
    requires
        0 <= k < s.len(),
    ensures
        utf8_len(s.take(k + 1)) == utf8_len(s.take(k)) + utf8_width(s[k]),
{
    assert(s.take(k + 1).drop_last() =~= s.take(k));
}

/// Longer prefixes take more bytes.
proof fn lemma_utf8_grows(s: Seq<char>, j: int, k: int)
    requires
        0 <= j < k <= s.len(),
    ensures
        utf8_len(s.take(j)) < utf8_len(s.take(k)),
    decreases k - j,
{
    lemma_utf8_step(s, k - 1);
    if j < k - 1 {
        lemma_utf8_grows(s, j, k - 1);
    }
}

proof fn lemma_chars_before(s: Seq<char>, b: nat, k: int)
    requires
        is_boundary_at(s, b, k),
    ensures
        chars_before(s, b) == Some(k),
{
    let m = choose|m: int| is_boundary_at(s, b, m);
    if m < k {
        lemma_utf8_grows(s, m, k);
    } else if k < m {
        lemma_utf8_grows(s, k, m);
    }
}

/// How many characters of `v` come before byte offset `b`, if it falls between characters.
fn chars_before_byte(v: &Vec<char>, b: usize) -> (r: Option<usize>)
    requires
        b <= 16,
    ensures
        match r {
            Some(k) => chars_before(v@, b as nat) == Some(k as int) && k <= v@.len(),
            None => chars_before(v@, b as nat) is None,
        },
{
    let mut i: usize = 0;
    let mut acc: usize = 0;
    assert(v@.take(0) =~= Seq::<char>::empty());
    while i < v.len() && acc < b
        invariant
            i <= v.len(),
            b <= 16,
            acc == utf8_len(v@.take(i as int)),
            acc <= b + 4,
            forall|j: int| 0 <= j < i ==> #[trigger] utf8_len(v@.take(j)) < b,
        decreases v.len() - i,
    {
        let u = v[i] as u32;
        let w: usize = if u < 0x80 {
            1
        } else if u < 0x800 {
            2
        } else if u < 0x10000 {
            3
        } else {
            4
        };
        proof {
            lemma_utf8_step(v@, i as int);
        }
        acc = acc + w;
        i = i + 1;
    }
    if acc == b {
        proof {
            lemma_chars_before(v@, b as nat, i as int);
        }
        Some(i)
    } else {
        proof {
            if exists|k: int| is_boundary_at(v@, b as nat, k) {
                let k = choose|k: int| is_boundary_at(v@, b as nat, k);
                if i < k {
                    lemma_utf8_grows(v@, i as int, k);
                }
            }
        }
        None
    }
}

proof fn lemma_start_boundary(s: Seq<char>)
    ensures
        chars_before(s, 0) == Some(0int),
{
    assert(s.take(0) =~= Seq::<char>::empty());
    lemma_chars_before(s, 0, 0);
}

/// The due time the card details show: the timestamp's first 16 bytes (date, hour and
/// minute), or all of it where byte 16 is not a character boundary within it, with `T` shown
/// as a space, then ` UTC`.
pub open spec fn due_when_spec(due: Seq<char>) -> Seq<char> {
    t_as_space(
        match byte_slice(due, 0, 16) {
            Some(h) => h,
            None => due,
        },
    ) + " UTC"@
}

/// The due time as the card details show it.
pub fn due_when(due: &str) -> (s: String)
    ensures
        s@ == due_when_spec(due@),
{
    let v = chars_of(due);
    proof {
        lemma_start_boundary(v@);
    }
    let n = match chars_before_byte(&v, 16) {
        Some(k) => k,
        None => v.len(),
    };
    let mut s = String::new();
    let mut i: usize = 0;
    while i < n
        invariant
            n <= v.len(),
            i <= n,
            s@ == t_as_space(v@.subrange(0, i as int)),
        decreases n - i,
    {
        let c = if v[i] == 'T' { ' ' } else { v[i] };
        push_char(&mut s, c);
        i = i + 1;
        assert(s@ =~= t_as_space(v@.subrange(0, i as int)));
    }
    proof {
        if byte_slice(v@, 0, 16) is None {
            assert(v@.subrange(0, n as int) =~= v@);
        }
    }
    s.append(" UTC");
    s
}

/// The due date a card shows on the board: bytes 5 to 10 of the timestamp (`MM-DD`), or all
/// of it where those are not character boundaries within it.
pub open spec fn due_day_spec(due: Seq<char>) -> Seq<char> {
    match byte_slice(due, 5, 10) {
        Some(d) => d,
        None => due,
    }
}

/// The due date as a card on the board shows it.
pub fn due_day(due: &str) -> (s: String)
    ensures
        s@ == due_day_spec(due@),
{
    let v = chars_of(due);
    match (chars_before_byte(&v, 5), chars_before_byte(&v, 10)) {
        (Some(i), Some(j)) => {
            if i <= j {
                string_of(slice_chars(v.as_slice(), i, j).as_slice())
            } else {
                String::from_str(due)
            }
        },
        _ => String::from_str(due),
    }
}

} // verus!
