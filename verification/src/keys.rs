//! Normal-mode key parser: counts (`5j`), two-key sequences (`gg`, `dd`, `cw`).
use vstd::prelude::*;

use crate::text::{decimal, digit_value, push_char, push_decimal, to_digit};

verus! {

/// The key of a key press, as far as the client tells keys apart.
#[derive(Debug, Clone, Copy, PartialEq, Eq, Structural)]
pub enum KeyCode {
    Char(char),
    Esc,
    Enter,
    Backspace,
    Left,
    Right,
    Up,
    Down,
    Home,
    End,
    /// Any other key (function keys, Tab, ...).
    Other,
}

/// A key press: the key and whether Control was held.
#[derive(Debug, Clone, Copy, PartialEq, Eq, Structural)]
pub struct Key {
    pub code: KeyCode,
    pub ctrl: bool,
}

impl Key {
    /// A key pressed without Control.
    pub fn plain(code: KeyCode) -> (k: Key)
        ensures
            k == (Key { code, ctrl: false }),
    {
        Key { code, ctrl: false }
    }

    /// A key pressed with Control.
    pub fn ctrl(code: KeyCode) -> (k: Key)
        ensures
            k == (Key { code, ctrl: true }),
    {
        Key { code, ctrl: true }
    }
}

#[derive(Debug, Clone, Copy, PartialEq, Eq, Structural)]
pub enum Action {
    Left(usize),
    Right(usize),
    Down(usize),
    Up(usize),
    Top,
    /// `G` jumps to the last card, `5G` to the 5th.
    Goto(Option<usize>),
    HalfPageDown,
    HalfPageUp,
    Open,
    /// `Esc`: close / go back.
    Back,
    /// `q`: like `Back`, but quits from the board picker.
    Close,
    Quit,
    NewBelow,
    NewAbove,
    /// `r`: edit the card name.
    Rename,
    /// `cw` / `cc`: replace the card name.
    Change,
    EditDesc,
    Archive,
    Undo,
    MoveLeft,
    MoveRight,
    MoveDown(usize),
    MoveUp(usize),
    Search,
    NextMatch,
    PrevMatch,
    Command,
    Help,
    Refresh,
}

/// The largest count a prefix can hold.
pub const MAX_COUNT: usize = 99_999;

/// The parser's state: the count typed so far and the first key of a two-key sequence.
pub struct KeyParser {
    count: Option<usize>,
    pending: Option<char>,
}

/// The abstract state of a parser: `(count, pending)`.
pub type ParserView = (Option<usize>, Option<char>);

impl View for KeyParser {
    type V = ParserView;

    closed spec fn view(&self) -> ParserView {
        (self.count, self.pending)
    }
}

/// Nothing typed that is still waiting for more keys.
pub open spec fn idle() -> ParserView {
    (None, None)
}

/// A parser state that the parser can reach: a count never exceeds `MAX_COUNT`, and
/// a count never starts with a zero.
pub open spec fn parser_wf(s: ParserView) -> bool {
    s.0 matches Some(n) ==> 1 <= n <= MAX_COUNT
}

/// The action of a key with Control held.
pub open spec fn ctrl_action(code: KeyCode) -> Option<Action> {
    match code {
        KeyCode::Char('d') => Some(Action::HalfPageDown),
        KeyCode::Char('u') => Some(Action::HalfPageUp),
        KeyCode::Char('c') => Some(Action::Quit),
        KeyCode::Char('r') => Some(Action::Refresh),
        _ => None,
    }
}

/// The action of a key that is not a character, repeated `n` times where that means something.
pub open spec fn special_action(code: KeyCode, n: usize) -> Option<Action> {
    match code {
        KeyCode::Enter => Some(Action::Open),
        KeyCode::Left => Some(Action::Left(n)),
        KeyCode::Right => Some(Action::Right(n)),
        KeyCode::Down => Some(Action::Down(n)),
        KeyCode::Up => Some(Action::Up(n)),
        _ => None,
    }
}

/// The action that completes a two-key sequence starting with `first`.
pub open spec fn sequence_action(first: char, second: char) -> Option<Action> {
    if first == 'g' && second == 'g' {
        Some(Action::Top)
    } else if first == 'd' && second == 'd' {
        Some(Action::Archive)
    } else if first == 'c' && (second == 'w' || second == 'c') {
        Some(Action::Change)
    } else {
        None
    }
}

/// The action of a single character key after the count `count`.
pub open spec fn char_action(c: char, count: Option<usize>) -> Option<Action> {
    let n = match count {
        Some(k) => k,
        None => 1usize,
    };
    if c == 'h' { Some(Action::Left(n)) }
    else if c == 'l' { Some(Action::Right(n)) }
    else if c == 'j' { Some(Action::Down(n)) }
    else if c == 'k' { Some(Action::Up(n)) }
    else if c == 'G' { Some(Action::Goto(count)) }
    else if c == 'H' { Some(Action::MoveLeft) }
    else if c == 'L' { Some(Action::MoveRight) }
    else if c == 'J' { Some(Action::MoveDown(n)) }
    else if c == 'K' { Some(Action::MoveUp(n)) }
    else if c == 'o' { Some(Action::NewBelow) }
    else if c == 'O' { Some(Action::NewAbove) }
    else if c == 'r' { Some(Action::Rename) }
    else if c == 'e' { Some(Action::EditDesc) }
    else if c == 'u' { Some(Action::Undo) }
    else if c == '/' { Some(Action::Search) }
    else if c == 'n' { Some(Action::NextMatch) }
    else if c == 'N' { Some(Action::PrevMatch) }
    else if c == ':' { Some(Action::Command) }
    else if c == '?' { Some(Action::Help) }
    else if c == 'q' { Some(Action::Close) }
    else if c == 'R' { Some(Action::Refresh) }
    else { None }
}

/// The count after typing digit `d` with count `count`, capped at `MAX_COUNT`.
pub open spec fn extend_count(count: Option<usize>, d: nat) -> usize {
    let v = match count {
        Some(k) => k * 10 + d,
        None => d as int,
    };
    if v < MAX_COUNT { v as usize } else { MAX_COUNT }
}

/// One key press: the parser's next state and the action, if the key completes one.
pub open spec fn feed_spec(s: ParserView, key: Key) -> (ParserView, Option<Action>) {
    let (count, pending) = s;
    if key.code == KeyCode::Esc {
        (idle(), if count is None && pending is None { Some(Action::Back) } else { None })
    } else if key.ctrl {
        (idle(), ctrl_action(key.code))
    } else {
        match key.code {
            KeyCode::Char(c) => {
                if pending is Some {
                    (idle(), sequence_action(pending->0, c))
                } else if digit_value(c) is Some && (digit_value(c)->0 != 0 || count is Some) {
                    ((Some(extend_count(count, digit_value(c)->0)), None), None)
                } else if c == 'g' || c == 'd' || c == 'c' {
                    ((count, Some(c)), None)
                } else {
                    (idle(), char_action(c, count))
                }
            },
            _ => {
                let n = match count {
                    Some(k) => k,
                    None => 1usize,
                };
                (idle(), special_action(key.code, n))
            },
        }
    }
}

/// What `pending_display` shows for a parser state.
pub open spec fn display_spec(s: ParserView) -> Seq<char> {
    let digits = match s.0 {
        Some(n) => decimal(n as nat),
        None => Seq::<char>::empty(),
    };
    match s.1 {
        Some(p) => digits.push(p),
        None => digits,
    }
}

impl Default for KeyParser {
    fn default() -> (p: Self)
        ensures
            p@ == idle(),
            p.wf(),
    {
        KeyParser { count: None, pending: None }
    }
}

impl KeyParser {
    /// Every state of a parser satisfies `parser_wf`.
    pub closed spec fn wf(&self) -> bool {
        parser_wf(self@)
    }

    pub proof fn lemma_wf(&self)
        requires
            self.wf(),
        ensures
            parser_wf(self@),
    {
    }

    pub fn new() -> (p: Self)
        ensures
            p@ == idle(),
            p.wf(),
    {
        KeyParser { count: None, pending: None }
    }

    pub fn reset(&mut self)
        ensures
            final(self)@ == idle(),
            final(self).wf(),
    {
        self.count = None;
        self.pending = None;
    }

    /// Keys typed so far that haven't resolved to an action (vim's `showcmd`).
    pub fn pending_display(&self) -> (s: String)
        ensures
            s@ == display_spec(self@),
    {
        let mut s = String::new();
        if let Some(c) = self.count {
            push_decimal(&mut s, c as u64);
        }
        if let Some(p) = self.pending {
            push_char(&mut s, p);
        }
        assert(s@ =~= display_spec(self@));
        s
    }

    pub fn feed(&mut self, key: Key) -> (a: Option<Action>)
        requires
            old(self).wf(),
        ensures
            (final(self)@, a) == feed_spec(old(self)@, key),
            final(self).wf(),
    {
        if key.code == KeyCode::Esc {
            let had_pending = self.count.is_some() || self.pending.is_some();
            self.reset();
            return if had_pending { None } else { Some(Action::Back) };
        }
        if key.ctrl {
            self.reset();
            return match key.code {
                KeyCode::Char('d') => Some(Action::HalfPageDown),
                KeyCode::Char('u') => Some(Action::HalfPageUp),
                KeyCode::Char('c') => Some(Action::Quit),
                KeyCode::Char('r') => Some(Action::Refresh),
                _ => None,
            };
        }
        let c = match key.code {
            KeyCode::Char(c) => c,
            other => {
                let n = match self.count {
                    Some(k) => k,
                    None => 1,
                };
                self.count = None;
                self.pending = None;
                return match other {
                    KeyCode::Enter => Some(Action::Open),
                    KeyCode::Left => Some(Action::Left(n)),
                    KeyCode::Right => Some(Action::Right(n)),
                    KeyCode::Down => Some(Action::Down(n)),
                    KeyCode::Up => Some(Action::Up(n)),
                    _ => None,
                };
            },
        };
        if let Some(p) = self.pending {
            self.pending = None;
            self.count = None;
            return if p == 'g' && c == 'g' {
                Some(Action::Top)
            } else if p == 'd' && c == 'd' {
                Some(Action::Archive)
            } else if p == 'c' && (c == 'w' || c == 'c') {
                Some(Action::Change)
            } else {
                None
            };
        }
        if let Some(d) = to_digit(c) {
            if d != 0 || self.count.is_some() {
                let n: usize = match self.count {
                    Some(k) => k * 10 + d,
                    None => d,
                };
                self.count = Some(if n < MAX_COUNT { n } else { MAX_COUNT });
                return None;
            }
        }
        if c == 'g' || c == 'd' || c == 'c' {
            self.pending = Some(c);
            return None;
        }
        let count = self.count;
        self.count = None;
        let n: usize = match count {
            Some(k) => k,
            None => 1,
        };
        if c == 'h' { Some(Action::Left(n)) }
        else if c == 'l' { Some(Action::Right(n)) }
        else if c == 'j' { Some(Action::Down(n)) }
        else if c == 'k' { Some(Action::Up(n)) }
        else if c == 'G' { Some(Action::Goto(count)) }
        else if c == 'H' { Some(Action::MoveLeft) }
        else if c == 'L' { Some(Action::MoveRight) }
        else if c == 'J' { Some(Action::MoveDown(n)) }
        else if c == 'K' { Some(Action::MoveUp(n)) }
        else if c == 'o' { Some(Action::NewBelow) }
        else if c == 'O' { Some(Action::NewAbove) }
        else if c == 'r' { Some(Action::Rename) }
        else if c == 'e' { Some(Action::EditDesc) }
        else if c == 'u' { Some(Action::Undo) }
        else if c == '/' { Some(Action::Search) }
        else if c == 'n' { Some(Action::NextMatch) }
        else if c == 'N' { Some(Action::PrevMatch) }
        else if c == ':' { Some(Action::Command) }
        else if c == '?' { Some(Action::Help) }
        else if c == 'q' { Some(Action::Close) }
        else if c == 'R' { Some(Action::Refresh) }
        else { None }
    }
}

/// A key that completes an action leaves nothing pending: the parser is back to idle.
pub proof fn law_action_clears_pending(s: ParserView, key: Key)
    requires
        parser_wf(s),
        feed_spec(s, key).1 is Some,
    ensures
        feed_spec(s, key).0 == idle(),
{
}

/// Esc always empties the parser, and yields `Back` exactly when nothing was pending.
pub proof fn law_escape(s: ParserView, key: Key)
    requires
        key.code == KeyCode::Esc,
    ensures
        feed_spec(s, key).0 == idle(),
        feed_spec(s, key).1 == Some(Action::Back) <==> s == idle(),
        display_spec(feed_spec(s, key).0) == Seq::<char>::empty(),
{
}

/// Typing a digit after a count appends it, as long as the count stays within `MAX_COUNT`;
/// the count never grows beyond `MAX_COUNT`.
pub proof fn law_count_digits(s: ParserView, d: char)
    requires
        parser_wf(s),
        s.1 is None,
        s.0 is Some,
        digit_value(d) is Some,
    ensures
        feed_spec(s, Key { code: KeyCode::Char(d), ctrl: false }).1 is None,
        feed_spec(s, Key { code: KeyCode::Char(d), ctrl: false }).0.0 == Some(
            extend_count(s.0, digit_value(d)->0),
        ),
        s.0->0 * 10 + digit_value(d)->0 <= MAX_COUNT ==> extend_count(s.0, digit_value(d)->0)
            == s.0->0 * 10 + digit_value(d)->0,
        extend_count(s.0, digit_value(d)->0) <= MAX_COUNT,
{
}

/// Every count an action carries is at most `MAX_COUNT`.
pub open spec fn counts_bounded(a: Action) -> bool {
    match a {
        Action::Left(n) => n <= MAX_COUNT,
        Action::Right(n) => n <= MAX_COUNT,
        Action::Down(n) => n <= MAX_COUNT,
        Action::Up(n) => n <= MAX_COUNT,
        Action::MoveDown(n) => n <= MAX_COUNT,
        Action::MoveUp(n) => n <= MAX_COUNT,
        Action::Goto(Some(n)) => n <= MAX_COUNT,
        _ => true,
    }
}

/// The parser never hands out a count above `MAX_COUNT`.
pub proof fn law_counts_bounded(s: ParserView, key: Key)
    requires
        parser_wf(s),
    ensures
        feed_spec(s, key).1 matches Some(a) ==> counts_bounded(a),
{
}

/// A zero typed with no count pending starts nothing and yields no action.
pub proof fn law_zero_is_not_a_count(s: ParserView)
    requires
        s == idle(),
    ensures
        feed_spec(s, Key { code: KeyCode::Char('0'), ctrl: false }) == (idle(), None::<Action>),
{
}

/// A count followed by a motion repeats the motion that many times: `n` then `j` is `Down(n)`.
pub proof fn law_count_then_motion(n: usize)
    requires
        1 <= n <= MAX_COUNT,
    ensures
        feed_spec((Some(n), None), Key { code: KeyCode::Char('j'), ctrl: false }) == (
            idle(),
            Some(Action::Down(n)),
        ),
        feed_spec((Some(n), None), Key { code: KeyCode::Char('G'), ctrl: false }) == (
            idle(),
            Some(Action::Goto(Some(n))),
        ),
{
}

/// The two-key sequences: `g`, `d` or `c` waits for a second key, whatever count came before;
/// then `gg` goes to the top, `dd` archives, and `cw` and `cc` both change the name; any other
/// second key drops the sequence and leaves the parser idle.
pub proof fn law_two_key_sequences(s: ParserView, first: char, second: char)
    requires
        s.1 is None,
        first == 'g' || first == 'd' || first == 'c',
    ensures
        ({
            let k1 = feed_spec(s, Key { code: KeyCode::Char(first), ctrl: false });
            let k2 = feed_spec(k1.0, Key { code: KeyCode::Char(second), ctrl: false });
            &&& k1.1 is None
            &&& k1.0 == (s.0, Some(first))
            &&& k2.0 == idle()
            &&& k2.1 == if first == 'g' && second == 'g' {
                Some(Action::Top)
            } else if first == 'd' && second == 'd' {
                Some(Action::Archive)
            } else if first == 'c' && (second == 'w' || second == 'c') {
                Some(Action::Change)
            } else {
                None
            }
        }),
        first == 'c' ==> feed_spec(
            feed_spec(s, Key { code: KeyCode::Char('c'), ctrl: false }).0,
            Key { code: KeyCode::Char('c'), ctrl: false },
        ).1 == feed_spec(
            feed_spec(s, Key { code: KeyCode::Char('c'), ctrl: false }).0,
            Key { code: KeyCode::Char('w'), ctrl: false },
        ).1,
{
    assert(digit_value(first) is None);
}

} // verus!
