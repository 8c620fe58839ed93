//! The description editor: a vim-like modal editor over a card's description. The text and
//! its cursor live in the editor widget; this module decides what each key does.
use vstd::prelude::*;
use vstd::string::*;

use crate::actions::desc_committed;
use crate::app::{card_pos, is_card_pos, App, CardField, DescEditor, Effect, Overlay, Write};
use crate::keys::{Key, KeyCode};
use crate::model::Card;
use crate::text::{push_char, trim, trimmed};

verus! {

/// An operation on the editor widget's text or cursor.
#[derive(Debug, Clone, Copy, PartialEq, Eq, Structural)]
pub enum EditOp {
    Back,
    Forward,
    Up,
    Down,
    Head,
    End,
    Top,
    Bottom,
    WordForward,
    WordBack,
    WordEnd,
    InsertNewline,
    DeleteNextChar,
    DeleteToLineEnd,
    /// Start selecting text at the cursor.
    StartSelection,
    /// Cut the selected text into the yank buffer.
    Cut,
    Paste,
    Undo,
    Redo,
    /// Hand the key itself to the widget, which inserts or edits as it does.
    Input,
}

/// Where the editor widget's cursor is: its row and column, the length of its line, and
/// how many lines the text has.
#[derive(Debug, Clone, Copy, PartialEq, Eq, Structural)]
pub struct Cursor {
    pub row: usize,
    pub col: usize,
    pub line_len: usize,
    pub lines: usize,
}

/// vim `dd` as widget operations: removes the cursor line into the yank buffer, so that `p`
/// pastes it; the last line takes the line feed before it along.
pub open spec fn delete_line_ops(row: usize, lines: usize) -> Seq<EditOp> {
    if lines == 1 {
        seq![EditOp::Head, EditOp::DeleteToLineEnd]
    } else if row + 1 < lines {
        seq![EditOp::Head, EditOp::StartSelection, EditOp::Down, EditOp::Head, EditOp::Cut]
    } else {
        seq![EditOp::Up, EditOp::End, EditOp::StartSelection, EditOp::Bottom, EditOp::End, EditOp::Cut, EditOp::Head]
    }
}

/// What a key in the editor leads to.
pub enum DescStep {
    /// Apply these operations to the widget.
    Edit(Vec<EditOp>),
    /// Close the editor, saving the text first when `true`.
    Close(bool),
    /// Run this ex command (`:w`, `:q`, ...).
    Run(String),
}

/// The editor's mode: insert mode, a pending first key, the ex command being typed, the message.
pub type Mode = (bool, Option<char>, Option<Seq<char>>, Option<Seq<char>>);

pub open spec fn mode_of(ed: DescEditor) -> Mode {
    (
        ed.insert,
        ed.pending,
        match ed.cmd {
            Some(c) => Some(c@),
            None => None,
        },
        match ed.message {
            Some(m) => Some(m@),
            None => None,
        },
    )
}

/// What a key leads to, in the abstract.
pub enum Outcome {
    Edit(Seq<EditOp>),
    Close(bool),
    Run(Seq<char>),
}

pub open spec fn step_matches(s: DescStep, o: Outcome) -> bool {
    match (s, o) {
        (DescStep::Edit(v), Outcome::Edit(w)) => v@ == w,
        (DescStep::Close(a), Outcome::Close(b)) => a == b,
        (DescStep::Run(c), Outcome::Run(d)) => c@ == d,
        _ => false,
    }
}

/// Edit `ops` and switch to insert mode.
pub open spec fn insert_with(m: Mode, ops: Seq<EditOp>) -> (Mode, Outcome) {
    ((true, m.1, m.2, None), Outcome::Edit(ops))
}

/// A key in normal mode with nothing pending; `cur` is the widget's cursor and `unchanged`
/// tells whether the text is still the original.
pub open spec fn normal_key(m: Mode, key: Key, cur: Cursor, unchanged: bool) -> (Mode, Outcome) {
    let col = cur.col;
    let line_len = cur.line_len;
    let m0 = (m.0, m.1, m.2, None::<Seq<char>>);
    let none = Outcome::Edit(Seq::empty());
    let c = key.code;
    if c == KeyCode::Char('r') && key.ctrl {
        (m0, Outcome::Edit(seq![EditOp::Redo]))
    } else if c == KeyCode::Char('d') || c == KeyCode::Char('g') || c == KeyCode::Char('Z') {
        ((m.0, Some(c->Char_0), m.2, None), none)
    } else if c == KeyCode::Char('i') {
        insert_with(m, Seq::empty())
    } else if c == KeyCode::Char('a') {
        insert_with(m, if col < line_len { seq![EditOp::Forward] } else { Seq::empty() })
    } else if c == KeyCode::Char('A') {
        insert_with(m, seq![EditOp::End])
    } else if c == KeyCode::Char('I') {
        insert_with(m, seq![EditOp::Head])
    } else if c == KeyCode::Char('o') {
        insert_with(m, seq![EditOp::End, EditOp::InsertNewline])
    } else if c == KeyCode::Char('O') {
        insert_with(m, seq![EditOp::Head, EditOp::InsertNewline, EditOp::Up])
    } else if (c == KeyCode::Char('h') || c == KeyCode::Left) && col > 0 {
        (m0, Outcome::Edit(seq![EditOp::Back]))
    } else if (c == KeyCode::Char('l') || c == KeyCode::Right) && col < line_len {
        (m0, Outcome::Edit(seq![EditOp::Forward]))
    } else if c == KeyCode::Char('j') || c == KeyCode::Down {
        (m0, Outcome::Edit(seq![EditOp::Down]))
    } else if c == KeyCode::Char('k') || c == KeyCode::Up {
        (m0, Outcome::Edit(seq![EditOp::Up]))
    } else if c == KeyCode::Char('w') {
        (m0, Outcome::Edit(seq![EditOp::WordForward]))
    } else if c == KeyCode::Char('b') {
        (m0, Outcome::Edit(seq![EditOp::WordBack]))
    } else if c == KeyCode::Char('e') {
        (m0, Outcome::Edit(seq![EditOp::WordEnd]))
    } else if c == KeyCode::Char('0') || c == KeyCode::Home {
        (m0, Outcome::Edit(seq![EditOp::Head]))
    } else if c == KeyCode::Char('$') || c == KeyCode::End {
        (m0, Outcome::Edit(seq![EditOp::End]))
    } else if c == KeyCode::Char('G') {
        (m0, Outcome::Edit(seq![EditOp::Bottom]))
    } else if c == KeyCode::Char('x') {
        (m0, Outcome::Edit(seq![EditOp::DeleteNextChar]))
    } else if c == KeyCode::Char('D') {
        (m0, Outcome::Edit(seq![EditOp::DeleteToLineEnd]))
    } else if c == KeyCode::Char('p') {
        (m0, Outcome::Edit(seq![EditOp::Paste]))
    } else if c == KeyCode::Char('u') {
        (m0, Outcome::Edit(seq![EditOp::Undo]))
    } else if c == KeyCode::Char(':') {
        ((m.0, m.1, Some(Seq::empty()), None), none)
    } else if c == KeyCode::Esc {
        if unchanged {
            (m0, Outcome::Close(false))
        } else {
            ((m.0, m.1, m.2, Some("Unsaved changes — :w to save, :q! to discard"@)), none)
        }
    } else {
        (m0, none)
    }
}

/// What a key does to the editor's mode, and what it leads to.
pub open spec fn desc_step(m: Mode, key: Key, cur: Cursor, unchanged: bool) -> (Mode, Outcome) {
    let col = cur.col;
    let none = Outcome::Edit(Seq::empty());
    if key.ctrl && key.code == KeyCode::Char('s') {
        (m, Outcome::Close(true))
    } else if m.0 {
        if key.code == KeyCode::Esc {
            ((false, m.1, m.2, m.3), Outcome::Edit(if col > 0 { seq![EditOp::Back] } else { Seq::empty() }))
        } else {
            (m, Outcome::Edit(seq![EditOp::Input]))
        }
    } else if m.2 is Some {
        let cmd = m.2->0;
        match key.code {
            KeyCode::Esc => ((m.0, m.1, None, m.3), none),
            KeyCode::Enter => ((m.0, m.1, None, m.3), Outcome::Run(trimmed(cmd))),
            KeyCode::Backspace => if cmd.len() == 0 {
                ((m.0, m.1, None, m.3), none)
            } else {
                ((m.0, m.1, Some(cmd.drop_last()), m.3), none)
            },
            KeyCode::Char(ch) => ((m.0, m.1, Some(cmd.push(ch)), m.3), none),
            _ => (m, none),
        }
    } else if m.1 is Some {
        let p = m.1->0;
        let m0 = (m.0, None::<char>, m.2, None::<Seq<char>>);
        if p == 'd' && key.code == KeyCode::Char('d') {
            (m0, Outcome::Edit(delete_line_ops(cur.row, cur.lines)))
        } else if p == 'g' && key.code == KeyCode::Char('g') {
            (m0, Outcome::Edit(seq![EditOp::Top]))
        } else if p == 'Z' && key.code == KeyCode::Char('Z') {
            (m0, Outcome::Close(true))
        } else if p == 'Z' && key.code == KeyCode::Char('Q') {
            (m0, Outcome::Close(false))
        } else {
            (m0, none)
        }
    } else {
        normal_key(m, key, cur, unchanged)
    }
}

fn ops1(a: EditOp) -> (v: Vec<EditOp>)
    ensures
        v@ == seq![a],
{
    let mut v = Vec::new();
    v.push(a);
    assert(v@ =~= seq![a]);
    v
}

fn ops2(a: EditOp, b: EditOp) -> (v: Vec<EditOp>)
    ensures
        v@ == seq![a, b],
{
    let mut v = Vec::new();
    v.push(a);
    v.push(b);
    assert(v@ =~= seq![a, b]);
    v
}

fn ops3(a: EditOp, b: EditOp, c: EditOp) -> (v: Vec<EditOp>)
    ensures
        v@ == seq![a, b, c],
{
    let mut v = Vec::new();
    v.push(a);
    v.push(b);
    v.push(c);
    assert(v@ =~= seq![a, b, c]);
    v
}

/// vim `dd` for the cursor on `row` of a text of `lines` lines.
fn delete_line(row: usize, lines: usize) -> (v: Vec<EditOp>)
    ensures
        v@ == delete_line_ops(row, lines),
{
    let mut v = Vec::new();
    if lines == 1 {
        v.push(EditOp::Head);
        v.push(EditOp::DeleteToLineEnd);
    } else if lines > 0 && row < lines - 1 {
        v.push(EditOp::Head);
        v.push(EditOp::StartSelection);
        v.push(EditOp::Down);
        v.push(EditOp::Head);
        v.push(EditOp::Cut);
    } else {
        v.push(EditOp::Up);
        v.push(EditOp::End);
        v.push(EditOp::StartSelection);
        v.push(EditOp::Bottom);
        v.push(EditOp::End);
        v.push(EditOp::Cut);
        v.push(EditOp::Head);
    }
    assert(v@ =~= delete_line_ops(row, lines));
    v
}

fn no_ops() -> (v: Vec<EditOp>)
    ensures
        v@ == Seq::<EditOp>::empty(),
{
    Vec::new()
}

/// Calls `String::pop`, which removes the last character.
#[verifier::external_body]
fn pop_char(s: &mut String) -> (c: Option<char>)
    ensures
        old(s)@.len() == 0 ==> c is None && final(s)@ == old(s)@,
        old(s)@.len() > 0 ==> c == Some(old(s)@.last()) && final(s)@ == old(s)@.drop_last(),
{
    s.pop()
}

/// What closing the editor does, with `text` as its text: saves it first when `save`, then
/// shows the card details again if the editor was opened from them.
pub open spec fn desc_closed(a: App, n: App, save: bool, text: String) -> bool {
    match a.overlay {
        Overlay::Desc(ed) => {
            let a1 = App { overlay: Overlay::Hidden, ..a };
            let m = App { overlay: Overlay::Hidden, ..n };
            &&& if save {
                desc_committed(a1, m, ed.card_id@, text, ed.original@)
            } else {
                m == a1
            }
            &&& n.overlay == if ed.return_to_detail {
                Overlay::Detail { scroll: 0 }
            } else {
                Overlay::Hidden
            }
        },
        _ => n == a,
    }
}

/// `n` shows the editor `ed` with the message `msg`.
pub open spec fn desc_says(a: App, n: App, ed: DescEditor, msg: Seq<char>) -> bool {
    &&& n.overlay is Desc
    &&& {
        let e = n.overlay->Desc_0;
        &&& e == (DescEditor { message: e.message, ..ed })
        &&& e.message is Some
        &&& e.message->0@ == msg
    }
    &&& n == App { overlay: n.overlay, ..a }
}

/// What the ex command `cmd` does in the editor, with `text` as its text.
pub open spec fn desc_ran(a: App, n: App, cmd: Seq<char>, text: String) -> bool {
    match a.overlay {
        Overlay::Desc(ed) => {
            let modified = text@ != ed.original@;
            if cmd == "w"@ {
                &&& n.overlay is Desc
                &&& {
                    let e = n.overlay->Desc_0;
                    &&& e == (DescEditor { original: text, message: e.message, ..ed })
                    &&& e.message is Some
                    &&& e.message->0@ == "Saved"@
                }
                &&& desc_committed(App { overlay: n.overlay, ..a }, n, ed.card_id@, text, ed.original@)
            } else if cmd == "wq"@ || cmd == "x"@ {
                desc_closed(a, n, true, text)
            } else if cmd == "q"@ && modified {
                desc_says(a, n, ed, "No write since last change (add ! to override)"@)
            } else if cmd == "q"@ || cmd == "q!"@ {
                desc_closed(a, n, false, text)
            } else if cmd.len() == 0 {
                n == a
            } else {
                desc_says(a, n, ed, "Not a command: "@ + cmd)
            }
        },
        _ => n == a,
    }
}

/// What a key does in the editor; `text` is the editor's text and `cur` the widget's cursor.
/// The result lists the widget operations.
pub open spec fn desc_keyed(a: App, n: App, key: Key, text: String, cur: Cursor, ops: Seq<EditOp>) -> bool {
    match a.overlay {
        Overlay::Desc(ed) => {
            let (mode, outcome) = desc_step(mode_of(ed), key, cur, text@ == ed.original@);
            exists|e: DescEditor| {
                &&& #[trigger] mode_of(e) == mode
                &&& e.card_id == ed.card_id && e.card_name == ed.card_name && e.original == ed.original
                &&& e.return_to_detail == ed.return_to_detail
                &&& {
                    let m = App { overlay: Overlay::Desc(e), ..a };
                    match outcome {
                        Outcome::Edit(o) => n == m && ops == o,
                        Outcome::Close(save) => desc_closed(m, n, save, text) && ops.len() == 0,
                        Outcome::Run(c) => desc_ran(m, n, c, text) && ops.len() == 0,
                    }
                }
            }
        },
        _ => n == a && ops.len() == 0,
    }
}

impl DescEditor {
    /// The editor's reaction to a key; `cur` is the widget's cursor and `unchanged` whether
    /// the text is still the original.
    pub fn step(&mut self, key: Key, cur: Cursor, unchanged: bool) -> (s: DescStep)
        ensures
            mode_of(*final(self)) == desc_step(mode_of(*old(self)), key, cur, unchanged).0,
            step_matches(s, desc_step(mode_of(*old(self)), key, cur, unchanged).1),
            final(self).card_id == old(self).card_id,
            final(self).card_name == old(self).card_name,
            final(self).original == old(self).original,
            final(self).return_to_detail == old(self).return_to_detail,
    {
        let col = cur.col;
        let line_len = cur.line_len;
        if key.ctrl && key.code == KeyCode::Char('s') {
            return DescStep::Close(true);
        }
        if self.insert {
            if key.code == KeyCode::Esc {
                self.insert = false;
                return DescStep::Edit(if col > 0 { ops1(EditOp::Back) } else { no_ops() });
            }
            return DescStep::Edit(ops1(EditOp::Input));
        }
        if self.cmd.is_some() {
            let mut cmd = self.cmd.take().unwrap();
            match key.code {
                KeyCode::Esc => {},
                KeyCode::Enter => {
                    return DescStep::Run(trim(cmd.as_str()));
                },
                KeyCode::Backspace => {
                    if pop_char(&mut cmd).is_some() {
                        self.cmd = Some(cmd);
                    }
                },
                KeyCode::Char(ch) => {
                    push_char(&mut cmd, ch);
                    self.cmd = Some(cmd);
                },
                _ => {
                    self.cmd = Some(cmd);
                },
            }
            return DescStep::Edit(no_ops());
        }
        self.message = None;
        if let Some(p) = self.pending.take() {
            return if p == 'd' && key.code == KeyCode::Char('d') {
                DescStep::Edit(delete_line(cur.row, cur.lines))
            } else if p == 'g' && key.code == KeyCode::Char('g') {
                DescStep::Edit(ops1(EditOp::Top))
            } else if p == 'Z' && key.code == KeyCode::Char('Z') {
                DescStep::Close(true)
            } else if p == 'Z' && key.code == KeyCode::Char('Q') {
                DescStep::Close(false)
            } else {
                DescStep::Edit(no_ops())
            };
        }
        let c = key.code;
        if c == KeyCode::Char('r') && key.ctrl {
            DescStep::Edit(ops1(EditOp::Redo))
        } else if c == KeyCode::Char('d') || c == KeyCode::Char('g') || c == KeyCode::Char('Z') {
            self.pending = match c {
                KeyCode::Char(ch) => Some(ch),
                _ => None,
            };
            DescStep::Edit(no_ops())
        } else if c == KeyCode::Char('i') {
            self.insert = true;
            DescStep::Edit(no_ops())
        } else if c == KeyCode::Char('a') {
            self.insert = true;
            DescStep::Edit(if col < line_len { ops1(EditOp::Forward) } else { no_ops() })
        } else if c == KeyCode::Char('A') {
            self.insert = true;
            DescStep::Edit(ops1(EditOp::End))
        } else if c == KeyCode::Char('I') {
            self.insert = true;
            DescStep::Edit(ops1(EditOp::Head))
        } else if c == KeyCode::Char('o') {
            self.insert = true;
            DescStep::Edit(ops2(EditOp::End, EditOp::InsertNewline))
        } else if c == KeyCode::Char('O') {
            self.insert = true;
            DescStep::Edit(ops3(EditOp::Head, EditOp::InsertNewline, EditOp::Up))
        } else if (c == KeyCode::Char('h') || c == KeyCode::Left) && col > 0 {
            DescStep::Edit(ops1(EditOp::Back))
        } else if (c == KeyCode::Char('l') || c == KeyCode::Right) && col < line_len {
            DescStep::Edit(ops1(EditOp::Forward))
        } else if c == KeyCode::Char('j') || c == KeyCode::Down {
            DescStep::Edit(ops1(EditOp::Down))
        } else if c == KeyCode::Char('k') || c == KeyCode::Up {
            DescStep::Edit(ops1(EditOp::Up))
        } else if c == KeyCode::Char('w') {
            DescStep::Edit(ops1(EditOp::WordForward))
        } else if c == KeyCode::Char('b') {
            DescStep::Edit(ops1(EditOp::WordBack))
        } else if c == KeyCode::Char('e') {
            DescStep::Edit(ops1(EditOp::WordEnd))
        } else if c == KeyCode::Char('0') || c == KeyCode::Home {
            DescStep::Edit(ops1(EditOp::Head))
        } else if c == KeyCode::Char('$') || c == KeyCode::End {
            DescStep::Edit(ops1(EditOp::End))
        } else if c == KeyCode::Char('G') {
            DescStep::Edit(ops1(EditOp::Bottom))
        } else if c == KeyCode::Char('x') {
            DescStep::Edit(ops1(EditOp::DeleteNextChar))
        } else if c == KeyCode::Char('D') {
            DescStep::Edit(ops1(EditOp::DeleteToLineEnd))
        } else if c == KeyCode::Char('p') {
            DescStep::Edit(ops1(EditOp::Paste))
        } else if c == KeyCode::Char('u') {
            DescStep::Edit(ops1(EditOp::Undo))
        } else if c == KeyCode::Char(':') {
            self.cmd = Some(String::new());
            DescStep::Edit(no_ops())
        } else if c == KeyCode::Esc {
            if unchanged {
                DescStep::Close(false)
            } else {
                self.message = Some(String::from_str("Unsaved changes — :w to save, :q! to discard"));
                DescStep::Edit(no_ops())
            }
        } else {
            DescStep::Edit(no_ops())
        }
    }
}

impl App {
    pub fn close_desc(&mut self, save: bool, text: String)
        requires
            old(self).wf(),
            old(self).has_room(),
        ensures
            final(self).wf(),
            desc_closed(*old(self), *final(self), save, text),
    {
        let mut ov = Overlay::Hidden;
        std::mem::swap(&mut ov, &mut self.overlay);
        let ed = match ov {
            Overlay::Desc(ed) => ed,
            other => {
                self.overlay = other;
                return;
            },
        };
        if save {
            self.commit_desc(ed.card_id.as_str(), text, ed.original.as_str());
        }
        if ed.return_to_detail {
            self.overlay = Overlay::Detail { scroll: 0 };
        }
    }

    pub fn desc_command(&mut self, cmd: &str, text: String)
        requires
            old(self).wf(),
            old(self).has_room(),
        ensures
            final(self).wf(),
            desc_ran(*old(self), *final(self), cmd@, text),
    {
        let mut ov = Overlay::Hidden;
        std::mem::swap(&mut ov, &mut self.overlay);
        let mut ed = match ov {
            Overlay::Desc(ed) => ed,
            other => {
                self.overlay = other;
                return;
            },
        };
        let c = String::from_str(cmd);
        let modified = text != ed.original;
        if c == String::from_str("w") {
            let id = ed.card_id.clone();
            let mut original = text.clone();
            std::mem::swap(&mut original, &mut ed.original);
            ed.message = Some(String::from_str("Saved"));
            self.overlay = Overlay::Desc(ed);
            self.commit_desc(id.as_str(), text, original.as_str());
        } else if c == String::from_str("wq") || c == String::from_str("x") {
            self.overlay = Overlay::Desc(ed);
            self.close_desc(true, text);
        } else if c == String::from_str("q") && modified {
            ed.message = Some(String::from_str("No write since last change (add ! to override)"));
            self.overlay = Overlay::Desc(ed);
        } else if c == String::from_str("q") || c == String::from_str("q!") {
            self.overlay = Overlay::Desc(ed);
            self.close_desc(false, text);
        } else if c.as_str().is_empty() {
            self.overlay = Overlay::Desc(ed);
        } else {
            let mut msg = String::from_str("Not a command: ");
            msg.append(cmd);
            ed.message = Some(msg);
            self.overlay = Overlay::Desc(ed);
        }
    }

    /// A key while the description editor is open; `text` is the editor's text and `cur` the
    /// widget's cursor. Returns the operations for the editor widget.
    pub fn on_desc_key(&mut self, key: Key, text: String, cur: Cursor) -> (ops: Vec<EditOp>)
        requires
            old(self).wf(),
            old(self).has_room(),
        ensures
            final(self).wf(),
            desc_keyed(*old(self), *final(self), key, text, cur, ops@),
    {
        let mut ov = Overlay::Hidden;
        std::mem::swap(&mut ov, &mut self.overlay);
        let mut ed = match ov {
            Overlay::Desc(ed) => ed,
            other => {
                self.overlay = other;
                return no_ops();
            },
        };
        let ghost ed0 = ed;
        let unchanged = text == ed.original;
        let step = ed.step(key, cur, unchanged);
        self.overlay = Overlay::Desc(ed);
        let ghost m = *self;
        assert(mode_of(ed) == desc_step(mode_of(ed0), key, cur, text@ == ed0.original@).0);
        match step {
            DescStep::Edit(ops) => ops,
            DescStep::Close(save) => {
                self.close_desc(save, text);
                no_ops()
            },
            DescStep::Run(c) => {
                self.desc_command(c.as_str(), text);
                no_ops()
            },
        }
    }
}

/// `:wq` and `:x` save and close, `:q!` closes without saving: on a text that differs from the
/// description the editor opened with, `:wq` and `:x` set the card's description to the text
/// and queue one update of the card that sets it, while `:q!` leaves every card as it was and
/// queues nothing. Either way the editor closes.
pub proof fn law_write_quit_saves(a: App, n: App, cmd: Seq<char>, text: String, c: int, r: int)
    requires
        cmd == "wq"@ || cmd == "x"@ || cmd == "q!"@,
        a.overlay is Desc,
        text@ != a.overlay->Desc_0.original@,
        card_pos(a.columns@, a.overlay->Desc_0.card_id@) == Some((c, r)),
        desc_ran(a, n, cmd, text),
    ensures
        !(n.overlay is Desc),
        cmd != "q!"@ ==> {
            &&& n.columns@[c].cards@[r].desc == text
            &&& n.effects@.len() == a.effects@.len() + 1
            &&& n.effects@.subrange(0, a.effects@.len() as int) == a.effects@
            &&& n.effects@.last() matches Effect::Write(Write::Update { card_id, fields })
                && card_id@ == a.overlay->Desc_0.card_id@ && fields@ == seq![CardField::Desc(text)]
        },
        cmd == "q!"@ ==> n.columns == a.columns && n.effects == a.effects,
{
    reveal_strlit("wq");
    reveal_strlit("x");
    reveal_strlit("q!");
    reveal_strlit("w");
    reveal_strlit("q");
    assert("wq"@.len() == 2 && "q!"@.len() == 2 && "w"@.len() == 1 && "q"@.len() == 1);
    assert("x"@[0] == 'x' && "w"@[0] == 'w' && "q!"@[0] == 'q' && "wq"@[0] == 'w');
    assert(cmd != "w"@) by {
        if cmd == "x"@ {
            assert(cmd[0] != "w"@[0]);
        }
    }
    assert(cmd == "q!"@ ==> cmd != "q"@);
    assert(cmd.len() > 0);
    let ed = a.overlay->Desc_0;
    let a1 = App { overlay: Overlay::Hidden, ..a };
    let m = App { overlay: Overlay::Hidden, ..n };
    assert(a1.columns == a.columns && a1.effects == a.effects);
    assert(m.columns == n.columns && m.effects == n.effects);
    if cmd == "q!"@ {
        assert(cmd != "wq"@ && cmd != "x"@) by {
            assert(cmd[0] != "wq"@[0]);
        }
        assert(desc_closed(a, n, false, text));
        assert(m == a1);
    } else {
        assert(desc_closed(a, n, true, text));
        assert(desc_committed(a1, m, ed.card_id@, text, ed.original@));
        assert(card_pos(a1.columns@, ed.card_id@) == Some((c, r)));
        assert(is_card_pos(a.columns@, ed.card_id@, c, r)) by {
            let (c0, r0) = choose|c0: int, r0: int| is_card_pos(a.columns@, ed.card_id@, c0, r0);
            assert(is_card_pos(a.columns@, ed.card_id@, (c0, r0).0, (c0, r0).1));
        }
        assert(m.columns@[c].cards@ == a1.columns@[c].cards@.update(r, Card { desc: text, ..a1.columns@[c].cards@[r] }));
    }
}

} // verus!
