//! The bottom-line prompt: its keys, and what a submitted line does (`:` commands, `/`
//! searches, new card names and renames).
use vstd::prelude::*;
use vstd::string::*;

use crate::actions::{
    board_acted, card_created, picker_acted, picker_shown, prompted, renamed, searched, told,
};
use crate::app::{App, Effect, Overlay, PromptKind, Screen, board_opened, boards_requested, reloaded};
use crate::keys::{Action, Key, KeyCode};
use crate::model::Board;
use crate::text::{
    chars_of, find_from, first_occurrence_from, has_infix, lowercase, parse_usize, parse_usize_spec,
    slice_chars, string_of, to_lowercase, contains, trim, trimmed,
};

verus! {

/// What the program does to the prompt's text after a key.
pub enum PromptEdit {
    /// No prompt is open.
    Ignored,
    /// The prompt is closed.
    Closed,
    /// Delete from the start of the line to the cursor.
    DeleteToHead,
    /// Delete the word before the cursor.
    DeleteWord,
    /// The prompt is closed; its text goes to `submit_prompt` with this kind.
    Submit(PromptKind),
    /// The key goes to the text field.
    Input,
}

/// What a key does to the open prompt; `empty` tells whether its text is empty.
pub open spec fn prompt_keyed(a: App, n: App, key: Key, empty: bool, r: PromptEdit) -> bool {
    match a.prompt {
        None => n == a && r is Ignored,
        Some(kind) => {
            let is_ex = kind is Command || kind is Search;
            if key.code == KeyCode::Esc || (key.code == KeyCode::Char('c') && key.ctrl) || (key.code
                == KeyCode::Backspace && empty && is_ex) {
                n == App { prompt: None, ..a } && r is Closed
            } else if key.code == KeyCode::Char('u') && key.ctrl {
                n == a && r is DeleteToHead
            } else if key.code == KeyCode::Char('w') && key.ctrl {
                n == a && r is DeleteWord
            } else if key.code == KeyCode::Enter {
                n == App { prompt: None, ..a } && r == PromptEdit::Submit(kind)
            } else {
                n == a && r is Input
            }
        },
    }
}

/// The part of `s` before its first space and the part after it.
pub open spec fn split_space(s: Seq<char>) -> (Seq<char>, Seq<char>) {
    match first_occurrence_from(s, seq![' '], 0) {
        Some(k) => (s.subrange(0, k), s.subrange(k + 1, s.len() as int)),
        None => (s, Seq::empty()),
    }
}

/// `i` is the first board whose name, ignoring case, is `needle`.
pub open spec fn named_exactly(boards: Seq<Board>, needle: Seq<char>, i: int) -> bool {
    &&& 0 <= i < boards.len()
    &&& lowercase(boards[i].name@) == needle
    &&& forall|j: int| 0 <= j < i ==> lowercase(#[trigger] boards[j].name@) != needle
}

/// `i` is the first board whose name, ignoring case, contains `needle`.
pub open spec fn named_partly(boards: Seq<Board>, needle: Seq<char>, i: int) -> bool {
    &&& 0 <= i < boards.len()
    &&& has_infix(lowercase(boards[i].name@), needle)
    &&& forall|j: int| 0 <= j < i ==> !has_infix(lowercase(#[trigger] boards[j].name@), needle)
}

/// The board that `:b <arg>` opens: the first whose name is `arg`, else the first whose name
/// contains it, ignoring case.
pub open spec fn board_match(boards: Seq<Board>, arg: Seq<char>) -> Option<int> {
    let needle = lowercase(arg);
    if exists|i: int| named_exactly(boards, needle, i) {
        Some(choose|i: int| named_exactly(boards, needle, i))
    } else if exists|i: int| named_partly(boards, needle, i) {
        Some(choose|i: int| named_partly(boards, needle, i))
    } else {
        None
    }
}

/// The commands that quit.
pub open spec fn is_quit_cmd(cmd: Seq<char>) -> bool {
    cmd == "q"@ || cmd == "q!"@ || cmd == "qa"@ || cmd == "qa!"@ || cmd == "quit"@ || cmd == "wq"@ || cmd == "x"@
}

/// The commands that reload.
pub open spec fn is_refresh_cmd(cmd: Seq<char>) -> bool {
    cmd == "r"@ || cmd == "e"@ || cmd == "e!"@ || cmd == "refresh"@
}

/// What `:b <arg>` does: opens the board it names, or says there is none.
pub open spec fn board_switched(a: App, n: App, arg: Seq<char>) -> bool {
    match board_match(a.boards@, arg) {
        Some(i) => board_opened(a, n, a.boards@[i]),
        None => told(a, n, "No board matching \""@ + arg + "\""@, true),
    }
}

/// What `:r` does: reloads the boards in the picker, or the open board.
pub open spec fn refreshed(a: App, n: App) -> bool {
    if a.screen == Screen::Picker {
        boards_requested(a, n)
    } else {
        reloaded(a, n)
    }
}

/// What `:<k>` does: goes to the `k`th item, as `kG` does.
pub open spec fn went_to<F: Fn(Option<u64>, Option<u64>) -> u64>(a: App, n: App, k: usize, between: F) -> bool {
    if a.screen == Screen::Picker {
        picker_acted(a, n, Action::Goto(Some(k)))
    } else {
        board_acted(a, n, Action::Goto(Some(k)), between)
    }
}

/// The kinds of `:` command.
pub enum ExCommand {
    Nothing,
    Quit,
    Picker,
    SwitchBoard,
    Refresh,
    Help,
    NoHighlight,
    GoTo(usize),
    Unknown,
}

/// Which command the word `cmd`, followed by `arg`, is.
pub open spec fn classify(cmd: Seq<char>, arg: Seq<char>) -> ExCommand {
    if cmd.len() == 0 {
        ExCommand::Nothing
    } else if is_quit_cmd(cmd) {
        ExCommand::Quit
    } else if (cmd == "b"@ || cmd == "board"@ || cmd == "boards"@) && arg.len() == 0 {
        ExCommand::Picker
    } else if cmd == "b"@ || cmd == "board"@ {
        ExCommand::SwitchBoard
    } else if is_refresh_cmd(cmd) {
        ExCommand::Refresh
    } else if cmd == "h"@ || cmd == "help"@ {
        ExCommand::Help
    } else if cmd == "noh"@ || cmd == "nohlsearch"@ {
        ExCommand::NoHighlight
    } else if parse_usize_spec(cmd) is Some {
        ExCommand::GoTo(parse_usize_spec(cmd)->0)
    } else {
        ExCommand::Unknown
    }
}

/// What the `:` command `input` does.
pub open spec fn command_ran<F: Fn(Option<u64>, Option<u64>) -> u64>(a: App, n: App, input: Seq<char>, between: F) -> bool {
    let (cmd, rest) = split_space(input);
    let arg = trimmed(rest);
    match classify(cmd, arg) {
        ExCommand::Nothing => n == a,
        ExCommand::Quit => n == App { should_quit: true, ..a },
        ExCommand::Picker => picker_shown(App { overlay: Overlay::Hidden, ..a }, n),
        ExCommand::SwitchBoard => board_switched(a, n, arg),
        ExCommand::Refresh => refreshed(a, n),
        ExCommand::Help => n == App { overlay: Overlay::Help, ..a },
        ExCommand::NoHighlight => n == App { search: None, ..a },
        ExCommand::GoTo(k) => went_to(a, n, k, between),
        ExCommand::Unknown => told(a, n, "Not a command: "@ + cmd, true),
    }
}

/// Which command `cmd` followed by `arg` is.
fn classify_command(cmd: &String, arg: &String) -> (r: ExCommand)
    ensures
        r == classify(cmd@, arg@),
{
    if cmd.as_str().is_empty() {
        return ExCommand::Nothing;
    }
    if quit_cmd(cmd) {
        return ExCommand::Quit;
    }
    let board_cmd = is_lit(cmd, "b") || is_lit(cmd, "board");
    if (board_cmd || is_lit(cmd, "boards")) && arg.as_str().is_empty() {
        return ExCommand::Picker;
    }
    if board_cmd {
        return ExCommand::SwitchBoard;
    }
    if refresh_cmd(cmd) {
        return ExCommand::Refresh;
    }
    if is_lit(cmd, "h") || is_lit(cmd, "help") {
        return ExCommand::Help;
    }
    if is_lit(cmd, "noh") || is_lit(cmd, "nohlsearch") {
        return ExCommand::NoHighlight;
    }
    match parse_usize(cmd.as_str()) {
        Some(n) => ExCommand::GoTo(n),
        None => ExCommand::Unknown,
    }
}

/// What submitting the prompt's `text` does.
pub open spec fn prompt_submitted<F: Fn(Option<u64>, Option<u64>) -> u64>(
    a: App,
    n: App,
    kind: PromptKind,
    text: Seq<char>,
    between: F,
) -> bool {
    let t = trimmed(text);
    match kind {
        PromptKind::Command => command_ran(a, n, t, between),
        PromptKind::Search => if t.len() == 0 {
            searched(a, n, true)
        } else {
            n.search matches Some(q) && q@ == lowercase(t) && searched(App { search: n.search, ..a }, n, true)
        },
        PromptKind::NewCard { col, index } => if t.len() == 0 {
            n == a
        } else {
            exists|name: String| name@ == t && #[trigger] card_created(a, n, col as int, index as int, name, between)
        },
        PromptKind::Rename { card_id } => if t.len() == 0 {
            n == a
        } else {
            exists|name: String| name@ == t && #[trigger] renamed(a, n, card_id@, name)
        },
    }
}

/// Whether `s` is the literal `lit`.
fn is_lit(s: &String, lit: &str) -> (b: bool)
    ensures
        b == (s@ == lit@),
{
    *s == String::from_str(lit)
}

fn quit_cmd(s: &String) -> (b: bool)
    ensures
        b == is_quit_cmd(s@),
{
    is_lit(s, "q") || is_lit(s, "q!") || is_lit(s, "qa") || is_lit(s, "qa!") || is_lit(s, "quit") || is_lit(s, "wq")
        || is_lit(s, "x")
}

fn refresh_cmd(s: &String) -> (b: bool)
    ensures
        b == is_refresh_cmd(s@),
{
    is_lit(s, "r") || is_lit(s, "e") || is_lit(s, "e!") || is_lit(s, "refresh")
}

/// The parts of `s` before and after its first space.
fn split_first_space(s: &str) -> (r: (String, String))
    ensures
        (r.0@, r.1@) == split_space(s@),
{
    let v = chars_of(s);
    let mut sp: Vec<char> = Vec::new();
    sp.push(' ');
    assert(sp@ =~= seq![' ']);
    match find_from(v.as_slice(), sp.as_slice(), 0) {
        Some(k) => {
            let n = v.len();
            proof {
                lemma_first_space_bounds(v@, 0);
            }
            let head = slice_chars(v.as_slice(), 0, k);
            let tail = slice_chars(v.as_slice(), k + 1, n);
            (string_of(head.as_slice()), string_of(tail.as_slice()))
        },
        None => (String::from_str(s), String::new()),
    }
}

proof fn lemma_first_space_bounds(s: Seq<char>, from: int)
    ensures
        first_occurrence_from(s, seq![' '], from) matches Some(k) ==> from <= k && k + 1 <= s.len(),
    decreases s.len() + 1 - from,
{
    if from >= 0 && from + 1 <= s.len() && s.subrange(from, from + 1) != seq![' '] {
        lemma_first_space_bounds(s, from + 1);
    }
}

impl App {
    /// A key while the prompt is open; `empty` tells whether the prompt's text is empty.
    pub fn on_prompt_key(&mut self, key: Key, empty: bool) -> (r: PromptEdit)
        requires
            old(self).wf(),
        ensures
            final(self).wf(),
            prompt_keyed(*old(self), *final(self), key, empty, r),
    {
        let is_ex = match &self.prompt {
            None => return PromptEdit::Ignored,
            Some(PromptKind::Command) => true,
            Some(PromptKind::Search) => true,
            Some(_) => false,
        };
        if key.code == KeyCode::Esc || (key.code == KeyCode::Char('c') && key.ctrl) || (key.code
            == KeyCode::Backspace && empty && is_ex) {
            self.prompt = None;
            return PromptEdit::Closed;
        }
        if key.code == KeyCode::Char('u') && key.ctrl {
            return PromptEdit::DeleteToHead;
        }
        if key.code == KeyCode::Char('w') && key.ctrl {
            return PromptEdit::DeleteWord;
        }
        if key.code == KeyCode::Enter {
            let kind = self.prompt.take();
            return match kind {
                Some(k) => PromptEdit::Submit(k),
                None => PromptEdit::Ignored,
            };
        }
        PromptEdit::Input
    }

    /// The board that `:b <arg>` means, if any.
    fn board_named(&self, arg: &str) -> (r: Option<usize>)
        ensures
            r matches Some(i) ==> board_match(self.boards@, arg@) == Some(i as int) && i < self.boards.len(),
            r is None ==> board_match(self.boards@, arg@) is None,
    {
        let needle = to_lowercase(arg);
        let mut i: usize = 0;
        while i < self.boards.len()
            invariant
                i <= self.boards.len(),
                needle@ == lowercase(arg@),
                forall|j: int| 0 <= j < i ==> lowercase(#[trigger] self.boards@[j].name@) != needle@,
            decreases self.boards.len() - i,
        {
            if to_lowercase(self.boards[i].name.as_str()) == needle {
                proof {
                    assert(named_exactly(self.boards@, needle@, i as int));
                    let k = choose|k: int| named_exactly(self.boards@, needle@, k);
                    assert(k == i as int) by {
                        if k < i {
                            assert(lowercase(self.boards@[k].name@) != needle@);
                        } else if (i as int) < k {
                            assert(lowercase(self.boards@[i as int].name@) != needle@);
                        }
                    }
                }
                return Some(i);
            }
            i = i + 1;
        }
        proof {
            assert(!exists|k: int| named_exactly(self.boards@, needle@, k));
        }
        let mut i: usize = 0;
        while i < self.boards.len()
            invariant
                i <= self.boards.len(),
                needle@ == lowercase(arg@),
                !exists|k: int| named_exactly(self.boards@, needle@, k),
                forall|j: int| 0 <= j < i ==> !has_infix(lowercase(#[trigger] self.boards@[j].name@), needle@),
            decreases self.boards.len() - i,
        {
            if contains(to_lowercase(self.boards[i].name.as_str()).as_str(), needle.as_str()) {
                proof {
                    assert(named_partly(self.boards@, needle@, i as int));
                    let k = choose|k: int| named_partly(self.boards@, needle@, k);
                    assert(k == i as int) by {
                        if k < i {
                            assert(!has_infix(lowercase(self.boards@[k].name@), needle@));
                        } else if (i as int) < k {
                            assert(!has_infix(lowercase(self.boards@[i as int].name@), needle@));
                        }
                    }
                }
                return Some(i);
            }
            i = i + 1;
        }
        proof {
            assert(!exists|k: int| named_partly(self.boards@, needle@, k));
        }
        None
    }

    /// `:b <arg>`: opens the board that `arg` names.
    fn switch_board(&mut self, arg: &str)
        requires
            old(self).wf(),
            old(self).has_room(),
        ensures
            final(self).wf(),
            board_switched(*old(self), *final(self), arg@),
    {
        match self.board_named(arg) {
            Some(i) => {
                let b = self.boards[i].clone();
                assert(b == self.boards@[i as int]);
                self.open_board(b);
            },
            None => {
                let mut msg = String::from_str("No board matching \"");
                msg.append(arg);
                msg.append("\"");
                self.error(msg);
            },
        }
    }

    /// `:r`: reloads the boards or the open board.
    fn refresh(&mut self)
        requires
            old(self).wf(),
            old(self).has_room(),
        ensures
            final(self).wf(),
            refreshed(*old(self), *final(self)),
    {
        if self.screen == Screen::Picker {
            self.load_boards();
        } else {
            self.reload_board();
        }
    }

    /// `:<k>`: goes to the `k`th item.
    fn go_to<F: Fn(Option<u64>, Option<u64>) -> u64>(&mut self, k: usize, between: &F)
        requires
            old(self).wf(),
            old(self).has_room(),
            forall|p: Option<u64>, n: Option<u64>| between.requires((p, n)),
        ensures
            final(self).wf(),
            went_to(*old(self), *final(self), k, *between),
    {
        let action = Action::Goto(Some(k));
        if self.screen == Screen::Picker {
            self.on_picker_action(action);
        } else {
            self.on_board_action(action, between);
        }
    }

    pub fn run_command<F: Fn(Option<u64>, Option<u64>) -> u64>(&mut self, input: &str, between: &F)
        requires
            old(self).wf(),
            old(self).has_room(),
            forall|p: Option<u64>, n: Option<u64>| between.requires((p, n)),
        ensures
            final(self).wf(),
            command_ran(*old(self), *final(self), input@, *between),
    {
        let (cmd, rest) = split_first_space(input);
        let arg = trim(rest.as_str());
        match classify_command(&cmd, &arg) {
            ExCommand::Nothing => {},
            ExCommand::Quit => self.should_quit = true,
            ExCommand::Picker => {
                self.overlay = Overlay::Hidden;
                self.show_picker();
            },
            ExCommand::SwitchBoard => self.switch_board(arg.as_str()),
            ExCommand::Refresh => self.refresh(),
            ExCommand::Help => self.overlay = Overlay::Help,
            ExCommand::NoHighlight => self.search = None,
            ExCommand::GoTo(n) => self.go_to(n, between),
            ExCommand::Unknown => {
                let mut msg = String::from_str("Not a command: ");
                msg.append(cmd.as_str());
                self.error(msg);
            },
        }
    }

    pub fn submit_prompt<F: Fn(Option<u64>, Option<u64>) -> u64>(&mut self, kind: PromptKind, text: &str, between: &F)
        requires
            old(self).wf(),
            old(self).has_room(),
            forall|p: Option<u64>, n: Option<u64>| between.requires((p, n)),
        ensures
            final(self).wf(),
            prompt_submitted(*old(self), *final(self), kind, text@, *between),
    {
        let text = trim(text);
        match kind {
            PromptKind::Command => self.run_command(text.as_str(), between),
            PromptKind::Search => {
                if !text.as_str().is_empty() {
                    self.search = Some(to_lowercase(text.as_str()));
                }
                self.search_next(true);
            },
            PromptKind::NewCard { col, index } => {
                if !text.as_str().is_empty() {
                    let ghost name = text;
                    self.create_card(col, index, text, between);
                    assert(card_created(*old(self), *self, col as int, index as int, name, *between));
                }
            },
            PromptKind::Rename { card_id } => {
                if !text.as_str().is_empty() {
                    let ghost name = text;
                    self.rename_card(card_id.as_str(), text);
                    assert(renamed(*old(self), *self, card_id@, name));
                }
            },
        }
    }
}

/// A word without spaces is the whole command, with no argument.
proof fn lemma_no_space(s: Seq<char>, from: int)
    requires
        forall|i: int| 0 <= i < s.len() ==> s[i] != ' ',
    ensures
        first_occurrence_from(s, seq![' '], from) is None,
    decreases s.len() + 1 - from,
{
    if from >= 0 && from + 1 <= s.len() {
        assert(s.subrange(from, from + 1)[0] != ' ');
        lemma_no_space(s, from + 1);
    }
}

/// `:r`, `:e`, `:e!` and `:refresh` reload: on the board screen they ask for the open board
/// again, and in the picker for the boards, without reporting anything.
pub proof fn law_refresh_commands<F: Fn(Option<u64>, Option<u64>) -> u64>(
    a: App,
    n: App,
    input: Seq<char>,
    between: F,
)
    requires
        input == "r"@ || input == "e"@ || input == "e!"@ || input == "refresh"@,
        command_ran(a, n, input, between),
    ensures
        n.status == a.status,
        n.should_quit == a.should_quit,
        a.screen == Screen::Board && a.board is Some ==> {
            &&& n.board_loading
            &&& n.inflight == a.inflight + 1
            &&& n.effects@.len() == a.effects@.len() + 1
            &&& n.effects@.last() matches Effect::LoadBoard { board_id } && board_id@ == a.board->0.id@
        },
        a.screen == Screen::Picker ==> n.effects@ == a.effects@.push(Effect::LoadBoards),
{
    reveal_strlit("r");
    reveal_strlit("e");
    reveal_strlit("e!");
    reveal_strlit("refresh");
    reveal_strlit("q");
    reveal_strlit("q!");
    reveal_strlit("qa");
    reveal_strlit("qa!");
    reveal_strlit("quit");
    reveal_strlit("wq");
    reveal_strlit("x");
    reveal_strlit("b");
    reveal_strlit("board");
    reveal_strlit("boards");
    assert(forall|i: int| 0 <= i < input.len() ==> input[i] != ' ');
    lemma_no_space(input, 0);
    assert(split_space(input) == (input, Seq::<char>::empty()));
    assert(trimmed(Seq::<char>::empty()) =~= Seq::<char>::empty());
    assert(!is_quit_cmd(input));
    assert(input != "b"@ && input != "board"@ && input != "boards"@);
    assert(classify(input, Seq::empty()) == ExCommand::Refresh);
}

} // verus!
