//! The command line: an ex command, a search, a prompt or a dialog.

use vstd::prelude::*;

use crate::input::{Key, KeyCode};
use crate::mode::Mode;
use crate::search::{dir_prefix, SearchDir};
use crate::strings::{chars_of, same, string_of, texts, trim, trimmed};
use crate::unicode::{columns, display_width};

verus! {

/// What the command line is for.
#[derive(Debug, Clone, Copy, PartialEq, Eq, Structural)]
pub enum CmdlineKind {
    /// A command after `:`.
    Ex,
    /// A pattern after `/` or `?`.
    Search(SearchDir),
    /// A line for a script.
    Prompt,
    /// A choice among buttons.
    Confirm,
}

/// What command-line completion is set up to do.
#[derive(Debug, Clone, Copy, PartialEq, Eq, Structural)]
pub struct CmdlineCompleteConfig {
    pub enabled: bool,
    /// Show what the commands do beside the menu.
    pub docs: bool,
}

/// The history of one kind of prompt.
pub struct Ring {
    pub name: String,
    pub lines: Vec<String>,
}

/// What a [`Ring`] holds.
pub ghost struct RingModel {
    pub name: Seq<char>,
    pub lines: Seq<Seq<char>>,
}

impl View for Ring {
    type V = RingModel;

    open spec fn view(&self) -> RingModel {
        RingModel { name: self.name@, lines: texts(self.lines@) }
    }
}

pub open spec fn rings_of(v: Seq<Ring>) -> Seq<RingModel> {
    v.map_values(|r: Ring| r@)
}

/// The command line and its histories.
pub struct CommandLine {
    chars: Vec<char>,
    col: usize,
    kind: CmdlineKind,
    /// The label of a prompt or a dialog.
    prompt: String,
    /// The keys of a dialog's buttons, in lower case and in order.
    accelerators: Vec<String>,
    /// The button that the enter key presses, counted from one; none for zero.
    confirm_default: i64,
    search_history: Vec<String>,
    ex_history: Vec<String>,
    prompt_history: Vec<Ring>,
    /// The history that the open prompt uses.
    prompt_key: Option<String>,
    /// The entry of the history that is shown, if one is.
    hist_idx: Option<usize>,
    /// The mode to return to.
    return_mode: Mode,
    /// The next key names a register whose text goes in.
    awaiting_register: bool,
    /// The line as it was typed, and its cursor, while a completion is shown in it.
    saved: Option<(Vec<char>, usize)>,
    /// How commands are completed.
    complete: CmdlineCompleteConfig,
    /// How the open prompt is completed.
    prompt_complete: CmdlineCompleteConfig,
    menu: Option<usize>,
}

/// What a [`CommandLine`] holds.
pub ghost struct LineModel {
    pub chars: Seq<char>,
    pub col: int,
    pub kind: CmdlineKind,
    pub prompt: Seq<char>,
    pub accelerators: Seq<Seq<char>>,
    pub confirm_default: i64,
    pub search_history: Seq<Seq<char>>,
    pub ex_history: Seq<Seq<char>>,
    pub prompt_history: Seq<RingModel>,
    pub prompt_key: Option<Seq<char>>,
    pub hist_idx: Option<usize>,
    pub return_mode: Mode,
    pub awaiting_register: bool,
    pub saved: Option<(Seq<char>, int)>,
    pub complete: CmdlineCompleteConfig,
    pub prompt_complete: CmdlineCompleteConfig,
    /// Where the word begins, in bytes, that the open menu completes.
    pub menu: Option<usize>,
}

/// No completion.
pub open spec fn no_completion() -> CmdlineCompleteConfig {
    CmdlineCompleteConfig { enabled: false, docs: false }
}

pub open spec fn saved_line(s: Option<(Vec<char>, usize)>) -> Option<(Seq<char>, int)> {
    match s {
        Some((v, col)) => Some((v@, col as int)),
        None => None,
    }
}

impl View for CommandLine {
    type V = LineModel;

    closed spec fn view(&self) -> LineModel {
        LineModel {
            chars: self.chars@,
            col: self.col as int,
            kind: self.kind,
            prompt: self.prompt@,
            accelerators: texts(self.accelerators@),
            confirm_default: self.confirm_default,
            search_history: texts(self.search_history@),
            ex_history: texts(self.ex_history@),
            prompt_history: rings_of(self.prompt_history@),
            prompt_key: crate::buffer::opt_chars(self.prompt_key),
            hist_idx: self.hist_idx,
            return_mode: self.return_mode,
            awaiting_register: self.awaiting_register,
            saved: saved_line(self.saved),
            complete: self.complete,
            prompt_complete: self.prompt_complete,
            menu: self.menu,
        }
    }
}

/// A command line that was never opened.
pub open spec fn fresh_line() -> LineModel {
    LineModel {
        chars: Seq::empty(),
        col: 0,
        kind: CmdlineKind::Ex,
        prompt: Seq::empty(),
        accelerators: Seq::empty(),
        confirm_default: 0,
        search_history: Seq::empty(),
        ex_history: Seq::empty(),
        prompt_history: Seq::empty(),
        prompt_key: None,
        hist_idx: None,
        return_mode: Mode::Normal,
        awaiting_register: false,
        saved: None,
        complete: no_completion(),
        prompt_complete: no_completion(),
        menu: None,
    }
}

/// The cursor is inside the line, and so is that of the line that was saved.
pub open spec fn line_ok(l: LineModel) -> bool {
    &&& 0 <= l.col <= l.chars.len()
    &&& l.saved is Some ==> 0 <= (l.saved->0).1 <= (l.saved->0).0.len()
}

/// The line emptied.
pub open spec fn cleared(l: LineModel) -> LineModel {
    LineModel { chars: Seq::empty(), col: 0, ..l }
}

/// The menu closed; the line is what it shows.
pub open spec fn menu_closed(l: LineModel) -> LineModel {
    LineModel { saved: None, menu: None, ..l }
}

/// The line opened empty, to return to a mode.
pub open spec fn opened_line(l: LineModel, kind: CmdlineKind, back: Mode) -> LineModel {
    LineModel { kind, hist_idx: None, return_mode: back, ..cleared(l) }
}

/// The line replaced, with the cursor at its end.
pub open spec fn with_line(l: LineModel, s: Seq<char>) -> LineModel {
    LineModel { chars: s, col: s.len() as int, ..l }
}

/// A character typed at the cursor.
pub open spec fn char_inserted(l: LineModel, c: char) -> LineModel {
    LineModel { chars: l.chars.insert(l.col, c), col: l.col + 1, ..l }
}

/// The characters of a text typed one after the other, line breaks aside.
pub open spec fn str_inserted(l: LineModel, s: Seq<char>) -> LineModel
    decreases s.len(),
{
    if s.len() == 0 {
        l
    } else {
        let r = str_inserted(l, s.drop_last());
        if s.last() == '\n' {
            r
        } else {
            char_inserted(r, s.last())
        }
    }
}

/// The named changes of the line.
#[derive(Debug, Clone, Copy, PartialEq, Eq, Structural)]
pub enum LineEdit {
    Backspace,
    Delete,
    Left,
    Right,
    ToStart,
    ToEnd,
    HistoryPrev,
    HistoryNext,
}

/// A part of the line replaced, with the cursor after it.
pub open spec fn span_replaced(l: LineModel, a: int, b: int, s: Seq<char>) -> LineModel {
    LineModel { chars: l.chars.take(a) + s + l.chars.skip(b), col: a + s.len(), ..l }
}

/// The line kept as it is typed, or the kept line back in its place.
pub open spec fn typed_kept(l: LineModel) -> LineModel {
    match l.saved {
        None => LineModel { saved: Some((l.chars, l.col)), ..l },
        Some((s, col)) => LineModel { chars: s, col, ..l },
    }
}

/// The kept line back in its place, and no longer kept.
pub open spec fn typed_restored(l: LineModel) -> LineModel {
    match l.saved {
        None => l,
        Some((s, col)) => LineModel { chars: s, col, saved: None, ..l },
    }
}

/// The lines of the history under a name.
pub open spec fn ring_lines(rings: Seq<RingModel>, name: Seq<char>, i: int) -> Seq<Seq<char>>
    decreases rings.len() - i,
{
    if i < 0 || i >= rings.len() {
        Seq::empty()
    } else if rings[i].name == name {
        rings[i].lines
    } else {
        ring_lines(rings, name, i + 1)
    }
}

/// The history of the line's kind.
pub open spec fn history_of(l: LineModel) -> Seq<Seq<char>> {
    match l.kind {
        CmdlineKind::Ex => l.ex_history,
        CmdlineKind::Search(_) => l.search_history,
        CmdlineKind::Confirm => Seq::empty(),
        CmdlineKind::Prompt => match l.prompt_key {
            Some(k) => ring_lines(l.prompt_history, k, 0),
            None => Seq::empty(),
        },
    }
}

/// The history entry `i` shown.
pub open spec fn entry_shown(l: LineModel, i: int) -> LineModel {
    LineModel { hist_idx: Some(i as usize), ..with_line(l, history_of(l)[i]) }
}

/// The line after a named change.
pub open spec fn line_edited(l: LineModel, e: LineEdit) -> LineModel {
    let n = history_of(l).len();
    match e {
        LineEdit::Backspace => if l.col > 0 {
            LineModel { chars: l.chars.remove(l.col - 1), col: l.col - 1, ..l }
        } else {
            l
        },
        LineEdit::Delete => if l.col < l.chars.len() {
            LineModel { chars: l.chars.remove(l.col), ..l }
        } else {
            l
        },
        LineEdit::Left => if l.col > 0 {
            LineModel { col: l.col - 1, ..l }
        } else {
            l
        },
        LineEdit::Right => if l.col < l.chars.len() {
            LineModel { col: l.col + 1, ..l }
        } else {
            l
        },
        LineEdit::ToStart => LineModel { col: 0, ..l },
        LineEdit::ToEnd => LineModel { col: l.chars.len() as int, ..l },
        LineEdit::HistoryPrev => if n == 0 {
            l
        } else {
            match l.hist_idx {
                None => entry_shown(l, n - 1),
                Some(i) => if i > n {
                    entry_shown(l, n - 1)
                } else if i > 0 {
                    entry_shown(l, i - 1)
                } else {
                    entry_shown(l, 0)
                },
            }
        },
        LineEdit::HistoryNext => match l.hist_idx {
            None => l,
            Some(i) => if i + 1 < n {
                entry_shown(l, i + 1)
            } else {
                LineModel { hist_idx: None, ..cleared(l) }
            },
        },
    }
}

/// A line added to a history, unless it is the newest already.
pub open spec fn remembered(h: Seq<Seq<char>>, s: Seq<char>) -> Seq<Seq<char>> {
    if h.len() > 0 && h.last() == s {
        h
    } else {
        h.push(s)
    }
}

/// The last `n` entries.
pub open spec fn newest(h: Seq<Seq<char>>, n: nat) -> Seq<Seq<char>> {
    if h.len() > n {
        h.skip(h.len() - n)
    } else {
        h
    }
}

/// The histories with a line added to the one under a name, of which the last `cap` lines are
/// kept.
pub open spec fn ring_remembered(
    rings: Seq<RingModel>,
    name: Seq<char>,
    s: Seq<char>,
    cap: nat,
    i: int,
) -> Seq<RingModel>
    decreases rings.len() - i,
{
    if i < 0 || i >= rings.len() {
        rings.push(RingModel { name, lines: newest(seq![s], cap) })
    } else if rings[i].name == name {
        rings.update(
            i,
            RingModel {
                name: rings[i].name,
                lines: if rings[i].lines.len() > 0 && rings[i].lines.last() == s {
                    rings[i].lines
                } else {
                    newest(rings[i].lines.push(s), cap)
                },
            },
        )
    } else {
        ring_remembered(rings, name, s, cap, i + 1)
    }
}

/// The prompt character of the line's kind.
pub open spec fn prefix_of(kind: CmdlineKind) -> char {
    match kind {
        CmdlineKind::Ex => ':',
        CmdlineKind::Search(dir) => dir_prefix(dir),
        _ => ' ',
    }
}

/// A character in ASCII lower case.
pub open spec fn ascii_lower(c: char) -> char {
    if 'A' <= c <= 'Z' {
        ((c as u32) + 32) as char
    } else {
        c
    }
}

/// The first button from the `i`th on whose key is `c`.
pub open spec fn button_of(accelerators: Seq<Seq<char>>, c: char, i: int) -> Option<int>
    decreases accelerators.len() - i,
{
    if i < 0 || i >= accelerators.len() {
        None
    } else if accelerators[i] == seq![c] {
        Some(i)
    } else {
        button_of(accelerators, c, i + 1)
    }
}

/// The answer that a key gives to a dialog: a button counted from one, zero for
/// none of them, and nothing where the key is no answer.
pub open spec fn confirm_answer(l: LineModel, key: Key) -> Option<int> {
    match key.code {
        KeyCode::Esc => Some(0int),
        KeyCode::Enter => Some(l.confirm_default as int),
        KeyCode::Char(c) => if key.ctrl {
            if c == 'c' {
                Some(0int)
            } else {
                None
            }
        } else {
            match button_of(l.accelerators, ascii_lower(c), 0) {
                Some(i) => Some(i + 1),
                None => None,
            }
        },
        _ => None,
    }
}

/// A copy of a list of strings.
pub fn copy_strings(v: &Vec<String>) -> (r: Vec<String>)
    ensures
        texts(r@) == texts(v@),
{
    let mut r: Vec<String> = Vec::new();
    let mut i: usize = 0;
    assert(texts(r@) =~= texts(v@).take(0));
    while i < v.len()
        invariant
            i <= v@.len(),
            texts(r@) == texts(v@).take(i as int),
        decreases v@.len() - i,
    {
        let ghost before = texts(r@);
        r.push(v[i].clone());
        assert(texts(r@) =~= before.push(v@[i as int]@));
        assert(texts(v@).take(i + 1) =~= texts(v@).take(i as int).push(v@[i as int]@));
        i += 1;
    }
    assert(texts(v@).take(i as int) =~= texts(v@));
    r
}

/// Add a line to a history, unless it is the newest already.
pub fn remember(h: &mut Vec<String>, s: &str)
    ensures
        texts(final(h)@) == remembered(texts(old(h)@), s@),
{
    let n: usize = h.len();
    if n > 0 {
        assert(texts(h@).last() == h@[n - 1]@);
        if same(h[n - 1].as_str(), s) {
            return;
        }
    }
    h.push(s.to_owned());
    assert(texts(h@) =~= texts(old(h)@).push(s@));
}

impl CommandLine {
    /// The cursor is inside the line.
    pub open spec fn wf(&self) -> bool {
        line_ok(self@)
    }

    pub fn new() -> (l: Self)
        ensures
            l.wf(),
            l@ == fresh_line(),
    {
        let l = CommandLine {
            chars: Vec::new(),
            col: 0,
            kind: CmdlineKind::Ex,
            prompt: String::new(),
            accelerators: Vec::new(),
            confirm_default: 0,
            search_history: Vec::new(),
            ex_history: Vec::new(),
            prompt_history: Vec::new(),
            prompt_key: None,
            hist_idx: None,
            return_mode: Mode::Normal,
            awaiting_register: false,
            saved: None,
            complete: CmdlineCompleteConfig { enabled: false, docs: false },
            prompt_complete: CmdlineCompleteConfig { enabled: false, docs: false },
            menu: None,
        };
        assert(l@.accelerators =~= Seq::<Seq<char>>::empty());
        assert(l@.search_history =~= Seq::<Seq<char>>::empty());
        assert(l@.ex_history =~= Seq::<Seq<char>>::empty());
        assert(l@.prompt_history =~= Seq::<RingModel>::empty());
        l
    }

    pub fn kind(&self) -> (k: CmdlineKind)
        ensures
            k == self@.kind,
    {
        self.kind
    }

    pub fn return_mode(&self) -> (m: Mode)
        ensures
            m == self@.return_mode,
    {
        self.return_mode
    }

    pub fn is_awaiting_register(&self) -> (b: bool)
        ensures
            b == self@.awaiting_register,
    {
        self.awaiting_register
    }

    pub fn set_awaiting_register(&mut self, b: bool)
        requires
            old(self).wf(),
        ensures
            final(self).wf(),
            final(self)@ == (LineModel { awaiting_register: b, ..old(self)@ }),
    {
        self.awaiting_register = b;
    }

    /// What was typed.
    pub fn text(&self) -> (s: String)
        ensures
            s@ == self@.chars,
    {
        assert(self.chars@.subrange(0, self.chars@.len() as int) =~= self.chars@);
        string_of(&self.chars, 0, self.chars.len())
    }

    pub fn is_empty(&self) -> (b: bool)
        ensures
            b == (self@.chars.len() == 0),
    {
        self.chars.len() == 0
    }

    /// The cursor's place in the line, in characters.
    pub fn cmdline_cursor(&self) -> (n: usize)
        ensures
            n == self@.col,
    {
        self.col
    }

    pub fn clear(&mut self)
        requires
            old(self).wf(),
        ensures
            final(self).wf(),
            final(self)@ == cleared(old(self)@),
    {
        self.chars = Vec::new();
        self.col = 0;
    }

    /// Where the word begins, in bytes, that the open menu completes.
    pub fn cmdline_menu_anchor(&self) -> (r: Option<usize>)
        ensures
            r == self@.menu,
    {
        self.menu
    }

    /// A menu has been opened for the word from a byte on.
    pub fn open_cmdline_menu(&mut self, anchor: usize)
        requires
            old(self).wf(),
        ensures
            final(self).wf(),
            final(self)@ == (LineModel { menu: Some(anchor), ..old(self)@ }),
    {
        self.menu = Some(anchor);
    }

    /// Close the menu. What it showed in the line stays.
    pub fn close_cmdline_menu(&mut self)
        requires
            old(self).wf(),
        ensures
            final(self).wf(),
            final(self)@ == menu_closed(old(self)@),
    {
        self.saved = None;
        self.menu = None;
    }

    /// Open the line, empty.
    pub fn open(&mut self, kind: CmdlineKind, back: Mode)
        requires
            old(self).wf(),
        ensures
            final(self).wf(),
            final(self)@ == opened_line(old(self)@, kind, back),
    {
        self.clear();
        self.kind = kind;
        self.hist_idx = None;
        self.return_mode = back;
    }

    /// How commands are completed, and how the open prompt is.
    pub fn completion(&self) -> (r: (CmdlineCompleteConfig, CmdlineCompleteConfig))
        ensures
            r == (self@.complete, self@.prompt_complete),
    {
        (self.complete, self.prompt_complete)
    }

    /// Set completion of commands up.
    pub fn configure_complete(&mut self, docs: bool)
        requires
            old(self).wf(),
        ensures
            final(self).wf(),
            final(self)@ == (LineModel {
                complete: CmdlineCompleteConfig { enabled: true, docs },
                ..old(self)@
            }),
    {
        self.complete = CmdlineCompleteConfig { enabled: true, docs };
    }

    /// Open the line as a prompt, with a label and a line to begin with.
    pub fn open_prompt(
        &mut self,
        label: String,
        default: String,
        history: Option<String>,
        complete: CmdlineCompleteConfig,
    )
        requires
            old(self).wf(),
        ensures
            final(self).wf(),
            final(self)@ == (LineModel {
                kind: CmdlineKind::Prompt,
                prompt: label@,
                prompt_key: crate::buffer::opt_chars(history),
                prompt_complete: complete,
                hist_idx: None,
                return_mode: Mode::Normal,
                ..with_line(old(self)@, default@)
            }),
    {
        self.chars = chars_of(default.as_str());
        self.col = self.chars.len();
        self.kind = CmdlineKind::Prompt;
        self.prompt = label;
        self.prompt_key = history;
        self.prompt_complete = complete;
        self.hist_idx = None;
        self.return_mode = Mode::Normal;
    }

    /// Open the line as a dialog.
    pub fn open_confirm(&mut self, label: String, accelerators: Vec<String>, default: i64)
        requires
            old(self).wf(),
        ensures
            final(self).wf(),
            final(self)@ == (LineModel {
                kind: CmdlineKind::Confirm,
                prompt: label@,
                accelerators: texts(accelerators@),
                confirm_default: default,
                return_mode: Mode::Normal,
                ..cleared(old(self)@)
            }),
    {
        self.clear();
        self.kind = CmdlineKind::Confirm;
        self.prompt = label;
        self.accelerators = accelerators;
        self.confirm_default = default;
        self.return_mode = Mode::Normal;
    }

    /// Forget the label of a prompt or a dialog.
    pub fn clear_prompt(&mut self)
        requires
            old(self).wf(),
        ensures
            final(self).wf(),
            final(self)@ == (LineModel { prompt: Seq::empty(), ..old(self)@ }),
    {
        self.prompt = String::new();
    }

    /// Forget a dialog's buttons.
    pub fn clear_buttons(&mut self)
        requires
            old(self).wf(),
        ensures
            final(self).wf(),
            final(self)@ == (LineModel { accelerators: Seq::empty(), ..old(self)@ }),
    {
        self.accelerators = Vec::new();
        assert(texts(self.accelerators@) =~= Seq::<Seq<char>>::empty());
    }

    /// The answer that a key gives to a dialog.
    pub fn answer(&self, key: Key) -> (r: Option<i64>)
        ensures
            match confirm_answer(self@, key) {
                Some(n) => r is Some && r->0 == if n > i64::MAX {
                    i64::MAX as int
                } else {
                    n
                },
                None => r is None,
            },
    {
        match key.code {
            KeyCode::Esc => Some(0),
            KeyCode::Enter => Some(self.confirm_default),
            KeyCode::Char(c) => {
                if key.ctrl {
                    return if c == 'c' {
                        Some(0)
                    } else {
                        None
                    };
                }
                let pressed = lower_ascii(c);
                let mut one = String::new();
                one.push(pressed);
                assert(one@ =~= seq![pressed]);
                let ghost acc = texts(self.accelerators@);
                let mut i: usize = 0;
                while i < self.accelerators.len()
                    invariant
                        i <= self.accelerators@.len(),
                        acc == texts(self.accelerators@),
                        acc == self@.accelerators,
                        one@ == seq![pressed],
                        button_of(acc, pressed, 0) == button_of(acc, pressed, i as int),
                        pressed == ascii_lower(c),
                        key.code == KeyCode::Char(c),
                        !key.ctrl,
                    decreases self.accelerators@.len() - i,
                {
                    assert(acc[i as int] == self.accelerators@[i as int]@);
                    if same(self.accelerators[i].as_str(), one.as_str()) {
                        return if (i as u64) < (i64::MAX as u64) {
                            Some(i as i64 + 1)
                        } else {
                            Some(i64::MAX)
                        };
                    }
                    i += 1;
                }
                None
            },
            _ => None,
        }
    }

    /// Type a character.
    pub fn insert(&mut self, c: char)
        requires
            old(self).wf(),
        ensures
            final(self).wf(),
            final(self)@ == char_inserted(old(self)@, c),
    {
        self.chars.insert(self.col, c);
        assert(self.col < self.chars.len());
        self.col += 1;
    }

    /// Type a text, without its line breaks.
    pub fn insert_str(&mut self, text: &str)
        requires
            old(self).wf(),
        ensures
            final(self).wf(),
            final(self)@ == str_inserted(old(self)@, text@),
    {
        let v = chars_of(text);
        let mut i: usize = 0;
        assert(text@.take(0) =~= Seq::<char>::empty());
        while i < v.len()
            invariant
                i <= v@.len(),
                v@ == text@,
                self.wf(),
                self@ == str_inserted(old(self)@, text@.take(i as int)),
            decreases v@.len() - i,
        {
            assert(text@.take(i + 1).drop_last() =~= text@.take(i as int));
            if v[i] != '\n' {
                self.insert(v[i]);
            }
            i += 1;
        }
        assert(text@.take(i as int) =~= text@);
    }

    /// Replace the line, with the cursor at its end.
    pub fn set_text(&mut self, text: &str)
        requires
            old(self).wf(),
        ensures
            final(self).wf(),
            final(self)@ == with_line(old(self)@, text@),
    {
        self.chars = chars_of(text);
        self.col = self.chars.len();
    }

    /// The newest command of the history.
    pub fn last_command(&self) -> (r: Option<String>)
        ensures
            crate::buffer::opt_chars(r) == if self@.ex_history.len() > 0 {
                Some(self@.ex_history.last())
            } else {
                None
            },
    {
        let n: usize = self.ex_history.len();
        if n == 0 {
            return None;
        }
        assert(texts(self.ex_history@).last() == self.ex_history@[n - 1]@);
        Some(self.ex_history[n - 1].clone())
    }

    /// The characters of the line.
    pub fn chars(&self) -> (v: &Vec<char>)
        ensures
            v@ == self@.chars,
    {
        &self.chars
    }

    /// Put a text in place of the characters from `a` to `b`, with the cursor after it.
    pub fn replace_span(&mut self, a: usize, b: usize, text: &str)
        requires
            old(self).wf(),
            a <= b <= old(self)@.chars.len(),
        ensures
            final(self).wf(),
            final(self)@ == span_replaced(old(self)@, a as int, b as int, text@),
    {
        let mut v = chars_of(text);
        let mut rest = self.chars.split_off(b);
        self.chars.truncate(a);
        self.chars.append(&mut v);
        self.col = self.chars.len();
        self.chars.append(&mut rest);
        assert(self.chars@ =~= old(self).chars@.take(a as int) + text@ + old(self).chars@.skip(
            b as int,
        ));
    }

    /// Keep the line as it is typed, or bring the kept line back if there is one.
    pub fn keep_typed(&mut self)
        requires
            old(self).wf(),
        ensures
            final(self).wf(),
            final(self)@ == typed_kept(old(self)@),
    {
        match &self.saved {
            None => {
                let mut v: Vec<char> = Vec::new();
                let mut i: usize = 0;
                while i < self.chars.len()
                    invariant
                        *self == *old(self),
                        i <= self.chars@.len(),
                        v@ == self.chars@.take(i as int),
                    decreases self.chars@.len() - i,
                {
                    v.push(self.chars[i]);
                    assert(v@ =~= self.chars@.take(i + 1));
                    i += 1;
                }
                assert(v@ =~= self.chars@);
                self.saved = Some((v, self.col));
            },
            Some((line, col)) => {
                let mut v: Vec<char> = Vec::new();
                let mut i: usize = 0;
                while i < line.len()
                    invariant
                        i <= line@.len(),
                        v@ == line@.take(i as int),
                    decreases line@.len() - i,
                {
                    v.push(line[i]);
                    assert(v@ =~= line@.take(i + 1));
                    i += 1;
                }
                assert(v@ =~= line@);
                let to: usize = *col;
                self.chars = v;
                self.col = to;
            },
        }
    }

    /// Bring the kept line back, if there is one, and keep it no longer.
    pub fn restore_typed(&mut self)
        requires
            old(self).wf(),
        ensures
            final(self).wf(),
            final(self)@ == typed_restored(old(self)@),
    {
        let mut saved: Option<(Vec<char>, usize)> = None;
        core::mem::swap(&mut saved, &mut self.saved);
        if let Some((line, col)) = saved {
            self.chars = line;
            self.col = col;
        }
    }

    /// Keep no line any longer.
    pub fn forget_typed(&mut self)
        requires
            old(self).wf(),
        ensures
            final(self).wf(),
            final(self)@ == (LineModel { saved: None, ..old(self)@ }),
    {
        self.saved = None;
    }

    fn show(&mut self, s: String, idx: usize)
        requires
            old(self).wf(),
            idx < history_of(old(self)@).len(),
            s@ == history_of(old(self)@)[idx as int],
        ensures
            final(self).wf(),
            final(self)@ == entry_shown(old(self)@, idx as int),
    {
        self.chars = chars_of(s.as_str());
        self.col = self.chars.len();
        self.hist_idx = Some(idx);
    }

    /// The history of the line's kind.
    fn active_history(&self) -> (h: Vec<String>)
        ensures
            texts(h@) == history_of(self@),
    {
        match self.kind {
            CmdlineKind::Ex => copy_strings(&self.ex_history),
            CmdlineKind::Search(_) => copy_strings(&self.search_history),
            CmdlineKind::Confirm => {
                let h: Vec<String> = Vec::new();
                assert(texts(h@) =~= Seq::<Seq<char>>::empty());
                h
            },
            CmdlineKind::Prompt => {
                let ghost rings = rings_of(self.prompt_history@);
                if let Some(k) = &self.prompt_key {
                    let mut i: usize = 0;
                    while i < self.prompt_history.len()
                        invariant
                            i <= self.prompt_history@.len(),
                            rings == rings_of(self.prompt_history@),
                            ring_lines(rings, k@, 0) == ring_lines(rings, k@, i as int),
                            rings == self@.prompt_history,
                            self@.prompt_key == Some(k@),
                            self@.kind == CmdlineKind::Prompt,
                        decreases self.prompt_history@.len() - i,
                    {
                        assert(rings[i as int] == self.prompt_history@[i as int]@);
                        if same(self.prompt_history[i].name.as_str(), k.as_str()) {
                            return copy_strings(&self.prompt_history[i].lines);
                        }
                        i += 1;
                    }
                }
                let h: Vec<String> = Vec::new();
                assert(texts(h@) =~= Seq::<Seq<char>>::empty());
                h
            },
        }
    }

    fn recall_prev(&mut self)
        requires
            old(self).wf(),
        ensures
            final(self).wf(),
            final(self)@ == line_edited(old(self)@, LineEdit::HistoryPrev),
    {
        let h = self.active_history();
        let n: usize = h.len();
        assert(n == history_of(self@).len());
        if n == 0 {
            return;
        }
        let idx: usize = match self.hist_idx {
            None => n - 1,
            Some(i) => if i > n {
                n - 1
            } else if i > 0 {
                i - 1
            } else {
                0
            },
        };
        assert(h@[idx as int]@ == texts(h@)[idx as int]);
        self.show(h[idx].clone(), idx);
    }

    fn recall_next(&mut self)
        requires
            old(self).wf(),
        ensures
            final(self).wf(),
            final(self)@ == line_edited(old(self)@, LineEdit::HistoryNext),
    {
        let h = self.active_history();
        let n: usize = h.len();
        assert(n == history_of(self@).len());
        match self.hist_idx {
            Some(i) => {
                if i < n && i + 1 < n {
                    assert(h@[i + 1]@ == texts(h@)[i + 1]);
                    self.show(h[i + 1].clone(), i + 1);
                } else {
                    self.hist_idx = None;
                    self.clear();
                }
            },
            None => {},
        }
    }

    /// Make a named change.
    pub fn edit(&mut self, e: LineEdit)
        requires
            old(self).wf(),
        ensures
            final(self).wf(),
            final(self)@ == line_edited(old(self)@, e),
    {
        match e {
            LineEdit::Backspace => {
                if self.col > 0 {
                    self.col -= 1;
                    let _gone = self.chars.remove(self.col);
                }
            },
            LineEdit::Delete => {
                if self.col < self.chars.len() {
                    let _gone = self.chars.remove(self.col);
                }
            },
            LineEdit::Left => {
                if self.col > 0 {
                    self.col -= 1;
                }
            },
            LineEdit::Right => {
                if self.col < self.chars.len() {
                    self.col += 1;
                }
            },
            LineEdit::ToStart => {
                self.col = 0;
            },
            LineEdit::ToEnd => {
                self.col = self.chars.len();
            },
            LineEdit::HistoryPrev => self.recall_prev(),
            LineEdit::HistoryNext => self.recall_next(),
        }
    }

    /// Add a pattern to the search history.
    pub fn remember_search(&mut self, pattern: &str)
        requires
            old(self).wf(),
        ensures
            final(self).wf(),
            final(self)@ == (LineModel {
                search_history: remembered(old(self)@.search_history, pattern@),
                ..old(self)@
            }),
    {
        remember(&mut self.search_history, pattern);
    }

    /// Add a command to the ex history, without white space around it.
    pub fn remember_ex(&mut self, cmd: &str)
        requires
            old(self).wf(),
        ensures
            final(self).wf(),
            final(self)@ == (LineModel {
                ex_history: if trimmed(cmd@).len() == 0 {
                    old(self)@.ex_history
                } else {
                    remembered(old(self)@.ex_history, trimmed(cmd@))
                },
                ..old(self)@
            }),
    {
        let t = trim(cmd);
        if !t.as_str().is_empty() {
            remember(&mut self.ex_history, t.as_str());
        }
    }

    /// Add a line to the open prompt's history, if it has one, and keep its last `cap` lines.
    pub fn remember_prompt(&mut self, text: &str, cap: usize)
        requires
            old(self).wf(),
        ensures
            final(self).wf(),
            final(self)@ == (LineModel {
                prompt_history: match old(self)@.prompt_key {
                    Some(k) => if text@.len() == 0 {
                        old(self)@.prompt_history
                    } else {
                        ring_remembered(old(self)@.prompt_history, k, text@, cap as nat, 0)
                    },
                    None => old(self)@.prompt_history,
                },
                ..old(self)@
            }),
    {
        let key = match &self.prompt_key {
            Some(k) => k.clone(),
            None => {
                return;
            },
        };
        if text.is_empty() {
            return;
        }
        let ghost rings = rings_of(self.prompt_history@);
        let mut i: usize = 0;
        while i < self.prompt_history.len()
            invariant
                i <= self.prompt_history@.len(),
                *self == *old(self),
                self.wf(),
                rings == rings_of(self.prompt_history@),
                self@.prompt_key == Some(key@),
                text@.len() > 0,
                ring_remembered(rings, key@, text@, cap as nat, 0) == ring_remembered(
                    rings,
                    key@,
                    text@,
                    cap as nat,
                    i as int,
                ),
            decreases self.prompt_history@.len() - i,
        {
            assert(rings[i as int] == self.prompt_history@[i as int]@);
            if same(self.prompt_history[i].name.as_str(), key.as_str()) {
                let ring = &mut self.prompt_history[i];
                remember_capped(&mut ring.lines, text, cap);
                assert(rings_of(self.prompt_history@) =~= ring_remembered(
                    rings,
                    key@,
                    text@,
                    cap as nat,
                    i as int,
                ));
                return;
            }
            i += 1;
        }
        let mut lines: Vec<String> = Vec::new();
        lines.push(text.to_owned());
        assert(texts(lines@) =~= seq![text@]);
        keep_newest(&mut lines, cap);
        self.prompt_history.push(Ring { name: key, lines });
        assert(rings_of(self.prompt_history@) =~= rings.push(
            RingModel { name: key@, lines: newest(seq![text@], cap as nat) },
        ));
    }

    /// The prompt character of the line's kind.
    pub fn cmdline_prefix(&self) -> (c: char)
        ensures
            c == prefix_of(self@.kind),
    {
        match self.kind {
            CmdlineKind::Ex => ':',
            CmdlineKind::Search(dir) => dir.prefix(),
            CmdlineKind::Prompt | CmdlineKind::Confirm => ' ',
        }
    }

    /// The label of an open prompt or dialog; nothing for another kind.
    pub fn cmdline_prompt(&self) -> (s: String)
        ensures
            s@ == match self@.kind {
                CmdlineKind::Prompt => self@.prompt,
                CmdlineKind::Confirm => self@.prompt,
                _ => Seq::empty(),
            },
    {
        match self.kind {
            CmdlineKind::Prompt | CmdlineKind::Confirm => self.prompt.clone(),
            _ => String::new(),
        }
    }

    /// How many columns stand before the line: those of the label, or those of the
    /// prompt character where there is no label.
    pub fn cmdline_prompt_width(&self) -> (n: usize)
        ensures
            n == match self@.kind {
                CmdlineKind::Prompt => columns(
                    if self@.prompt.len() == 0 {
                        seq![' ']
                    } else {
                        self@.prompt
                    },
                ),
                CmdlineKind::Confirm => columns(
                    if self@.prompt.len() == 0 {
                        seq![' ']
                    } else {
                        self@.prompt
                    },
                ),
                k => columns(seq![prefix_of(k)]),
            },
    {
        let label = self.cmdline_prompt();
        if label.as_str().is_empty() {
            let mut s = String::new();
            let c = self.cmdline_prefix();
            s.push(c);
            assert(s@ =~= seq![c]);
            display_width(s.as_str())
        } else {
            display_width(label.as_str())
        }
    }
}

fn remember_capped(h: &mut Vec<String>, s: &str, cap: usize)
    ensures
        texts(final(h)@) == if texts(old(h)@).len() > 0 && texts(old(h)@).last() == s@ {
            texts(old(h)@)
        } else {
            newest(texts(old(h)@).push(s@), cap as nat)
        },
{
    let n: usize = h.len();
    if n > 0 {
        assert(texts(h@).last() == h@[n - 1]@);
        if same(h[n - 1].as_str(), s) {
            return;
        }
    }
    h.push(s.to_owned());
    assert(texts(h@) =~= texts(old(h)@).push(s@));
    keep_newest(h, cap);
}

/// Keep the last `n` entries.
pub fn keep_newest(h: &mut Vec<String>, n: usize)
    ensures
        texts(final(h)@) == newest(texts(old(h)@), n as nat),
{
    let ghost all = texts(h@);
    assert(all.skip(0) =~= all);
    while h.len() > n
        invariant
            h@.len() <= all.len(),
            texts(h@) == all.skip(all.len() - h@.len()),
            all.len() > n ==> h@.len() >= n,
            all.len() <= n ==> h@.len() == all.len(),
        decreases h@.len(),
    {
        let ghost before = h@;
        let _oldest = h.remove(0);
        assert(texts(h@) =~= texts(before).skip(1));
        assert(texts(h@) =~= all.skip(all.len() - h@.len()));
    }
}

fn lower_ascii(c: char) -> (r: char)
    ensures
        r == ascii_lower(c),
{
    if 'A' <= c && c <= 'Z' {
        ((c as u32 as u8) + 32) as char
    } else {
        c
    }
}

/// A character typed and taken back leaves the line as it was.
pub proof fn backspace_undoes_insert(l: LineModel, c: char)
    requires
        line_ok(l),
    ensures
        line_edited(char_inserted(l, c), LineEdit::Backspace) == l,
{
    assert(l.chars.insert(l.col, c).remove(l.col) =~= l.chars);
}

/// No change of the line moves its cursor outside it.
pub proof fn edits_keep_the_cursor_inside(l: LineModel, e: LineEdit)
    requires
        line_ok(l),
    ensures
        line_ok(line_edited(l, e)),
{
}

} // verus!
