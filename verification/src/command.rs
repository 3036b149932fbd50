//! The normal-mode and visual-mode command grammar.
//!
//! [`parse_step`] decides whether a key extends, completes or aborts a command.
//! It reads the mode, the keys so far and the new key, and nothing else, so the
//! same function serves the editor and the keymap matcher ([`command_status`]).

use vstd::prelude::*;

use crate::input::{typed, Key, KeyCode};
use crate::mode::{selecting, Mode};
use crate::search::SearchDir;
use crate::strings::{digit, is_digit, is_letter, letter};
use crate::layout::{SplitDir, WinDir};

verus! {

/// A window command: the key after `<C-w>`.
#[derive(Debug, Clone, Copy, PartialEq, Eq, Structural)]
pub enum WindowCmd {
    /// Split the focused window.
    Split(SplitDir),
    /// Move the focus to the window in that direction.
    FocusDir(WinDir),
    /// Move the focus to the next window (`true`) or the one before.
    FocusCycle(bool),
    /// Close the focused window, unless it is the last.
    Close,
    /// Keep only the focused window.
    Only,
    /// Close the focused window, or quit if it is the last.
    Quit,
    /// Move the focused window to a new tab page.
    ToNewTab,
    /// Make all windows equal.
    Equalize,
    /// Grow (`true`) or shrink the focused window's height by the count.
    ResizeHeight(bool),
    /// Grow (`true`) or shrink the focused window's width by the count.
    ResizeWidth(bool),
    /// Give the focused window all the height.
    MaxHeight,
    /// Give the focused window all the width.
    MaxWidth,
}

/// The window command that a character stands for after `<C-w>`.
pub open spec fn window_char(c: char) -> Option<WindowCmd> {
    match c {
        's' => Some(WindowCmd::Split(SplitDir::Horizontal)),
        'v' => Some(WindowCmd::Split(SplitDir::Vertical)),
        'w' => Some(WindowCmd::FocusCycle(true)),
        'W' => Some(WindowCmd::FocusCycle(false)),
        'h' => Some(WindowCmd::FocusDir(WinDir::Left)),
        'j' => Some(WindowCmd::FocusDir(WinDir::Down)),
        'k' => Some(WindowCmd::FocusDir(WinDir::Up)),
        'l' => Some(WindowCmd::FocusDir(WinDir::Right)),
        'c' => Some(WindowCmd::Close),
        'o' => Some(WindowCmd::Only),
        'q' => Some(WindowCmd::Quit),
        'T' => Some(WindowCmd::ToNewTab),
        '=' => Some(WindowCmd::Equalize),
        '+' => Some(WindowCmd::ResizeHeight(true)),
        '-' => Some(WindowCmd::ResizeHeight(false)),
        '>' => Some(WindowCmd::ResizeWidth(true)),
        '<' => Some(WindowCmd::ResizeWidth(false)),
        '_' => Some(WindowCmd::MaxHeight),
        '|' => Some(WindowCmd::MaxWidth),
        _ => None,
    }
}

/// The window command that a key stands for after `<C-w>`. With Ctrl held only
/// `w` counts, and means what it means alone.
pub open spec fn window_key(key: Key) -> Option<WindowCmd> {
    if key.ctrl {
        if key.code == KeyCode::Char('w') {
            Some(WindowCmd::FocusCycle(true))
        } else {
            None
        }
    } else {
        match typed(key) {
            Some(c) => window_char(c),
            None => None,
        }
    }
}

/// Resolve the key after `<C-w>`.
pub fn window_command(key: Key) -> (r: Option<WindowCmd>)
    ensures
        r == window_key(key),
{
    if key.ctrl {
        return match key.code {
            KeyCode::Char('w') => Some(WindowCmd::FocusCycle(true)),
            _ => None,
        };
    }
    match key.as_char() {
        None => None,
        Some(c) => match c {
            's' => Some(WindowCmd::Split(SplitDir::Horizontal)),
            'v' => Some(WindowCmd::Split(SplitDir::Vertical)),
            'w' => Some(WindowCmd::FocusCycle(true)),
            'W' => Some(WindowCmd::FocusCycle(false)),
            'h' => Some(WindowCmd::FocusDir(WinDir::Left)),
            'j' => Some(WindowCmd::FocusDir(WinDir::Down)),
            'k' => Some(WindowCmd::FocusDir(WinDir::Up)),
            'l' => Some(WindowCmd::FocusDir(WinDir::Right)),
            'c' => Some(WindowCmd::Close),
            'o' => Some(WindowCmd::Only),
            'q' => Some(WindowCmd::Quit),
            'T' => Some(WindowCmd::ToNewTab),
            '=' => Some(WindowCmd::Equalize),
            '+' => Some(WindowCmd::ResizeHeight(true)),
            '-' => Some(WindowCmd::ResizeHeight(false)),
            '>' => Some(WindowCmd::ResizeWidth(true)),
            '<' => Some(WindowCmd::ResizeWidth(false)),
            '_' => Some(WindowCmd::MaxHeight),
            '|' => Some(WindowCmd::MaxWidth),
            _ => None,
        },
    }
}

/// The four find-char motions. `f`/`t` search forward, `F`/`T` backward; `t`/`T`
/// stop one short of the target.
#[derive(Debug, Clone, Copy, PartialEq, Eq, Structural)]
pub enum FindKind {
    Find,
    Till,
    FindBack,
    TillBack,
}

pub open spec fn find_char_kind(c: char) -> Option<FindKind> {
    match c {
        'f' => Some(FindKind::Find),
        't' => Some(FindKind::Till),
        'F' => Some(FindKind::FindBack),
        'T' => Some(FindKind::TillBack),
        _ => None,
    }
}

pub open spec fn find_forward(k: FindKind) -> bool {
    k == FindKind::Find || k == FindKind::Till
}

pub open spec fn find_till(k: FindKind) -> bool {
    k == FindKind::Till || k == FindKind::TillBack
}

pub open spec fn find_reversed(k: FindKind) -> FindKind {
    match k {
        FindKind::Find => FindKind::FindBack,
        FindKind::FindBack => FindKind::Find,
        FindKind::Till => FindKind::TillBack,
        FindKind::TillBack => FindKind::Till,
    }
}

impl FindKind {
    pub fn from_key(c: char) -> (r: Option<FindKind>)
        ensures
            r == find_char_kind(c),
    {
        match c {
            'f' => Some(FindKind::Find),
            't' => Some(FindKind::Till),
            'F' => Some(FindKind::FindBack),
            'T' => Some(FindKind::TillBack),
            _ => None,
        }
    }

    /// `f`/`t` go forward (and take in their target as an operator's motion).
    pub fn forward(self) -> (r: bool)
        ensures
            r == find_forward(self),
    {
        matches!(self, FindKind::Find | FindKind::Till)
    }

    /// `t`/`T` stop short of the target; `f`/`F` land on it.
    pub fn till(self) -> (r: bool)
        ensures
            r == find_till(self),
    {
        matches!(self, FindKind::Till | FindKind::TillBack)
    }

    /// The kind that `,` repeats: the direction turned round.
    pub fn reversed(self) -> (r: FindKind)
        ensures
            r == find_reversed(self),
    {
        match self {
            FindKind::Find => FindKind::FindBack,
            FindKind::FindBack => FindKind::Find,
            FindKind::Till => FindKind::TillBack,
            FindKind::TillBack => FindKind::Till,
        }
    }
}

/// Reversing a find twice gives it back; reversing it turns its direction and
/// keeps whether it stops short.
pub proof fn find_reversed_twice(k: FindKind)
    ensures
        find_reversed(find_reversed(k)) == k,
        find_forward(find_reversed(k)) == !find_forward(k),
        find_till(find_reversed(k)) == find_till(k),
{
}

/// A mark jump: to the mark's exact position, or to the first character of its
/// line that is not blank.
#[derive(Debug, Clone, Copy, PartialEq, Eq, Structural)]
pub enum MarkJumpKind {
    Exact,
    Line,
}

/// A cursor motion.
#[derive(Debug, Clone, Copy, PartialEq, Eq, Structural)]
pub enum Motion {
    Left,
    Right,
    LineStart,
    FirstNonBlank,
    LineEnd,
    Down,
    Up,
    /// `G`: to the line of the count, else the last.
    GotoLine,
    /// `gg`: to the line of the count, else the first.
    GotoTop,
    Word,
    BackWord,
    EndWord,
    Find(FindKind, char),
    /// `;` repeats the last find, `,` reverses it.
    FindRepeat { reverse: bool },
    MarkJumpExact(char),
    MarkJumpLine(char),
}

/// A text object: what `i` and `a` select.
#[derive(Debug, Clone, Copy, PartialEq, Eq, Structural)]
pub enum ObjectKind {
    /// A word; `true` for one that white space alone ends.
    Word(bool),
    /// The text between an opening and a closing delimiter.
    Pair(char, char),
    Quote(char),
    Sentence,
    Paragraph,
}

pub open spec fn object_char(c: char) -> Option<ObjectKind> {
    match c {
        'w' => Some(ObjectKind::Word(false)),
        'W' => Some(ObjectKind::Word(true)),
        '(' => Some(ObjectKind::Pair('(', ')')),
        ')' => Some(ObjectKind::Pair('(', ')')),
        'b' => Some(ObjectKind::Pair('(', ')')),
        '{' => Some(ObjectKind::Pair('{', '}')),
        '}' => Some(ObjectKind::Pair('{', '}')),
        'B' => Some(ObjectKind::Pair('{', '}')),
        '[' => Some(ObjectKind::Pair('[', ']')),
        ']' => Some(ObjectKind::Pair('[', ']')),
        '<' => Some(ObjectKind::Pair('<', '>')),
        '>' => Some(ObjectKind::Pair('<', '>')),
        '"' => Some(ObjectKind::Quote('"')),
        '\'' => Some(ObjectKind::Quote('\'')),
        '`' => Some(ObjectKind::Quote('`')),
        's' => Some(ObjectKind::Sentence),
        'p' => Some(ObjectKind::Paragraph),
        _ => None,
    }
}

impl ObjectKind {
    pub fn from_key(c: char) -> (r: Option<ObjectKind>)
        ensures
            r == object_char(c),
    {
        match c {
            'w' => Some(ObjectKind::Word(false)),
            'W' => Some(ObjectKind::Word(true)),
            '(' | ')' | 'b' => Some(ObjectKind::Pair('(', ')')),
            '{' | '}' | 'B' => Some(ObjectKind::Pair('{', '}')),
            '[' | ']' => Some(ObjectKind::Pair('[', ']')),
            '<' | '>' => Some(ObjectKind::Pair('<', '>')),
            '"' | '\'' | '`' => Some(ObjectKind::Quote(c)),
            's' => Some(ObjectKind::Sentence),
            'p' => Some(ObjectKind::Paragraph),
            _ => None,
        }
    }
}

/// A command of a single key: neither a motion, an operator, a text object nor
/// `r{char}`.
#[derive(Debug, Clone, Copy, PartialEq, Eq, Structural)]
pub enum NormalCmd {
    InsertBefore,
    InsertLineStart,
    InsertAfter,
    InsertLineEnd,
    OpenBelow,
    OpenAbove,
    DeleteUnder,
    DeleteBefore,
    DeleteToEol,
    ChangeToEol,
    SubstituteChar,
    EnterReplace,
    PasteAfter,
    PasteBefore,
    Undo,
    Redo,
    Join,
    ToggleCase,
    EnterVisual,
    EnterVisualLine,
    EnterCommand,
    EnterSearch(SearchDir),
    SearchNext,
    SearchPrev,
    /// `*` and `#`; `g*` and `g#` drop the word boundaries.
    SearchWord { dir: SearchDir, whole_word: bool },
    /// Half a page down (`true`) or up.
    ScrollHalf(bool),
    /// A page down (`true`) or up.
    ScrollPage(bool),
    /// A line down (`true`) or up.
    ScrollLine(bool),
    AltBuffer,
    TabNext(Option<usize>),
    TabPrev(Option<usize>),
    DotRepeat,
}

/// What the next key of a partly typed command means.
#[derive(Debug, Clone, Copy, PartialEq, Eq, Structural)]
pub enum Stage {
    /// A count, a command, an operator or a motion comes next.
    Start,
    /// After `g`.
    GPending,
    /// After `f`/`t`/`F`/`T`: the target comes next.
    FindPending(FindKind),
    /// After `r`: the replacement comes next.
    ReplacePending,
    /// After `i`/`a`: the object comes next.
    TextObjectPending(char),
    /// After `<C-w>`.
    WindowPending,
    /// After `"`: the register's name comes next.
    RegisterPending,
    /// After `m`: the mark's name comes next.
    MarkSetPending,
    /// After `` ` `` or `'`: the mark's name comes next.
    MarkJumpPending(MarkJumpKind),
}

/// A command that is not complete yet.
#[derive(Debug, Clone, Copy)]
pub struct PendingCommand {
    /// The count after an operator, or the only one.
    pub count: Option<usize>,
    /// The count before an operator.
    pub op_count: Option<usize>,
    /// The operator that awaits its motion.
    pub operator: Option<char>,
    /// The register that a leading `"x` selects.
    pub register: Option<char>,
    /// What the next key continues.
    pub stage: Stage,
}

/// Nothing typed yet.
pub open spec fn clean_command() -> PendingCommand {
    PendingCommand {
        count: None,
        op_count: None,
        operator: None,
        register: None,
        stage: Stage::Start,
    }
}

impl Default for PendingCommand {
    fn default() -> (r: Self)
        ensures
            r == clean_command(),
    {
        PendingCommand {
            count: None,
            op_count: None,
            operator: None,
            register: None,
            stage: Stage::Start,
        }
    }
}

impl PendingCommand {
    /// At a command boundary: the next key starts a new command.
    pub fn is_clean(&self) -> (r: bool)
        ensures
            r == (*self == clean_command()),
    {
        self.count.is_none() && self.op_count.is_none() && self.operator.is_none()
            && self.register.is_none() && self.stage == Stage::Start
    }
}

/// A complete command.
#[derive(Debug, Clone, Copy)]
pub enum ResolvedCommand {
    /// A motion: plain movement, or the range of the pending operator.
    Motion(Motion),
    /// A doubled operator over `count` lines.
    DoubledOperator(char),
    /// An operator that takes a search as its motion.
    OperatorSearch { op: char, dir: SearchDir },
    /// A text object, after an operator or in visual mode.
    TextObject { ia: char, kind: ObjectKind },
    /// `r{char}`.
    Replace(char),
    /// `m{mark}`.
    SetMark(char),
    /// An operator on the selection.
    VisualOperate(char),
    /// A command of a single key.
    Normal(NormalCmd),
    /// A window command.
    Window(WindowCmd),
}

/// What a key does to a pending command.
#[derive(Debug, Clone, Copy)]
pub enum ParseStep {
    /// More keys are needed.
    Prefix(PendingCommand),
    /// The command is complete.
    Complete(ResolvedCommand),
    /// `<Esc>`: drop what is pending and leave visual mode.
    Cancel,
    /// Drop what is pending.
    Reset,
    /// No such object or target: in visual mode keep the selection, else drop what
    /// is pending.
    AbortObject,
}

/// An operator with the register that was named for it.
#[derive(Debug, Clone, Copy, PartialEq, Eq, Structural)]
pub struct NamedOperator {
    pub op: char,
    pub register: Option<char>,
}

/// The registers that `"` can select.
pub open spec fn register_name(c: char) -> bool {
    letter(c) || digit(c) || c == '-' || c == '_' || c == '"' || c == '%' || c == '/' || c == ':'
        || c == '.' || c == '+' || c == '*'
}

pub fn is_register_name(c: char) -> (r: bool)
    ensures
        r == register_name(c),
{
    is_letter(c) || is_digit(c) || matches!(c, '-' | '_' | '"' | '%' | '/' | ':' | '.' | '+' | '*')
}

/// The registers that refuse a yank or a delete.
pub open spec fn readonly_register(c: char) -> bool {
    c == '/' || c == '.' || c == '%' || c == ':' || c == '=' || c == '#'
}

pub fn is_readonly_register(c: char) -> (r: bool)
    ensures
        r == readonly_register(c),
{
    matches!(c, '/' | '.' | '%' | ':' | '=' | '#')
}

/// The registers that the system clipboard backs.
pub open spec fn clipboard_register(reg: Option<char>) -> bool {
    reg == Some('+') || reg == Some('*')
}

pub fn is_clipboard_register(reg: Option<char>) -> (r: bool)
    ensures
        r == clipboard_register(reg),
{
    matches!(reg, Some('+') | Some('*'))
}

/// The marks that `m` can set.
pub open spec fn settable_mark(c: char) -> bool {
    letter(c)
}

pub fn is_settable_mark(c: char) -> (r: bool)
    ensures
        r == settable_mark(c),
{
    is_letter(c)
}

/// The marks that `` ` `` and `'` can jump to: those that can be set, and those
/// that the editor sets by itself.
pub open spec fn jumpable_mark(c: char) -> bool {
    settable_mark(c) || c == '`' || c == '\'' || c == '.' || c == '^' || c == '[' || c == ']' || c
        == '<' || c == '>'
}

pub fn is_jumpable_mark(c: char) -> (r: bool)
    ensures
        r == jumpable_mark(c),
{
    is_settable_mark(c) || matches!(c, '`' | '\'' | '.' | '^' | '[' | ']' | '<' | '>')
}

/// A digit that belongs to a count: any but a leading zero.
pub open spec fn count_digit(key: Key, leading: bool) -> bool {
    match typed(key) {
        Some(c) => digit(c) && !(c == '0' && leading),
        None => false,
    }
}

/// How many keys of `keys`, from `i` on, belong to a count.
pub open spec fn count_len(keys: Seq<Key>, i: int) -> nat
    decreases keys.len() - i,
{
    if 0 <= i < keys.len() && count_digit(keys[i], i == 0) {
        1 + count_len(keys, i + 1)
    } else {
        0
    }
}

/// The length of the count that a key stream begins with.
pub fn leading_count_len(keys: &[Key]) -> (len: usize)
    ensures
        len == count_len(keys@, 0),
        len <= keys@.len(),
        forall|i: int| 0 <= i < len ==> count_digit(#[trigger] keys@[i], i == 0),
        len < keys@.len() ==> !count_digit(keys@[len as int], len == 0),
{
    let mut len: usize = 0;
    while len < keys.len()
        invariant
            len <= keys@.len(),
            count_len(keys@, 0) == len + count_len(keys@, len as int),
            forall|i: int| 0 <= i < len ==> count_digit(#[trigger] keys@[i], i == 0),
        decreases keys@.len() - len,
    {
        match keys[len].as_char() {
            Some(c) => {
                if is_digit(c) && !(c == '0' && len == 0) {
                    len += 1;
                } else {
                    return len;
                }
            },
            None => {
                return len;
            },
        }
    }
    len
}

/// A motion that stores where it came from.
pub open spec fn jump_motion(m: Motion) -> bool {
    m is GotoTop || m is GotoLine || m is MarkJumpExact || m is MarkJumpLine
}

pub fn is_jump_motion(m: Motion) -> (r: bool)
    ensures
        r == jump_motion(m),
{
    matches!(
        m,
        Motion::GotoTop | Motion::GotoLine | Motion::MarkJumpExact(_) | Motion::MarkJumpLine(_)
    )
}

/// The motion of a character.
pub open spec fn motion_char(c: char) -> Option<Motion> {
    match c {
        'h' => Some(Motion::Left),
        'l' => Some(Motion::Right),
        ' ' => Some(Motion::Right),
        '0' => Some(Motion::LineStart),
        '^' => Some(Motion::FirstNonBlank),
        '$' => Some(Motion::LineEnd),
        'j' => Some(Motion::Down),
        '\r' => Some(Motion::Down),
        'k' => Some(Motion::Up),
        'G' => Some(Motion::GotoLine),
        'w' => Some(Motion::Word),
        'W' => Some(Motion::Word),
        'b' => Some(Motion::BackWord),
        'B' => Some(Motion::BackWord),
        'e' => Some(Motion::EndWord),
        'E' => Some(Motion::EndWord),
        ';' => Some(Motion::FindRepeat { reverse: false }),
        ',' => Some(Motion::FindRepeat { reverse: true }),
        _ => None,
    }
}

/// The motion of a key: that of the character it types, or that of a named key.
pub open spec fn motion_key(key: Key) -> Option<Motion> {
    match key.code {
        KeyCode::Left => Some(Motion::Left),
        KeyCode::Backspace => Some(Motion::Left),
        KeyCode::Right => Some(Motion::Right),
        KeyCode::Home => Some(Motion::LineStart),
        KeyCode::End => Some(Motion::LineEnd),
        KeyCode::Down => Some(Motion::Down),
        KeyCode::Up => Some(Motion::Up),
        _ => match typed(key) {
            Some(c) => motion_char(c),
            None => None,
        },
    }
}

/// Map a key to its motion. `f`/`t`/`F`/`T` open a stage of their own, and `gg` is
/// the `g` stage's.
pub fn classify_motion(key: Key) -> (r: Option<Motion>)
    ensures
        r == motion_key(key),
{
    match key.code {
        KeyCode::Left | KeyCode::Backspace => Some(Motion::Left),
        KeyCode::Right => Some(Motion::Right),
        KeyCode::Home => Some(Motion::LineStart),
        KeyCode::End => Some(Motion::LineEnd),
        KeyCode::Down => Some(Motion::Down),
        KeyCode::Up => Some(Motion::Up),
        _ => match key.as_char() {
            None => None,
            Some(c) => match c {
                'h' => Some(Motion::Left),
                'l' | ' ' => Some(Motion::Right),
                '0' => Some(Motion::LineStart),
                '^' => Some(Motion::FirstNonBlank),
                '$' => Some(Motion::LineEnd),
                'j' | '\r' => Some(Motion::Down),
                'k' => Some(Motion::Up),
                'G' => Some(Motion::GotoLine),
                'w' | 'W' => Some(Motion::Word),
                'b' | 'B' => Some(Motion::BackWord),
                'e' | 'E' => Some(Motion::EndWord),
                ';' => Some(Motion::FindRepeat { reverse: false }),
                ',' => Some(Motion::FindRepeat { reverse: true }),
                _ => None,
            },
        },
    }
}

/// A count with one more digit, held at the largest number there is.
pub open spec fn count_push(count: Option<usize>, c: char) -> usize {
    let n = match count {
        Some(n) => n as int,
        None => 0,
    } * 10 + (c as u32 - '0' as u32);
    if n <= usize::MAX {
        n as usize
    } else {
        usize::MAX
    }
}

/// The single-key command of a Ctrl key.
pub open spec fn ctrl_key(code: KeyCode) -> Option<NormalCmd> {
    match code {
        KeyCode::Char('d') => Some(NormalCmd::ScrollHalf(true)),
        KeyCode::Char('u') => Some(NormalCmd::ScrollHalf(false)),
        KeyCode::Char('f') => Some(NormalCmd::ScrollPage(true)),
        KeyCode::Char('b') => Some(NormalCmd::ScrollPage(false)),
        KeyCode::Char('e') => Some(NormalCmd::ScrollLine(true)),
        KeyCode::Char('y') => Some(NormalCmd::ScrollLine(false)),
        KeyCode::Char('r') => Some(NormalCmd::Redo),
        KeyCode::Char('^') => Some(NormalCmd::AltBuffer),
        KeyCode::Char('6') => Some(NormalCmd::AltBuffer),
        _ => None,
    }
}

/// What a character does to the selection, where visual mode has its own meaning
/// for it.
pub open spec fn visual_char(c: char) -> Option<ResolvedCommand> {
    match c {
        'd' => Some(ResolvedCommand::VisualOperate('d')),
        'x' => Some(ResolvedCommand::VisualOperate('d')),
        'y' => Some(ResolvedCommand::VisualOperate('y')),
        'c' => Some(ResolvedCommand::VisualOperate('c')),
        's' => Some(ResolvedCommand::VisualOperate('c')),
        '=' => Some(ResolvedCommand::VisualOperate('=')),
        'v' => Some(ResolvedCommand::Normal(NormalCmd::EnterVisual)),
        'V' => Some(ResolvedCommand::Normal(NormalCmd::EnterVisualLine)),
        ':' => Some(ResolvedCommand::Normal(NormalCmd::EnterCommand)),
        _ => None,
    }
}

/// The single-key command of a character; after `g` a word search drops its
/// boundaries.
pub open spec fn normal_char(c: char, gpending: bool) -> Option<NormalCmd> {
    match c {
        'i' => Some(NormalCmd::InsertBefore),
        'I' => Some(NormalCmd::InsertLineStart),
        'a' => Some(NormalCmd::InsertAfter),
        'A' => Some(NormalCmd::InsertLineEnd),
        'o' => Some(NormalCmd::OpenBelow),
        'O' => Some(NormalCmd::OpenAbove),
        'x' => Some(NormalCmd::DeleteUnder),
        'X' => Some(NormalCmd::DeleteBefore),
        'D' => Some(NormalCmd::DeleteToEol),
        'C' => Some(NormalCmd::ChangeToEol),
        's' => Some(NormalCmd::SubstituteChar),
        'R' => Some(NormalCmd::EnterReplace),
        'p' => Some(NormalCmd::PasteAfter),
        'P' => Some(NormalCmd::PasteBefore),
        '.' => Some(NormalCmd::DotRepeat),
        'u' => Some(NormalCmd::Undo),
        'J' => Some(NormalCmd::Join),
        '~' => Some(NormalCmd::ToggleCase),
        'v' => Some(NormalCmd::EnterVisual),
        'V' => Some(NormalCmd::EnterVisualLine),
        ':' => Some(NormalCmd::EnterCommand),
        '/' => Some(NormalCmd::EnterSearch(SearchDir::Forward)),
        '?' => Some(NormalCmd::EnterSearch(SearchDir::Backward)),
        'n' => Some(NormalCmd::SearchNext),
        'N' => Some(NormalCmd::SearchPrev),
        '*' => Some(NormalCmd::SearchWord { dir: SearchDir::Forward, whole_word: !gpending }),
        '#' => Some(NormalCmd::SearchWord { dir: SearchDir::Backward, whole_word: !gpending }),
        _ => None,
    }
}

/// The characters that are operators.
pub open spec fn operator_char(c: char) -> bool {
    c == 'd' || c == 'c' || c == 'y' || c == '='
}

/// `p` with operator `op` armed: its count moves before the operator.
pub open spec fn with_operator(p: PendingCommand, op: char) -> PendingCommand {
    PendingCommand {
        count: None,
        op_count: p.count,
        operator: Some(op),
        register: p.register,
        stage: Stage::Start,
    }
}

/// What a key that is no count, prefix or motion does.
pub open spec fn command_step(
    mode: Mode,
    p: PendingCommand,
    key: Key,
    gpending: bool,
) -> ParseStep {
    let c = typed(key);
    if p.operator is Some {
        let op = p.operator->0;
        if c == Some(op) {
            ParseStep::Complete(ResolvedCommand::DoubledOperator(op))
        } else if c == Some('/') {
            ParseStep::Complete(ResolvedCommand::OperatorSearch { op, dir: SearchDir::Forward })
        } else if c == Some('?') {
            ParseStep::Complete(ResolvedCommand::OperatorSearch { op, dir: SearchDir::Backward })
        } else {
            ParseStep::Reset
        }
    } else if key.ctrl {
        if key.code == KeyCode::Char('w') && !selecting(mode) {
            ParseStep::Prefix(PendingCommand { stage: Stage::WindowPending, ..p })
        } else {
            match ctrl_key(key.code) {
                Some(n) => ParseStep::Complete(ResolvedCommand::Normal(n)),
                None => ParseStep::Reset,
            }
        }
    } else if key.code == KeyCode::PageDown {
        ParseStep::Complete(ResolvedCommand::Normal(NormalCmd::ScrollHalf(true)))
    } else if key.code == KeyCode::PageUp {
        ParseStep::Complete(ResolvedCommand::Normal(NormalCmd::ScrollHalf(false)))
    } else if c is None {
        ParseStep::Reset
    } else if selecting(mode) && visual_char(c->0) is Some {
        ParseStep::Complete(visual_char(c->0)->0)
    } else if operator_char(c->0) {
        ParseStep::Prefix(with_operator(p, c->0))
    } else if c->0 == 'r' {
        ParseStep::Prefix(PendingCommand { stage: Stage::ReplacePending, ..p })
    } else {
        match normal_char(c->0, gpending) {
            Some(n) => ParseStep::Complete(ResolvedCommand::Normal(n)),
            None => ParseStep::Reset,
        }
    }
}

/// What the argument key of an argument stage does.
pub open spec fn argument_step(p: PendingCommand, key: Key) -> ParseStep {
    let c = typed(key);
    match p.stage {
        Stage::ReplacePending => match c {
            Some(c) => ParseStep::Complete(ResolvedCommand::Replace(c)),
            None => ParseStep::Reset,
        },
        Stage::FindPending(kind) => match c {
            Some(c) => ParseStep::Complete(ResolvedCommand::Motion(Motion::Find(kind, c))),
            None => ParseStep::AbortObject,
        },
        Stage::TextObjectPending(ia) => if c is Some && object_char(c->0) is Some {
            ParseStep::Complete(ResolvedCommand::TextObject { ia, kind: object_char(c->0)->0 })
        } else {
            ParseStep::AbortObject
        },
        Stage::WindowPending => match window_key(key) {
            Some(cmd) => ParseStep::Complete(ResolvedCommand::Window(cmd)),
            None => ParseStep::Reset,
        },
        Stage::RegisterPending => if c is Some && register_name(c->0) {
            ParseStep::Prefix(PendingCommand { register: c, stage: Stage::Start, ..p })
        } else {
            ParseStep::Reset
        },
        Stage::MarkSetPending => match c {
            Some(c) => ParseStep::Complete(ResolvedCommand::SetMark(c)),
            None => ParseStep::Reset,
        },
        Stage::MarkJumpPending(kind) => if c is Some && jumpable_mark(c->0) {
            ParseStep::Complete(
                ResolvedCommand::Motion(
                    match kind {
                        MarkJumpKind::Exact => Motion::MarkJumpExact(c->0),
                        MarkJumpKind::Line => Motion::MarkJumpLine(c->0),
                    },
                ),
            )
        } else {
            ParseStep::Reset
        },
        _ => ParseStep::Reset,
    }
}

/// What a key does where a command, a count, a prefix or a motion can begin.
pub open spec fn open_step(mode: Mode, p: PendingCommand, key: Key) -> ParseStep {
    let c = typed(key);
    let g = p.stage == Stage::GPending;
    if count_digit(key, p.count is None) {
        ParseStep::Prefix(PendingCommand { count: Some(count_push(p.count, c->0)), ..p })
    } else if !g && p.operator is None && c == Some('"') {
        ParseStep::Prefix(PendingCommand { stage: Stage::RegisterPending, ..p })
    } else if !g && p.operator is None && c == Some('m') {
        ParseStep::Prefix(PendingCommand { stage: Stage::MarkSetPending, ..p })
    } else if g && c == Some('g') {
        ParseStep::Complete(ResolvedCommand::Motion(Motion::GotoTop))
    } else if g && c == Some('t') {
        ParseStep::Complete(ResolvedCommand::Normal(NormalCmd::TabNext(p.count)))
    } else if g && c == Some('T') {
        ParseStep::Complete(ResolvedCommand::Normal(NormalCmd::TabPrev(p.count)))
    } else if !g && c == Some('g') {
        ParseStep::Prefix(PendingCommand { stage: Stage::GPending, ..p })
    } else if (p.operator is Some || selecting(mode)) && (c == Some('i') || c == Some('a')) {
        ParseStep::Prefix(PendingCommand { stage: Stage::TextObjectPending(c->0), ..p })
    } else if c is Some && find_char_kind(c->0) is Some {
        ParseStep::Prefix(
            PendingCommand { stage: Stage::FindPending(find_char_kind(c->0)->0), ..p },
        )
    } else if !g && c == Some('`') {
        ParseStep::Prefix(
            PendingCommand { stage: Stage::MarkJumpPending(MarkJumpKind::Exact), ..p },
        )
    } else if !g && c == Some('\'') {
        ParseStep::Prefix(
            PendingCommand { stage: Stage::MarkJumpPending(MarkJumpKind::Line), ..p },
        )
    } else if !g && motion_key(key) is Some {
        ParseStep::Complete(ResolvedCommand::Motion(motion_key(key)->0))
    } else {
        command_step(mode, p, key, g)
    }
}

/// The grammar: what a key does to a pending command.
pub open spec fn step(mode: Mode, p: PendingCommand, key: Key) -> ParseStep {
    if p.stage == Stage::ReplacePending {
        argument_step(p, key)
    } else if key.code == KeyCode::Esc {
        ParseStep::Cancel
    } else if p.stage == Stage::Start || p.stage == Stage::GPending {
        open_step(mode, p, key)
    } else {
        argument_step(p, key)
    }
}

fn parse_argument(pending: &PendingCommand, key: Key) -> (r: ParseStep)
    ensures
        r == argument_step(*pending, key),
{
    match pending.stage {
        Stage::ReplacePending => match key.as_char() {
            Some(c) => ParseStep::Complete(ResolvedCommand::Replace(c)),
            None => ParseStep::Reset,
        },
        Stage::FindPending(kind) => match key.as_char() {
            Some(target) => ParseStep::Complete(
                ResolvedCommand::Motion(Motion::Find(kind, target)),
            ),
            None => ParseStep::AbortObject,
        },
        Stage::TextObjectPending(ia) => match key.as_char() {
            Some(c) => match ObjectKind::from_key(c) {
                Some(kind) => ParseStep::Complete(ResolvedCommand::TextObject { ia, kind }),
                None => ParseStep::AbortObject,
            },
            None => ParseStep::AbortObject,
        },
        Stage::WindowPending => match window_command(key) {
            Some(cmd) => ParseStep::Complete(ResolvedCommand::Window(cmd)),
            None => ParseStep::Reset,
        },
        Stage::RegisterPending => match key.as_char() {
            Some(name) => if is_register_name(name) {
                let mut next = *pending;
                next.register = Some(name);
                next.stage = Stage::Start;
                ParseStep::Prefix(next)
            } else {
                ParseStep::Reset
            },
            None => ParseStep::Reset,
        },
        Stage::MarkSetPending => match key.as_char() {
            Some(name) => ParseStep::Complete(ResolvedCommand::SetMark(name)),
            None => ParseStep::Reset,
        },
        Stage::MarkJumpPending(kind) => match key.as_char() {
            Some(name) => if is_jumpable_mark(name) {
                ParseStep::Complete(
                    ResolvedCommand::Motion(
                        match kind {
                            MarkJumpKind::Exact => Motion::MarkJumpExact(name),
                            MarkJumpKind::Line => Motion::MarkJumpLine(name),
                        },
                    ),
                )
            } else {
                ParseStep::Reset
            },
            None => ParseStep::Reset,
        },
        _ => ParseStep::Reset,
    }
}

/// Decide what `key` does to `pending`.
pub fn parse_step(mode: Mode, pending: &PendingCommand, key: Key) -> (r: ParseStep)
    ensures
        r == step(mode, *pending, key),
{
    let replacing = pending.stage == Stage::ReplacePending;
    // `r<Esc>` cancels the replacement and nothing else.
    if !replacing && key.code == KeyCode::Esc {
        return ParseStep::Cancel;
    }
    let gpending = pending.stage == Stage::GPending;
    if replacing || !(gpending || pending.stage == Stage::Start) {
        return parse_argument(pending, key);
    }
    let typed_char = key.as_char();
    if let Some(c) = typed_char {
        // `0` is a motion unless a count is being built.
        if is_digit(c) && !(c == '0' && pending.count.is_none()) {
            let d: usize = c as usize - '0' as usize;
            let n: usize = match pending.count {
                Some(n) => n,
                None => 0,
            };
            let mut next = *pending;
            next.count = Some(
                if n > (usize::MAX - d) / 10 {
                    usize::MAX
                } else {
                    n * 10 + d
                },
            );
            return ParseStep::Prefix(next);
        }
        if !gpending && pending.operator.is_none() {
            if c == '"' {
                let mut next = *pending;
                next.stage = Stage::RegisterPending;
                return ParseStep::Prefix(next);
            }
            if c == 'm' {
                let mut next = *pending;
                next.stage = Stage::MarkSetPending;
                return ParseStep::Prefix(next);
            }
        }
        if gpending {
            match c {
                'g' => {
                    return ParseStep::Complete(ResolvedCommand::Motion(Motion::GotoTop));
                },
                't' => {
                    return ParseStep::Complete(
                        ResolvedCommand::Normal(NormalCmd::TabNext(pending.count)),
                    );
                },
                'T' => {
                    return ParseStep::Complete(
                        ResolvedCommand::Normal(NormalCmd::TabPrev(pending.count)),
                    );
                },
                _ => {},
            }
        } else if c == 'g' {
            let mut next = *pending;
            next.stage = Stage::GPending;
            return ParseStep::Prefix(next);
        }
        if (pending.operator.is_some() || mode.is_visual()) && (c == 'i' || c == 'a') {
            let mut next = *pending;
            next.stage = Stage::TextObjectPending(c);
            return ParseStep::Prefix(next);
        }
        if let Some(kind) = FindKind::from_key(c) {
            let mut next = *pending;
            next.stage = Stage::FindPending(kind);
            return ParseStep::Prefix(next);
        }
        // A mark jump arms whether or not an operator is pending.
        if !gpending && c == '`' {
            let mut next = *pending;
            next.stage = Stage::MarkJumpPending(MarkJumpKind::Exact);
            return ParseStep::Prefix(next);
        }
        if !gpending && c == '\'' {
            let mut next = *pending;
            next.stage = Stage::MarkJumpPending(MarkJumpKind::Line);
            return ParseStep::Prefix(next);
        }
    }
    if !gpending {
        if let Some(m) = classify_motion(key) {
            return ParseStep::Complete(ResolvedCommand::Motion(m));
        }
    }
    parse_command(mode, pending, key, gpending)
}

/// The part of [`parse_step`] for keys that are no count, prefix or motion.
/// `gpending` decides only whether `*` and `#` keep their word boundaries.
pub fn parse_command(
    mode: Mode,
    pending: &PendingCommand,
    key: Key,
    gpending: bool,
) -> (r: ParseStep)
    ensures
        r == command_step(mode, *pending, key, gpending),
{
    if let Some(op) = pending.operator {
        return match key.as_char() {
            Some(c) => if c == op {
                ParseStep::Complete(ResolvedCommand::DoubledOperator(op))
            } else if c == '/' {
                ParseStep::Complete(
                    ResolvedCommand::OperatorSearch { op, dir: SearchDir::Forward },
                )
            } else if c == '?' {
                ParseStep::Complete(
                    ResolvedCommand::OperatorSearch { op, dir: SearchDir::Backward },
                )
            } else {
                ParseStep::Reset
            },
            None => ParseStep::Reset,
        };
    }
    if key.ctrl {
        // In visual mode `<C-w>` is not bound.
        if key.code == KeyCode::Char('w') && !mode.is_visual() {
            let mut next = *pending;
            next.stage = Stage::WindowPending;
            return ParseStep::Prefix(next);
        }
        let cmd = match key.code {
            KeyCode::Char('d') => NormalCmd::ScrollHalf(true),
            KeyCode::Char('u') => NormalCmd::ScrollHalf(false),
            KeyCode::Char('f') => NormalCmd::ScrollPage(true),
            KeyCode::Char('b') => NormalCmd::ScrollPage(false),
            KeyCode::Char('e') => NormalCmd::ScrollLine(true),
            KeyCode::Char('y') => NormalCmd::ScrollLine(false),
            KeyCode::Char('r') => NormalCmd::Redo,
            KeyCode::Char('^') | KeyCode::Char('6') => NormalCmd::AltBuffer,
            _ => {
                return ParseStep::Reset;
            },
        };
        return ParseStep::Complete(ResolvedCommand::Normal(cmd));
    }
    match key.code {
        KeyCode::PageDown => {
            return ParseStep::Complete(ResolvedCommand::Normal(NormalCmd::ScrollHalf(true)));
        },
        KeyCode::PageUp => {
            return ParseStep::Complete(ResolvedCommand::Normal(NormalCmd::ScrollHalf(false)));
        },
        _ => {},
    }
    let c = match key.as_char() {
        Some(c) => c,
        None => {
            return ParseStep::Reset;
        },
    };
    if mode.is_visual() {
        match c {
            'd' | 'x' => {
                return ParseStep::Complete(ResolvedCommand::VisualOperate('d'));
            },
            'y' => {
                return ParseStep::Complete(ResolvedCommand::VisualOperate('y'));
            },
            'c' | 's' => {
                return ParseStep::Complete(ResolvedCommand::VisualOperate('c'));
            },
            '=' => {
                return ParseStep::Complete(ResolvedCommand::VisualOperate('='));
            },
            'v' => {
                return ParseStep::Complete(ResolvedCommand::Normal(NormalCmd::EnterVisual));
            },
            'V' => {
                return ParseStep::Complete(ResolvedCommand::Normal(NormalCmd::EnterVisualLine));
            },
            ':' => {
                return ParseStep::Complete(ResolvedCommand::Normal(NormalCmd::EnterCommand));
            },
            _ => {},
        }
    }
    let cmd = match c {
        'i' => NormalCmd::InsertBefore,
        'I' => NormalCmd::InsertLineStart,
        'a' => NormalCmd::InsertAfter,
        'A' => NormalCmd::InsertLineEnd,
        'o' => NormalCmd::OpenBelow,
        'O' => NormalCmd::OpenAbove,
        'x' => NormalCmd::DeleteUnder,
        'X' => NormalCmd::DeleteBefore,
        'D' => NormalCmd::DeleteToEol,
        'C' => NormalCmd::ChangeToEol,
        's' => NormalCmd::SubstituteChar,
        'R' => NormalCmd::EnterReplace,
        'd' | 'c' | 'y' | '=' => {
            let mut next = *pending;
            next.operator = Some(c);
            next.op_count = pending.count;
            next.count = None;
            next.stage = Stage::Start;
            return ParseStep::Prefix(next);
        },
        'r' => {
            let mut next = *pending;
            next.stage = Stage::ReplacePending;
            return ParseStep::Prefix(next);
        },
        'p' => NormalCmd::PasteAfter,
        'P' => NormalCmd::PasteBefore,
        '.' => NormalCmd::DotRepeat,
        'u' => NormalCmd::Undo,
        'J' => NormalCmd::Join,
        '~' => NormalCmd::ToggleCase,
        'v' => NormalCmd::EnterVisual,
        'V' => NormalCmd::EnterVisualLine,
        ':' => NormalCmd::EnterCommand,
        '/' => NormalCmd::EnterSearch(SearchDir::Forward),
        '?' => NormalCmd::EnterSearch(SearchDir::Backward),
        'n' => NormalCmd::SearchNext,
        'N' => NormalCmd::SearchPrev,
        '*' => NormalCmd::SearchWord { dir: SearchDir::Forward, whole_word: !gpending },
        '#' => NormalCmd::SearchWord { dir: SearchDir::Backward, whole_word: !gpending },
        _ => {
            return ParseStep::Reset;
        },
    };
    ParseStep::Complete(ResolvedCommand::Normal(cmd))
}

/// How a run of keys relates to the grammar.
#[derive(Debug, Clone, Copy, PartialEq, Eq, Structural)]
pub enum CommandStatus {
    /// A whole number of commands: the run ends on a command boundary.
    Complete,
    /// The run ends inside a command.
    Prefix,
    /// No command runs this way.
    Invalid,
}

/// What a run of keys leaves behind, from a pending command on: a pending command
/// and whether a command boundary was just reached, or nothing where a key aborts.
pub open spec fn run(
    mode: Mode,
    p: PendingCommand,
    boundary: bool,
    keys: Seq<Key>,
) -> Option<(PendingCommand, bool)>
    decreases keys.len(),
{
    if keys.len() == 0 {
        Some((p, boundary))
    } else {
        match step(mode, p, keys[0]) {
            ParseStep::Prefix(q) => run(mode, q, false, keys.drop_first()),
            ParseStep::Complete(_) => run(mode, clean_command(), true, keys.drop_first()),
            _ => None,
        }
    }
}

/// The status of a run of keys from a command boundary on.
pub open spec fn status(mode: Mode, keys: Seq<Key>) -> CommandStatus {
    match run(mode, clean_command(), true, keys) {
        Some((_, true)) => CommandStatus::Complete,
        Some((_, false)) => CommandStatus::Prefix,
        None => CommandStatus::Invalid,
    }
}

/// Classify a run of keys against the grammar, from a command boundary on.
pub fn command_status(mode: Mode, keys: &[Key]) -> (r: CommandStatus)
    ensures
        r == status(mode, keys@),
{
    let mut pending = PendingCommand::default();
    let mut at_boundary = true;
    let mut i: usize = 0;
    assert(keys@.skip(0) =~= keys@);
    while i < keys.len()
        invariant
            i <= keys@.len(),
            run(mode, clean_command(), true, keys@) == run(
                mode,
                pending,
                at_boundary,
                keys@.skip(i as int),
            ),
        decreases keys@.len() - i,
    {
        assert(keys@.skip(i as int).drop_first() =~= keys@.skip(i + 1));
        match parse_step(mode, &pending, keys[i]) {
            ParseStep::Prefix(p) => {
                pending = p;
                at_boundary = false;
            },
            ParseStep::Complete(_) => {
                pending = PendingCommand::default();
                at_boundary = true;
            },
            ParseStep::Cancel | ParseStep::Reset | ParseStep::AbortObject => {
                return CommandStatus::Invalid;
            },
        }
        i += 1;
    }
    if at_boundary {
        CommandStatus::Complete
    } else {
        CommandStatus::Prefix
    }
}

/// A run can be cut anywhere: what the second part does depends only on what the
/// first left behind.
pub proof fn run_splits(
    mode: Mode,
    p: PendingCommand,
    boundary: bool,
    first: Seq<Key>,
    second: Seq<Key>,
)
    ensures
        run(mode, p, boundary, first + second) == match run(mode, p, boundary, first) {
            Some((q, b)) => run(mode, q, b, second),
            None => None,
        },
    decreases first.len(),
{
    if first.len() == 0 {
        assert(first + second =~= second);
    } else {
        assert((first + second)[0] == first[0]);
        assert((first + second).drop_first() =~= first.drop_first() + second);
        match step(mode, p, first[0]) {
            ParseStep::Prefix(q) => run_splits(mode, q, false, first.drop_first(), second),
            ParseStep::Complete(_) => run_splits(
                mode,
                clean_command(),
                true,
                first.drop_first(),
                second,
            ),
            _ => {},
        }
    }
}

/// A run that ends on a boundary leaves nothing pending.
pub proof fn boundary_is_clean(mode: Mode, p: PendingCommand, boundary: bool, keys: Seq<Key>)
    requires
        boundary ==> p == clean_command(),
    ensures
        run(mode, p, boundary, keys) matches Some((q, true)) ==> q == clean_command(),
    decreases keys.len(),
{
    if keys.len() > 0 {
        match step(mode, p, keys[0]) {
            ParseStep::Prefix(q) => boundary_is_clean(mode, q, false, keys.drop_first()),
            ParseStep::Complete(_) => boundary_is_clean(
                mode,
                clean_command(),
                true,
                keys.drop_first(),
            ),
            _ => {},
        }
    }
}

/// Keys after complete commands are classified as if they stood alone.
pub proof fn status_after_complete(mode: Mode, first: Seq<Key>, second: Seq<Key>)
    requires
        status(mode, first) == CommandStatus::Complete,
    ensures
        status(mode, first + second) == status(mode, second),
{
    run_splits(mode, clean_command(), true, first, second);
    boundary_is_clean(mode, clean_command(), true, first);
}

/// No keys make a run valid again once it is not.
pub proof fn status_stays_invalid(mode: Mode, first: Seq<Key>, second: Seq<Key>)
    requires
        status(mode, first) == CommandStatus::Invalid,
    ensures
        status(mode, first + second) == CommandStatus::Invalid,
{
    run_splits(mode, clean_command(), true, first, second);
}

/// The same keys twice in a row are complete if they are complete once.
pub proof fn status_of_repeat(mode: Mode, keys: Seq<Key>)
    requires
        status(mode, keys) == CommandStatus::Complete,
    ensures
        status(mode, keys + keys) == CommandStatus::Complete,
{
    status_after_complete(mode, keys, keys);
}

/// The escape key ends no run but that of a replacement in the making: it is
/// never part of a valid run there is no `r` before.
pub proof fn escape_cancels(mode: Mode, p: PendingCommand, key: Key)
    requires
        key.code == KeyCode::Esc,
    ensures
        step(mode, p, key) == if p.stage == Stage::ReplacePending {
            ParseStep::Reset
        } else {
            ParseStep::Cancel
        },
{
}

/// An operator typed twice is complete, whatever counts and register came before.
pub proof fn doubled_operator_completes(mode: Mode, p: PendingCommand, op: char, key: Key)
    requires
        p.stage == Stage::Start,
        p.operator is None,
        !selecting(mode),
        operator_char(op),
        typed(key) == Some(op),
    ensures
        step(mode, p, key) == ParseStep::Prefix(with_operator(p, op)),
        step(mode, with_operator(p, op), key) == ParseStep::Complete(
            ResolvedCommand::DoubledOperator(op),
        ),
{
}

/// A count is read in decimal: a digit after a count multiplies it by ten and adds
/// the digit, as long as the result fits, and changes nothing else.
pub proof fn count_is_decimal(mode: Mode, p: PendingCommand, key: Key, n: usize, c: char)
    requires
        p.stage == Stage::Start || p.stage == Stage::GPending,
        p.count == Some(n),
        typed(key) == Some(c),
        digit(c),
        n * 10 + (c as u32 - '0' as u32) <= usize::MAX,
    ensures
        step(mode, p, key) == ParseStep::Prefix(
            PendingCommand {
                count: Some((n * 10 + (c as u32 - '0' as u32)) as usize),
                ..p
            },
        ),
{
}

} // verus!
