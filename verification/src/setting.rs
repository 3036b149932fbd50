//! Options as `:set` names and changes them.

use vstd::prelude::*;

use crate::options::{BufferOptions, NumOp, Options, SetOp, WindowOptions};
use crate::search::{parse_isize, signed_decimal};
use crate::strings::{
    chars_of, fmt_i64, fmt_usize, int_text, is_whitespace, joined_str, same, string_of, texts, whitespace,
};

verus! {

/// The options that are on or off.
#[derive(Debug, Clone, Copy, PartialEq, Eq, Structural)]
pub enum BoolName {
    Number,
    RelativeNumber,
    IgnoreCase,
    SmartCase,
    WrapScan,
    HlSearch,
    IncSearch,
    ExpandTab,
}

/// The options that are numbers.
#[derive(Debug, Clone, Copy, PartialEq, Eq, Structural)]
pub enum NumName {
    TabStop,
    ShiftWidth,
    SoftTabStop,
    SideScroll,
    SideScrollOff,
}

/// One word of a `:set` command.
#[derive(Debug, Clone, Copy, PartialEq, Eq, Structural)]
pub enum SetCmd {
    Bool(BoolName, SetOp),
    Num(NumName, NumOp),
}

/// The options that a `:set` command reaches: those of the window, of the editor and of
/// the buffer.
#[derive(Debug, Clone, Copy, PartialEq, Eq, Structural)]
pub struct Settings {
    pub win: WindowOptions,
    pub global: Options,
    pub buf: BufferOptions,
}

/// The option that a name, or its short form, stands for.
pub open spec fn bool_name(s: Seq<char>) -> Option<BoolName> {
    if s == "number"@ || s == "nu"@ {
        Some(BoolName::Number)
    } else if s == "relativenumber"@ || s == "rnu"@ {
        Some(BoolName::RelativeNumber)
    } else if s == "ignorecase"@ || s == "ic"@ {
        Some(BoolName::IgnoreCase)
    } else if s == "smartcase"@ || s == "scs"@ {
        Some(BoolName::SmartCase)
    } else if s == "wrapscan"@ || s == "ws"@ {
        Some(BoolName::WrapScan)
    } else if s == "hlsearch"@ || s == "hls"@ {
        Some(BoolName::HlSearch)
    } else if s == "incsearch"@ || s == "is"@ {
        Some(BoolName::IncSearch)
    } else if s == "expandtab"@ || s == "et"@ {
        Some(BoolName::ExpandTab)
    } else {
        None
    }
}

/// The option that a name, or its short form, stands for.
pub open spec fn num_name(s: Seq<char>) -> Option<NumName> {
    if s == "tabstop"@ || s == "ts"@ {
        Some(NumName::TabStop)
    } else if s == "shiftwidth"@ || s == "sw"@ {
        Some(NumName::ShiftWidth)
    } else if s == "softtabstop"@ || s == "sts"@ {
        Some(NumName::SoftTabStop)
    } else if s == "sidescroll"@ || s == "ss"@ {
        Some(NumName::SideScroll)
    } else if s == "sidescrolloff"@ || s == "siso"@ {
        Some(NumName::SideScrollOff)
    } else {
        None
    }
}

/// The name of an option.
pub open spec fn bool_label(n: BoolName) -> Seq<char> {
    match n {
        BoolName::Number => "number"@,
        BoolName::RelativeNumber => "relativenumber"@,
        BoolName::IgnoreCase => "ignorecase"@,
        BoolName::SmartCase => "smartcase"@,
        BoolName::WrapScan => "wrapscan"@,
        BoolName::HlSearch => "hlsearch"@,
        BoolName::IncSearch => "incsearch"@,
        BoolName::ExpandTab => "expandtab"@,
    }
}

/// The name of an option.
pub open spec fn num_label(n: NumName) -> Seq<char> {
    match n {
        NumName::TabStop => "tabstop"@,
        NumName::ShiftWidth => "shiftwidth"@,
        NumName::SoftTabStop => "softtabstop"@,
        NumName::SideScroll => "sidescroll"@,
        NumName::SideScrollOff => "sidescrolloff"@,
    }
}

fn bool_of(s: &str) -> (r: Option<BoolName>)
    ensures
        r == bool_name(s@),
{
    if same(s, "number") || same(s, "nu") {
        Some(BoolName::Number)
    } else if same(s, "relativenumber") || same(s, "rnu") {
        Some(BoolName::RelativeNumber)
    } else if same(s, "ignorecase") || same(s, "ic") {
        Some(BoolName::IgnoreCase)
    } else if same(s, "smartcase") || same(s, "scs") {
        Some(BoolName::SmartCase)
    } else if same(s, "wrapscan") || same(s, "ws") {
        Some(BoolName::WrapScan)
    } else if same(s, "hlsearch") || same(s, "hls") {
        Some(BoolName::HlSearch)
    } else if same(s, "incsearch") || same(s, "is") {
        Some(BoolName::IncSearch)
    } else if same(s, "expandtab") || same(s, "et") {
        Some(BoolName::ExpandTab)
    } else {
        None
    }
}

fn num_of(s: &str) -> (r: Option<NumName>)
    ensures
        r == num_name(s@),
{
    if same(s, "tabstop") || same(s, "ts") {
        Some(NumName::TabStop)
    } else if same(s, "shiftwidth") || same(s, "sw") {
        Some(NumName::ShiftWidth)
    } else if same(s, "softtabstop") || same(s, "sts") {
        Some(NumName::SoftTabStop)
    } else if same(s, "sidescroll") || same(s, "ss") {
        Some(NumName::SideScroll)
    } else if same(s, "sidescrolloff") || same(s, "siso") {
        Some(NumName::SideScrollOff)
    } else {
        None
    }
}

fn bool_text(n: BoolName) -> (s: String)
    ensures
        s@ == bool_label(n),
{
    match n {
        BoolName::Number => "number".to_owned(),
        BoolName::RelativeNumber => "relativenumber".to_owned(),
        BoolName::IgnoreCase => "ignorecase".to_owned(),
        BoolName::SmartCase => "smartcase".to_owned(),
        BoolName::WrapScan => "wrapscan".to_owned(),
        BoolName::HlSearch => "hlsearch".to_owned(),
        BoolName::IncSearch => "incsearch".to_owned(),
        BoolName::ExpandTab => "expandtab".to_owned(),
    }
}

fn num_text(n: NumName) -> (s: String)
    ensures
        s@ == num_label(n),
{
    match n {
        NumName::TabStop => "tabstop".to_owned(),
        NumName::ShiftWidth => "shiftwidth".to_owned(),
        NumName::SoftTabStop => "softtabstop".to_owned(),
        NumName::SideScroll => "sidescroll".to_owned(),
        NumName::SideScrollOff => "sidescrolloff".to_owned(),
    }
}

/// The first `=` of a word from the `i`th character on.
pub open spec fn equals_at(s: Seq<char>, i: int) -> Option<int>
    decreases s.len() - i,
{
    if i < 0 || i >= s.len() {
        None
    } else if s[i] == '=' {
        Some(i)
    } else {
        equals_at(s, i + 1)
    }
}

/// An option with something done to it, if there is such an option.
pub open spec fn bool_cmd(s: Seq<char>, op: SetOp) -> Option<SetCmd> {
    match bool_name(s) {
        Some(name) => Some(SetCmd::Bool(name, op)),
        None => None,
    }
}

/// A word of a `:set` command: a name turns an option on or, of a number, asks for it;
/// `no` and `inv` before it turn it off and over, `!` after it turns it over, `?` asks
/// for it, and `=` gives a number its value.
pub open spec fn set_cmd(s: Seq<char>) -> Option<SetCmd> {
    match equals_at(s, 0) {
        Some(i) => match (num_name(s.take(i)), signed_decimal(s.skip(i + 1))) {
            (Some(name), Some(v)) => Some(SetCmd::Num(name, NumOp::Assign(v as i64))),
            _ => None,
        },
        None => if s.len() > 0 && s.last() == '?' {
            match num_name(s.drop_last()) {
                Some(name) => Some(SetCmd::Num(name, NumOp::Query)),
                None => bool_cmd(s.drop_last(), SetOp::Query),
            }
        } else if s.len() > 0 && s.last() == '!' {
            bool_cmd(s.drop_last(), SetOp::Toggle)
        } else if num_name(s) is Some {
            Some(SetCmd::Num(num_name(s)->0, NumOp::Query))
        } else if bool_name(s) is Some {
            bool_cmd(s, SetOp::On)
        } else if s.len() > 2 && s[0] == 'n' && s[1] == 'o' && bool_name(s.skip(2)) is Some {
            bool_cmd(s.skip(2), SetOp::Off)
        } else if s.len() > 3 && s[0] == 'i' && s[1] == 'n' && s[2] == 'v' {
            bool_cmd(s.skip(3), SetOp::Toggle)
        } else {
            None
        },
    }
}

fn bool_command(s: &str, op: SetOp) -> (r: Option<SetCmd>)
    ensures
        r == bool_cmd(s@, op),
{
    match bool_of(s) {
        Some(name) => Some(SetCmd::Bool(name, op)),
        None => None,
    }
}

fn assignment(v: &Vec<char>, i: usize) -> (r: Option<SetCmd>)
    requires
        i < v@.len(),
    ensures
        r == match (num_name(v@.take(i as int)), signed_decimal(v@.skip(i + 1))) {
            (Some(name), Some(n)) => Some(SetCmd::Num(name, NumOp::Assign(n as i64))),
            _ => None,
        },
{
    let name = string_of(v, 0, i);
    assert(name@ =~= v@.take(i as int));
    assert(v@.subrange(i + 1, v@.len() as int) =~= v@.skip(i + 1));
    let n: usize = v.len();
    match (num_of(name.as_str()), parse_isize(v, i + 1, n)) {
        (Some(name), Some(n)) => Some(SetCmd::Num(name, NumOp::Assign(n as i64))),
        _ => None,
    }
}

fn marked(v: &Vec<char>, s: &str) -> (r: Option<SetCmd>)
    requires
        v@ == s@,
        equals_at(s@, 0) is None,
    ensures
        r == set_cmd(s@),
{
    let n: usize = v.len();
    if n > 0 && v[n - 1] == '?' {
        let name = string_of(v, 0, n - 1);
        assert(name@ =~= s@.drop_last());
        return match num_of(name.as_str()) {
            Some(name) => Some(SetCmd::Num(name, NumOp::Query)),
            None => bool_command(name.as_str(), SetOp::Query),
        };
    }
    if n > 0 && v[n - 1] == '!' {
        let name = string_of(v, 0, n - 1);
        assert(name@ =~= s@.drop_last());
        return bool_command(name.as_str(), SetOp::Toggle);
    }
    if let Some(name) = num_of(s) {
        return Some(SetCmd::Num(name, NumOp::Query));
    }
    if bool_of(s).is_some() {
        return bool_command(s, SetOp::On);
    }
    if n > 2 && v[0] == 'n' && v[1] == 'o' {
        let name = string_of(v, 2, n);
        assert(name@ =~= s@.skip(2));
        if bool_of(name.as_str()).is_some() {
            return bool_command(name.as_str(), SetOp::Off);
        }
    }
    if n > 3 && v[0] == 'i' && v[1] == 'n' && v[2] == 'v' {
        let name = string_of(v, 3, n);
        assert(name@ =~= s@.skip(3));
        return bool_command(name.as_str(), SetOp::Toggle);
    }
    None
}

/// What a word of a `:set` command does; nothing where there is no such option.
pub fn resolve_set(s: &str) -> (r: Option<SetCmd>)
    ensures
        r == set_cmd(s@),
{
    let v = chars_of(s);
    let mut i: usize = 0;
    while i < v.len()
        invariant
            v@ == s@,
            i <= v@.len(),
            equals_at(s@, 0) == equals_at(s@, i as int),
        decreases v@.len() - i,
    {
        if v[i] == '=' {
            return assignment(&v, i);
        }
        i += 1;
    }
    marked(&v, s)
}

/// Where the word begins that the character before `n` is in.
pub open spec fn word_from(s: Seq<char>, n: int) -> int
    decreases n,
{
    if n <= 0 || whitespace(s[n - 1]) {
        n
    } else {
        word_from(s, n - 1)
    }
}

/// The words among the first `n` characters that white space ends.
pub open spec fn ended_by_space(s: Seq<char>, n: int) -> Seq<Seq<char>>
    decreases n,
{
    if n <= 0 {
        Seq::empty()
    } else if whitespace(s[n - 1]) && word_from(s, n - 1) < n - 1 {
        ended_by_space(s, n - 1).push(s.subrange(word_from(s, n - 1), n - 1))
    } else {
        ended_by_space(s, n - 1)
    }
}

/// The words of a text, between white space.
pub open spec fn spaced_words(s: Seq<char>) -> Seq<Seq<char>> {
    let n = s.len() as int;
    if word_from(s, n) < n {
        ended_by_space(s, n).push(s.subrange(word_from(s, n), n))
    } else {
        ended_by_space(s, n)
    }
}

/// The words of a text, between white space.
pub fn split_spaces(s: &str) -> (out: Vec<String>)
    ensures
        texts(out@) == spaced_words(s@),
{
    let v = chars_of(s);
    let mut out: Vec<String> = Vec::new();
    let mut start: usize = 0;
    let mut i: usize = 0;
    assert(texts(out@) =~= Seq::<Seq<char>>::empty());
    while i < v.len()
        invariant
            v@ == s@,
            start <= i <= v@.len(),
            start == word_from(s@, i as int),
            texts(out@) == ended_by_space(s@, i as int),
        decreases v@.len() - i,
    {
        if is_whitespace(v[i]) {
            if start < i {
                let ghost before = texts(out@);
                let w = string_of(&v, start, i);
                let ghost c = w@;
                out.push(w);
                assert(texts(out@) =~= before.push(c));
            }
            start = i + 1;
        }
        i += 1;
    }
    if start < i {
        let ghost before = texts(out@);
        let w = string_of(&v, start, i);
        let ghost c = w@;
        out.push(w);
        assert(texts(out@) =~= before.push(c));
    }
    out
}

/// Whether an option is on.
pub open spec fn is_on(s: Settings, n: BoolName) -> bool {
    match n {
        BoolName::Number => s.win.number,
        BoolName::RelativeNumber => s.win.relativenumber,
        BoolName::IgnoreCase => s.global.ignorecase,
        BoolName::SmartCase => s.global.smartcase,
        BoolName::WrapScan => s.global.wrapscan,
        BoolName::HlSearch => s.global.hlsearch,
        BoolName::IncSearch => s.global.incsearch,
        BoolName::ExpandTab => s.buf.expandtab,
    }
}

/// The options with one on or off.
pub open spec fn turned(s: Settings, n: BoolName, on: bool) -> Settings {
    match n {
        BoolName::Number => Settings { win: WindowOptions { number: on, ..s.win }, ..s },
        BoolName::RelativeNumber => Settings { win: WindowOptions { relativenumber: on, ..s.win }, ..s },
        BoolName::IgnoreCase => Settings { global: Options { ignorecase: on, ..s.global }, ..s },
        BoolName::SmartCase => Settings { global: Options { smartcase: on, ..s.global }, ..s },
        BoolName::WrapScan => Settings { global: Options { wrapscan: on, ..s.global }, ..s },
        BoolName::HlSearch => Settings { global: Options { hlsearch: on, ..s.global }, ..s },
        BoolName::IncSearch => Settings { global: Options { incsearch: on, ..s.global }, ..s },
        BoolName::ExpandTab => Settings { buf: BufferOptions { expandtab: on, ..s.buf }, ..s },
    }
}

/// The options after something is done to one, and what is to be said.
pub open spec fn bool_applied(s: Settings, n: BoolName, op: SetOp) -> (Settings, Option<Seq<char>>) {
    match op {
        SetOp::On => (turned(s, n, true), None),
        SetOp::Off => (turned(s, n, false), None),
        SetOp::Toggle => (turned(s, n, !is_on(s, n)), None),
        SetOp::Query => (
            s,
            Some(
                if is_on(s, n) {
                    bool_label(n)
                } else {
                    "no"@ + bool_label(n)
                },
            ),
        ),
    }
}

/// The least value of an option.
pub open spec fn least_value(n: NumName) -> int {
    match n {
        NumName::TabStop => 1,
        NumName::SoftTabStop => -1,
        _ => 0,
    }
}

/// The value of an option.
pub open spec fn value_of(s: Settings, n: NumName) -> int {
    match n {
        NumName::TabStop => s.buf.tabstop as int,
        NumName::ShiftWidth => s.buf.shiftwidth as int,
        NumName::SoftTabStop => s.buf.softtabstop as int,
        NumName::SideScroll => s.win.sidescroll as int,
        NumName::SideScrollOff => s.win.sidescrolloff as int,
    }
}

/// The options with one given a value.
pub open spec fn with_value(s: Settings, n: NumName, v: int) -> Settings {
    match n {
        NumName::TabStop => Settings { buf: BufferOptions { tabstop: v as usize, ..s.buf }, ..s },
        NumName::ShiftWidth => Settings {
            buf: BufferOptions { shiftwidth: v as usize, ..s.buf },
            ..s
        },
        NumName::SoftTabStop => Settings {
            buf: BufferOptions { softtabstop: v as isize, ..s.buf },
            ..s
        },
        NumName::SideScroll => Settings {
            win: WindowOptions { sidescroll: v as usize, ..s.win },
            ..s
        },
        NumName::SideScrollOff => Settings {
            win: WindowOptions { sidescrolloff: v as usize, ..s.win },
            ..s
        },
    }
}

/// The options after something is done to one, and what is to be said. A value below
/// the least one is refused.
pub open spec fn num_applied(s: Settings, n: NumName, op: NumOp) -> (Settings, Option<Seq<char>>) {
    match op {
        NumOp::Assign(v) => if v < least_value(n) {
            (
                s,
                Some(
                    "E487: Argument must be positive: "@ + num_label(n) + "="@ + int_text(v as int),
                ),
            )
        } else {
            (with_value(s, n, v as int), None)
        },
        NumOp::Query => (s, Some(num_label(n) + "="@ + int_text(value_of(s, n)))),
    }
}

impl Settings {
    fn turn(&mut self, n: BoolName, on: bool)
        ensures
            *final(self) == turned(*old(self), n, on),
    {
        let s = *self;
        *self = match n {
            BoolName::Number => Settings { win: WindowOptions { number: on, ..s.win }, ..s },
            BoolName::RelativeNumber => Settings {
                win: WindowOptions { relativenumber: on, ..s.win },
                ..s
            },
            BoolName::IgnoreCase => Settings {
                global: Options { ignorecase: on, ..s.global },
                ..s
            },
            BoolName::SmartCase => Settings { global: Options { smartcase: on, ..s.global }, ..s },
            BoolName::WrapScan => Settings { global: Options { wrapscan: on, ..s.global }, ..s },
            BoolName::HlSearch => Settings { global: Options { hlsearch: on, ..s.global }, ..s },
            BoolName::IncSearch => Settings { global: Options { incsearch: on, ..s.global }, ..s },
            BoolName::ExpandTab => Settings { buf: BufferOptions { expandtab: on, ..s.buf }, ..s },
        };
    }

    fn is_on(&self, n: BoolName) -> (b: bool)
        ensures
            b == is_on(*self, n),
    {
        match n {
            BoolName::Number => self.win.number,
            BoolName::RelativeNumber => self.win.relativenumber,
            BoolName::IgnoreCase => self.global.ignorecase,
            BoolName::SmartCase => self.global.smartcase,
            BoolName::WrapScan => self.global.wrapscan,
            BoolName::HlSearch => self.global.hlsearch,
            BoolName::IncSearch => self.global.incsearch,
            BoolName::ExpandTab => self.buf.expandtab,
        }
    }

    /// Do something to an option that is on or off. What is to be said is returned.
    pub fn apply_set_bool(&mut self, n: BoolName, op: SetOp) -> (r: Option<String>)
        ensures
            (*final(self), crate::buffer::opt_chars(r)) == bool_applied(*old(self), n, op),
    {
        match op {
            SetOp::On => {
                self.turn(n, true);
                None
            },
            SetOp::Off => {
                self.turn(n, false);
                None
            },
            SetOp::Toggle => {
                let on = self.is_on(n);
                self.turn(n, !on);
                None
            },
            SetOp::Query => {
                let label = bool_text(n);
                if self.is_on(n) {
                    Some(label)
                } else {
                    Some(joined_str("no", label.as_str()))
                }
            },
        }
    }

    fn give(&mut self, n: NumName, v: i64)
        requires
            least_value(n) <= v,
        ensures
            *final(self) == with_value(*old(self), n, v as int),
    {
        match n {
            NumName::TabStop => {
                self.buf.tabstop = v as usize;
            },
            NumName::ShiftWidth => {
                self.buf.shiftwidth = v as usize;
            },
            NumName::SoftTabStop => {
                self.buf.softtabstop = v as isize;
            },
            NumName::SideScroll => {
                self.win.sidescroll = v as usize;
            },
            NumName::SideScrollOff => {
                self.win.sidescrolloff = v as usize;
            },
        }
    }

    /// Do something to an option that is a number. What is to be said is returned.
    pub fn apply_set_num(&mut self, n: NumName, op: NumOp) -> (r: Option<String>)
        ensures
            (*final(self), crate::buffer::opt_chars(r)) == num_applied(*old(self), n, op),
    {
        match op {
            NumOp::Assign(v) => {
                let low: i64 = match n {
                    NumName::TabStop => 1,
                    NumName::SoftTabStop => -1,
                    _ => 0,
                };
                if v < low {
                    let mut s = joined_str(
                        "E487: Argument must be positive: ",
                        num_text(n).as_str(),
                    );
                    s.append("=");
                    s.append(fmt_i64(v).as_str());
                    return Some(s);
                }
                self.give(n, v);
                None
            },
            NumOp::Query => {
                let mut s = joined_str(num_text(n).as_str(), "=");
                let value = match n {
                    NumName::TabStop => fmt_usize(self.buf.tabstop),
                    NumName::ShiftWidth => fmt_usize(self.buf.shiftwidth),
                    NumName::SoftTabStop => fmt_i64(self.buf.softtabstop as i64),
                    NumName::SideScroll => fmt_usize(self.win.sidescroll),
                    NumName::SideScrollOff => fmt_usize(self.win.sidescrolloff),
                };
                s.append(value.as_str());
                Some(s)
            },
        }
    }
}

/// Turning an option over twice leaves all options as they were.
pub proof fn toggling_twice(s: Settings, n: BoolName)
    ensures
        bool_applied(bool_applied(s, n, SetOp::Toggle).0, n, SetOp::Toggle).0 == s,
{
    let on = is_on(s, n);
    lemma_turned(s, n, !on);
    lemma_turned_back(s, n, !on);
}

proof fn lemma_turned(s: Settings, n: BoolName, on: bool)
    ensures
        is_on(turned(s, n, on), n) == on,
{
}

proof fn lemma_turned_back(s: Settings, n: BoolName, on: bool)
    ensures
        turned(turned(s, n, on), n, is_on(s, n)) == s,
{
    match n {
        BoolName::Number => {},
        BoolName::RelativeNumber => {},
        BoolName::IgnoreCase => {},
        BoolName::SmartCase => {},
        BoolName::WrapScan => {},
        BoolName::HlSearch => {},
        BoolName::IncSearch => {},
        BoolName::ExpandTab => {},
    }
}

/// A value that is not refused is the one that is read back.
pub proof fn value_is_read_back(s: Settings, n: NumName, v: i64)
    requires
        least_value(n) <= v,
        v <= isize::MAX,
    ensures
        value_of(num_applied(s, n, NumOp::Assign(v)).0, n) == v,
{
}

} // verus!
