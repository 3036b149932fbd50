//! Ex commands: their names and their arguments.

use vstd::prelude::*;

use crate::search::{parse_isize, signed_decimal};
use crate::strings::{
    chars_of, decimal, is_letter, joined_str, letter, parse_u64, same, string_of, trim, trimmed,
};

verus! {

/// What the name of an ex command stands for.
#[derive(Debug, Clone, Copy, PartialEq, Eq, Structural)]
pub enum ExName {
    Write,
    Quit,
    WriteQuit,
    QuitAll,
    WriteAll,
    WriteQuitAll,
    Edit,
    Enew,
    Split,
    Vsplit,
    New,
    Vnew,
    Close,
    Only,
    Resize,
    Vertical,
    Buffers,
    Buffer,
    Bnext,
    Bprev,
    Bfirst,
    Blast,
    Bdelete,
    Lua,
    Sleep,
    Messages,
    PanelOpen,
    Setting,
    NoHighlight,
    Highlight,
    /// A name that is not one of these.
    Unknown,
}

/// What a name stands for.
pub open spec fn name_of(s: Seq<char>) -> ExName {
    if s == "w"@ || s == "write"@ {
        ExName::Write
    } else if s == "q"@ || s == "quit"@ {
        ExName::Quit
    } else if s == "wq"@ || s == "x"@ || s == "xit"@ || s == "exit"@ {
        ExName::WriteQuit
    } else if s == "qa"@ || s == "qall"@ || s == "quita"@ || s == "quitall"@ {
        ExName::QuitAll
    } else if s == "wa"@ || s == "wall"@ {
        ExName::WriteAll
    } else if s == "wqa"@ || s == "xa"@ || s == "xall"@ {
        ExName::WriteQuitAll
    } else if s == "e"@ || s == "edit"@ {
        ExName::Edit
    } else if s == "ene"@ || s == "enew"@ {
        ExName::Enew
    } else if s == "sp"@ || s == "spl"@ || s == "split"@ {
        ExName::Split
    } else if s == "vs"@ || s == "vsp"@ || s == "vsplit"@ || s == "vspl"@ {
        ExName::Vsplit
    } else if s == "new"@ {
        ExName::New
    } else if s == "vne"@ || s == "vnew"@ {
        ExName::Vnew
    } else if s == "clo"@ || s == "close"@ || s == "hid"@ || s == "hide"@ {
        ExName::Close
    } else if s == "on"@ || s == "only"@ {
        ExName::Only
    } else if s == "res"@ || s == "resize"@ {
        ExName::Resize
    } else if s == "vert"@ || s == "vertical"@ || s == "ver"@ {
        ExName::Vertical
    } else if s == "ls"@ || s == "buffers"@ || s == "files"@ {
        ExName::Buffers
    } else if s == "b"@ || s == "bu"@ || s == "buf"@ || s == "buffer"@ {
        ExName::Buffer
    } else if s == "bn"@ || s == "bnext"@ {
        ExName::Bnext
    } else if s == "bp"@ || s == "bN"@ || s == "bprev"@ || s == "bprevious"@ || s == "bNext"@ {
        ExName::Bprev
    } else if s == "bf"@ || s == "bfirst"@ || s == "br"@ || s == "brewind"@ {
        ExName::Bfirst
    } else if s == "bl"@ || s == "blast"@ {
        ExName::Blast
    } else if s == "bd"@ || s == "bdel"@ || s == "bdelete"@ || s == "bw"@ || s == "bwipe"@
        || s == "bwipeout"@ {
        ExName::Bdelete
    } else if s == "lua"@ {
        ExName::Lua
    } else if s == "sleep"@ || s == "sl"@ {
        ExName::Sleep
    } else if s == "mes"@ || s == "messages"@ || s == "message"@ {
        ExName::Messages
    } else if s == "panelopen"@ || s == "panelo"@ {
        ExName::PanelOpen
    } else if s == "set"@ || s == "se"@ || s == "setlocal"@ || s == "setl"@ {
        ExName::Setting
    } else if s == "noh"@ || s == "nohlsearch"@ {
        ExName::NoHighlight
    } else if s == "hi"@ || s == "highlight"@ {
        ExName::Highlight
    } else {
        ExName::Unknown
    }
}

/// What a name stands for.
pub fn ex_name(s: &str) -> (n: ExName)
    ensures
        n == name_of(s@),
{
    if same(s, "w") || same(s, "write") {
        ExName::Write
    } else if same(s, "q") || same(s, "quit") {
        ExName::Quit
    } else if same(s, "wq") || same(s, "x") || same(s, "xit") || same(s, "exit") {
        ExName::WriteQuit
    } else if same(s, "qa") || same(s, "qall") || same(s, "quita") || same(s, "quitall") {
        ExName::QuitAll
    } else if same(s, "wa") || same(s, "wall") {
        ExName::WriteAll
    } else if same(s, "wqa") || same(s, "xa") || same(s, "xall") {
        ExName::WriteQuitAll
    } else if same(s, "e") || same(s, "edit") {
        ExName::Edit
    } else if same(s, "ene") || same(s, "enew") {
        ExName::Enew
    } else if same(s, "sp") || same(s, "spl") || same(s, "split") {
        ExName::Split
    } else if same(s, "vs") || same(s, "vsp") || same(s, "vsplit") || same(s, "vspl") {
        ExName::Vsplit
    } else if same(s, "new") {
        ExName::New
    } else if same(s, "vne") || same(s, "vnew") {
        ExName::Vnew
    } else if same(s, "clo") || same(s, "close") || same(s, "hid") || same(s, "hide") {
        ExName::Close
    } else if same(s, "on") || same(s, "only") {
        ExName::Only
    } else if same(s, "res") || same(s, "resize") {
        ExName::Resize
    } else if same(s, "vert") || same(s, "vertical") || same(s, "ver") {
        ExName::Vertical
    } else if same(s, "ls") || same(s, "buffers") || same(s, "files") {
        ExName::Buffers
    } else if same(s, "b") || same(s, "bu") || same(s, "buf") || same(s, "buffer") {
        ExName::Buffer
    } else if same(s, "bn") || same(s, "bnext") {
        ExName::Bnext
    } else if same(s, "bp") || same(s, "bN") || same(s, "bprev") || same(s, "bprevious")
        || same(s, "bNext") {
        ExName::Bprev
    } else if same(s, "bf") || same(s, "bfirst") || same(s, "br") || same(s, "brewind") {
        ExName::Bfirst
    } else if same(s, "bl") || same(s, "blast") {
        ExName::Blast
    } else if same(s, "bd") || same(s, "bdel") || same(s, "bdelete") || same(s, "bw")
        || same(s, "bwipe") || same(s, "bwipeout") {
        ExName::Bdelete
    } else if same(s, "lua") {
        ExName::Lua
    } else if same(s, "sleep") || same(s, "sl") {
        ExName::Sleep
    } else if same(s, "mes") || same(s, "messages") || same(s, "message") {
        ExName::Messages
    } else if same(s, "panelopen") || same(s, "panelo") {
        ExName::PanelOpen
    } else if same(s, "set") || same(s, "se") || same(s, "setlocal") || same(s, "setl") {
        ExName::Setting
    } else if same(s, "noh") || same(s, "nohlsearch") {
        ExName::NoHighlight
    } else if same(s, "hi") || same(s, "highlight") {
        ExName::Highlight
    } else {
        ExName::Unknown
    }
}

/// How many letters a text begins with.
pub open spec fn letters(s: Seq<char>, i: int) -> int
    decreases s.len() - i,
{
    if 0 <= i < s.len() && letter(s[i]) {
        letters(s, i + 1)
    } else {
        i
    }
}

/// A command in its parts.
pub ghost struct ExParts {
    pub name: Seq<char>,
    pub bang: bool,
    pub args: Seq<char>,
}

/// The name that a command begins with, whether `!` follows, and the rest without white
/// space around it.
pub open spec fn parts_of(s: Seq<char>) -> ExParts {
    let n = letters(s, 0);
    let bang = n < s.len() && s[n] == '!';
    ExParts {
        name: s.take(n),
        bang,
        args: trimmed(
            s.skip(
                if bang {
                    n + 1
                } else {
                    n
                },
            ),
        ),
    }
}

/// Split a command into its name, whether `!` follows, and its arguments.
pub fn split_ex(cmd: &str) -> (r: (String, bool, String))
    ensures
        (ExParts { name: r.0@, bang: r.1, args: r.2@ }) == parts_of(cmd@),
{
    let v = chars_of(cmd);
    let n: usize = v.len();
    let mut i: usize = 0;
    while i < n && is_letter(v[i])
        invariant
            n == v@.len(),
            v@ == cmd@,
            i <= n,
            letters(cmd@, 0) == letters(cmd@, i as int),
        decreases n - i,
    {
        i += 1;
    }
    let name = string_of(&v, 0, i);
    assert(name@ =~= cmd@.take(i as int));
    let mut bang = false;
    let mut from: usize = i;
    if i < n && v[i] == '!' {
        bang = true;
        from = i + 1;
    }
    let rest = string_of(&v, from, n);
    assert(rest@ =~= cmd@.skip(from as int));
    (name, bang, trim(rest.as_str()))
}

/// A whole number, where it fits a `usize`.
pub open spec fn number_of(s: Seq<char>) -> Option<usize> {
    match decimal(s) {
        Some(n) => if n <= usize::MAX {
            Some(n as usize)
        } else {
            None
        },
        None => None,
    }
}

/// What `str::parse::<usize>` reads.
pub fn parse_number(s: &str) -> (r: Option<usize>)
    ensures
        r == number_of(s@),
{
    let v = chars_of(s);
    assert(v@.subrange(0, v@.len() as int) =~= v@);
    match parse_u64(&v, 0, v.len()) {
        Some(n) => if n <= usize::MAX as u64 {
            Some(n as usize)
        } else {
            None
        },
        None => None,
    }
}

/// How often a command is repeated: once for an argument that is no number or zero.
pub open spec fn count_arg(s: Seq<char>) -> usize {
    match number_of(trimmed(s)) {
        Some(n) => if n > 0 {
            n
        } else {
            1
        },
        None => 1,
    }
}

/// How often a command is repeated.
pub fn parse_count_arg(args: &str) -> (n: usize)
    ensures
        n == count_arg(args@),
{
    match parse_number(trim(args).as_str()) {
        Some(n) => if n > 0 {
            n
        } else {
            1
        },
        None => 1,
    }
}

/// A time of that many seconds, or milliseconds where an `m` follows; a second where
/// nothing is said. Held at the longest time there is.
pub open spec fn sleep_of(s: Seq<char>) -> Result<u64, Seq<char>> {
    let a = trimmed(s);
    let short = a.len() > 0 && a.last() == 'm';
    let d = decimal(
        if short {
            trimmed(a.drop_last())
        } else {
            a
        },
    );
    if a.len() == 0 {
        Ok(1000)
    } else if d is Some && d->0 <= u64::MAX {
        if short {
            Ok(d->0 as u64)
        } else if d->0 * 1000 <= u64::MAX {
            Ok((d->0 * 1000) as u64)
        } else {
            Ok(u64::MAX)
        }
    } else {
        Err("E475: Invalid argument: "@ + a)
    }
}

/// A time in milliseconds.
pub fn parse_sleep(args: &str) -> (r: Result<u64, String>)
    ensures
        match sleep_of(args@) {
            Ok(n) => r is Ok && r->Ok_0 == n,
            Err(e) => r is Err && r->Err_0@ == e,
        },
{
    let a = trim(args);
    let v = chars_of(a.as_str());
    let n: usize = v.len();
    if n == 0 {
        return Ok(1000);
    }
    let short = v[n - 1] == 'm';
    let number = if short {
        let head = string_of(&v, 0, n - 1);
        assert(head@ =~= a@.drop_last());
        trim(head.as_str())
    } else {
        a.clone()
    };
    let d = chars_of(number.as_str());
    assert(d@.subrange(0, d@.len() as int) =~= d@);
    match parse_u64(&d, 0, d.len()) {
        Some(k) => if short {
            Ok(k)
        } else {
            match k.checked_mul(1000) {
                Some(ms) => Ok(ms),
                None => Ok(u64::MAX),
            }
        },
        None => Err(joined_str("E475: Invalid argument: ", a.as_str())),
    }
}

/// What the argument of a resize asks for.
#[derive(Debug, Clone, Copy, PartialEq, Eq, Structural)]
pub enum ResizeAsk {
    /// As large as possible.
    Maximize,
    /// So much larger, or smaller.
    By(isize),
    /// The argument is no number.
    Bad,
}

/// A number held to what an `isize` can be.
pub open spec fn clip_signed(n: int) -> isize {
    if n > isize::MAX {
        isize::MAX
    } else if n < isize::MIN {
        isize::MIN
    } else {
        n as isize
    }
}

/// What the argument of a resize asks for, of a window that has an extent: a number is
/// the extent to have, and one with a sign the difference.
pub open spec fn resize_ask(s: Seq<char>, current: int) -> ResizeAsk {
    let a = trimmed(s);
    if a.len() == 0 {
        ResizeAsk::Maximize
    } else if a[0] == '+' {
        match signed_decimal(trimmed(a.drop_first())) {
            Some(n) => ResizeAsk::By(n as isize),
            None => ResizeAsk::Bad,
        }
    } else if a[0] == '-' {
        match signed_decimal(trimmed(a.drop_first())) {
            Some(n) => ResizeAsk::By(clip_signed(-n)),
            None => ResizeAsk::Bad,
        }
    } else {
        match number_of(a) {
            Some(n) => ResizeAsk::By(clip_signed(n - current)),
            None => ResizeAsk::Bad,
        }
    }
}

/// What the argument of a resize asks for.
pub fn parse_resize(args: &str, current: usize) -> (r: ResizeAsk)
    ensures
        r == resize_ask(args@, current as int),
{
    let a = trim(args);
    let v = chars_of(a.as_str());
    let n: usize = v.len();
    if n == 0 {
        return ResizeAsk::Maximize;
    }
    let c = v[0];
    if c == '+' || c == '-' {
        let tail = string_of(&v, 1, n);
        assert(tail@ =~= a@.drop_first());
        let rest = trim(tail.as_str());
        let d = chars_of(rest.as_str());
        assert(d@.subrange(0, d@.len() as int) =~= d@);
        return match parse_isize(&d, 0, d.len()) {
            Some(k) => if c == '+' {
                ResizeAsk::By(k)
            } else if k == isize::MIN {
                ResizeAsk::By(isize::MAX)
            } else {
                ResizeAsk::By(-k)
            },
            None => ResizeAsk::Bad,
        };
    }
    match parse_number(a.as_str()) {
        Some(target) => {
            let d: i128 = target as i128 - current as i128;
            if d > isize::MAX as i128 {
                ResizeAsk::By(isize::MAX)
            } else if d < isize::MIN as i128 {
                ResizeAsk::By(isize::MIN)
            } else {
                ResizeAsk::By(d as isize)
            }
        },
        None => ResizeAsk::Bad,
    }
}

} // verus!
