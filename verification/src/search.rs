//! Search directions and offsets: the `/pattern/offset` line.

use vstd::prelude::*;

use crate::motion::MotionKind;
use crate::strings::{
    all_digits, chars_of, decimal, digit, digits_value, is_digit, parse_digits, parse_u64,
    string_of, trim_range, trimmed,
};

verus! {

/// Which way a search runs: `/` forward, `?` backward.
#[derive(Debug, Clone, Copy, PartialEq, Eq, Structural)]
pub enum SearchDir {
    Forward,
    Backward,
}

/// The other direction.
pub open spec fn opposite_dir(dir: SearchDir) -> SearchDir {
    match dir {
        SearchDir::Forward => SearchDir::Backward,
        SearchDir::Backward => SearchDir::Forward,
    }
}

/// The prompt character of a direction.
pub open spec fn dir_prefix(dir: SearchDir) -> char {
    match dir {
        SearchDir::Forward => '/',
        SearchDir::Backward => '?',
    }
}

impl SearchDir {
    pub fn opposite(self) -> (r: SearchDir)
        ensures
            r == opposite_dir(self),
    {
        match self {
            SearchDir::Forward => SearchDir::Backward,
            SearchDir::Backward => SearchDir::Forward,
        }
    }

    /// The command-line prompt character (`/` forward, `?` backward).
    pub fn prefix(self) -> (c: char)
        ensures
            c == dir_prefix(self),
    {
        match self {
            SearchDir::Forward => '/',
            SearchDir::Backward => '?',
        }
    }
}

/// Turning a direction round twice gives it back.
pub proof fn opposite_twice(dir: SearchDir)
    ensures
        opposite_dir(opposite_dir(dir)) == dir,
        opposite_dir(dir) != dir,
        dir_prefix(opposite_dir(dir)) != dir_prefix(dir),
{
}

/// Where the cursor goes relative to a match: the suffix after the pattern
/// (`/pat/e`, `/pat/s-2`, `/pat/+3`).
#[derive(Debug, Clone, Copy, PartialEq, Eq, Structural)]
pub enum SearchOffset {
    /// No offset: land on the match start.
    Bare,
    /// `s`/`b`: so many characters from the match start.
    Start(isize),
    /// `e`: so many characters from the match's last one.
    End(isize),
    /// A bare number: so many lines from the match's line.
    Line(isize),
}

/// How a search with this offset acts as an operator's motion.
pub open spec fn offset_kind(offset: SearchOffset) -> MotionKind {
    match offset {
        SearchOffset::End(_) => MotionKind::Inclusive,
        SearchOffset::Line(_) => MotionKind::Linewise,
        _ => MotionKind::Exclusive,
    }
}

impl SearchOffset {
    /// How a search resolves as an operator motion: `e` takes in the match end, a
    /// line offset goes linewise, everything else stops short of the match.
    pub fn motion_kind(self) -> (k: MotionKind)
        ensures
            k == offset_kind(self),
    {
        match self {
            SearchOffset::End(_) => MotionKind::Inclusive,
            SearchOffset::Line(_) => MotionKind::Linewise,
            _ => MotionKind::Exclusive,
        }
    }
}

/// The position of the last `sep` at or after `i` that no backslash escapes.
pub open spec fn last_unescaped(s: Seq<char>, sep: char, i: int) -> Option<int>
    decreases s.len() + 1 - i,
{
    if i < 0 || i >= s.len() {
        None
    } else if s[i] == '\\' {
        last_unescaped(s, sep, i + 2)
    } else {
        match last_unescaped(s, sep, i + 1) {
            Some(p) => Some(p),
            None => if s[i] == sep {
                Some(i)
            } else {
                None
            },
        }
    }
}

/// The pattern and the offset of a search line.
pub open spec fn search_parts(line: Seq<char>, sep: char) -> (Seq<char>, SearchOffset) {
    match last_unescaped(line, sep, 0) {
        Some(p) => (line.take(p), offset_of(line.skip(p + 1))),
        None => (line, SearchOffset::Bare),
    }
}

/// A whole number in decimal after an optional sign, where it fits an `isize`.
pub open spec fn signed_decimal(s: Seq<char>) -> Option<int> {
    if s.len() > 0 && s[0] == '-' {
        let d = s.drop_first();
        if d.len() > 0 && all_digits(d) && -digits_value(d) >= isize::MIN {
            Some(-digits_value(d))
        } else {
            None
        }
    } else {
        match decimal(s) {
            Some(n) => if n <= isize::MAX {
                Some(n as int)
            } else {
                None
            },
            None => None,
        }
    }
}

/// Whether a text begins with a sign.
pub open spec fn has_sign(t: Seq<char>) -> bool {
    t.len() > 0 && (t[0] == '-' || t[0] == '+')
}

/// What follows the sign of a text, where it has one.
pub open spec fn unsigned(t: Seq<char>) -> Seq<char> {
    if has_sign(t) {
        t.drop_first()
    } else {
        t
    }
}

/// Whether a text is one sign, digits, or the one before the others.
pub open spec fn spells_signed(s: Seq<char>) -> bool {
    let t = trimmed(s);
    t.len() > 0 && all_digits(unsigned(t))
}

/// A magnitude after an optional sign, where it fits an `isize`; a sign alone stands for
/// one.
pub open spec fn signed_of(s: Seq<char>) -> Option<int> {
    let t = trimmed(s);
    let d = unsigned(t);
    let n = if d.len() == 0 {
        1
    } else {
        digits_value(d) as int
    };
    if !spells_signed(s) || n > isize::MAX {
        None
    } else if t[0] == '-' {
        Some(-n)
    } else {
        Some(n)
    }
}

/// The value of an optional number, with nothing standing for zero.
pub open spec fn or_zero(n: Option<int>) -> isize {
    match n {
        Some(n) => n as isize,
        None => 0,
    }
}

/// The number of graphemes that the text after `e`, `s` or `b` spells: none for nothing, and
/// none for a number that is too large. Anything but a number spells no offset.
pub open spec fn graphemes_of(s: Seq<char>) -> Option<isize> {
    if trimmed(s).len() == 0 || spells_signed(s) {
        Some(or_zero(signed_of(s)))
    } else {
        None
    }
}

/// The offset that the text after the separator spells: `e`, `s` or `b` with an
/// optional number, or a bare number of lines. Anything else is no offset.
pub open spec fn offset_of(s: Seq<char>) -> SearchOffset {
    let t = trimmed(s);
    if t.len() == 0 {
        SearchOffset::Bare
    } else if t[0] == 'e' {
        match graphemes_of(t.drop_first()) {
            Some(n) => SearchOffset::End(n),
            None => SearchOffset::Bare,
        }
    } else if t[0] == 's' || t[0] == 'b' {
        match graphemes_of(t.drop_first()) {
            Some(n) => SearchOffset::Start(n),
            None => SearchOffset::Bare,
        }
    } else if t[0] == '+' || t[0] == '-' || digit(t[0]) {
        match signed_of(t) {
            Some(n) => SearchOffset::Line(n as isize),
            None => SearchOffset::Bare,
        }
    } else {
        SearchOffset::Bare
    }
}

/// What `str::parse::<isize>` reads of a part of a text.
pub fn parse_isize(v: &Vec<char>, a: usize, b: usize) -> (r: Option<isize>)
    requires
        a <= b <= v@.len(),
    ensures
        r is Some <==> signed_decimal(v@.subrange(a as int, b as int)) is Some,
        r is Some ==> r->0 == signed_decimal(v@.subrange(a as int, b as int))->0,
{
    let ghost s = v@.subrange(a as int, b as int);
    if a < b && v[a] == '-' {
        assert(s[0] == '-');
        assert(s.drop_first() =~= v@.subrange(a + 1, b as int));
        match parse_digits(v, a + 1, b) {
            Some(n) => if n <= isize::MAX as u64 {
                Some(-(n as isize))
            } else if n == isize::MAX as u64 + 1 {
                Some(isize::MIN)
            } else {
                None
            },
            None => None,
        }
    } else {
        if a < b {
            assert(s[0] != '-');
        }
        match parse_u64(v, a, b) {
            Some(n) => if n <= isize::MAX as u64 {
                Some(n as isize)
            } else {
                None
            },
            None => None,
        }
    }
}

fn digits_in(v: &Vec<char>, a: usize, b: usize) -> (r: bool)
    requires
        a <= b <= v@.len(),
    ensures
        r == all_digits(v@.subrange(a as int, b as int)),
{
    let ghost d = v@.subrange(a as int, b as int);
    let mut i: usize = a;
    while i < b
        invariant
            a <= i <= b <= v@.len(),
            d == v@.subrange(a as int, b as int),
            forall|k: int| 0 <= k < i - a ==> digit(#[trigger] d[k]),
        decreases b - i,
    {
        assert(d[i - a] == v@[i as int]);
        if !is_digit(v[i]) {
            return false;
        }
        i += 1;
    }
    true
}

/// Whether a part of a text is a signed number, and its value where it fits.
fn signed_in(v: &Vec<char>, from: usize, to: usize) -> (r: (bool, Option<isize>))
    requires
        from <= to <= v@.len(),
    ensures
        r.0 == spells_signed(v@.subrange(from as int, to as int)),
        r.1 is Some <==> signed_of(v@.subrange(from as int, to as int)) is Some,
        r.1 is Some ==> (r.1)->0 == signed_of(v@.subrange(from as int, to as int))->0,
{
    let (a, b) = trim_range(v, from, to);
    let ghost t = v@.subrange(a as int, b as int);
    if a == b {
        return (false, None);
    }
    let c = v[a];
    assert(t[0] == c);
    let signed = c == '-' || c == '+';
    let start: usize = if signed {
        a + 1
    } else {
        a
    };
    assert(unsigned(t) =~= v@.subrange(start as int, b as int));
    if !digits_in(v, start, b) {
        return (false, None);
    }
    let n: u64 = if start == b {
        1
    } else {
        match parse_digits(v, start, b) {
            Some(n) => n,
            None => {
                return (true, None);
            },
        }
    };
    if n > isize::MAX as u64 {
        (true, None)
    } else if c == '-' {
        (true, Some(-(n as isize)))
    } else {
        (true, Some(n as isize))
    }
}

/// The number of graphemes in a part of a text.
fn graphemes_in(v: &Vec<char>, from: usize, to: usize) -> (r: Option<isize>)
    requires
        from <= to <= v@.len(),
    ensures
        r == graphemes_of(v@.subrange(from as int, to as int)),
{
    let (a, b) = trim_range(v, from, to);
    if a == b {
        return Some(0);
    }
    let (spelled, n) = signed_in(v, from, to);
    if !spelled {
        return None;
    }
    match n {
        Some(n) => Some(n),
        None => Some(0),
    }
}

/// Parse an optionally signed magnitude. A lone `+` or `-` is one; an empty string, and
/// one with anything but digits after the sign, is nothing.
pub fn parse_signed(s: &str) -> (r: Option<isize>)
    ensures
        r is Some <==> signed_of(s@) is Some,
        r is Some ==> r->0 == signed_of(s@)->0,
{
    let v = chars_of(s);
    assert(v@.subrange(0, v@.len() as int) =~= v@);
    signed_in(&v, 0, v.len()).1
}

/// Parse the text after a search separator.
pub fn parse_offset(s: &str) -> (r: SearchOffset)
    ensures
        r == offset_of(s@),
{
    let v = chars_of(s);
    assert(v@.subrange(0, v@.len() as int) =~= v@);
    offset_in(&v, 0, v.len())
}

fn offset_in(v: &Vec<char>, from: usize, to: usize) -> (r: SearchOffset)
    requires
        from <= to <= v@.len(),
    ensures
        r == offset_of(v@.subrange(from as int, to as int)),
{
    let (a, b) = trim_range(v, from, to);
    let ghost t = v@.subrange(a as int, b as int);
    if a == b {
        return SearchOffset::Bare;
    }
    let c = v[a];
    assert(t[0] == c);
    assert(t.drop_first() =~= v@.subrange(a + 1, b as int));
    if c == 'e' {
        match graphemes_in(v, a + 1, b) {
            Some(n) => SearchOffset::End(n),
            None => SearchOffset::Bare,
        }
    } else if c == 's' || c == 'b' {
        match graphemes_in(v, a + 1, b) {
            Some(n) => SearchOffset::Start(n),
            None => SearchOffset::Bare,
        }
    } else if c == '+' || c == '-' || is_digit(c) {
        match signed_in(v, a, b).1 {
            Some(n) => SearchOffset::Line(n),
            None => SearchOffset::Bare,
        }
    } else {
        SearchOffset::Bare
    }
}

/// Split a submitted search line into its pattern and its offset at the last
/// separator that is not escaped. With no separator the whole line is the pattern.
pub fn split_search_offset(line: &str, sep: char) -> (r: (String, SearchOffset))
    ensures
        (r.0@, r.1) == search_parts(line@, sep),
{
    let chars = chars_of(line);
    let n: usize = chars.len();
    let mut at: Option<usize> = None;
    let mut i: usize = 0;
    while i < n
        invariant
            n == chars@.len(),
            chars@ == line@,
            at is Some ==> at->0 < i && at->0 < n,
            last_unescaped(line@, sep, 0) == match last_unescaped(line@, sep, i as int) {
                Some(p) => Some(p),
                None => match at {
                    Some(p) => Some(p as int),
                    None => None,
                },
            },
        decreases n - i,
    {
        if chars[i] == '\\' {
            if n - i >= 2 {
                i += 2;
            } else {
                assert(last_unescaped(line@, sep, i + 2) is None);
                i = n;
            }
            continue;
        }
        if chars[i] == sep {
            at = Some(i);
        }
        i += 1;
    }
    match at {
        Some(p) => {
            assert(line@.take(p as int) =~= chars@.subrange(0, p as int));
            assert(line@.skip(p + 1) =~= chars@.subrange(p + 1, n as int));
            (string_of(&chars, 0, p), offset_in(&chars, p + 1, n))
        },
        None => {
            assert(chars@.subrange(0, n as int) =~= line@);
            (string_of(&chars, 0, n), SearchOffset::Bare)
        },
    }
}

} // verus!
