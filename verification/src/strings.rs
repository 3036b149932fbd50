//! Strings as sequences of characters: trimming, splitting, decimal numbers.

use vstd::prelude::*;

verus! {

/// `String::push`: the character goes to the end.
pub assume_specification[ String::push ](s: &mut String, c: char)
    ensures
        final(s)@ == old(s)@.push(c),
;

/// Whether a character has the Unicode property `White_Space`.
pub open spec fn whitespace(c: char) -> bool {
    let n = c as u32;
    ||| 0x9 <= n <= 0xd
    ||| n == 0x20
    ||| n == 0x85
    ||| n == 0xa0
    ||| n == 0x1680
    ||| 0x2000 <= n <= 0x200a
    ||| n == 0x2028
    ||| n == 0x2029
    ||| n == 0x202f
    ||| n == 0x205f
    ||| n == 0x3000
}

/// `char::is_whitespace`: whether the character has the property `White_Space`.
#[verifier::external_body]
pub(crate) fn is_whitespace(c: char) -> (b: bool)
    ensures
        b == whitespace(c),
{
    c.is_whitespace()
}

/// Whether a character is a letter or a number in Unicode.
pub uninterp spec fn alphanumeric(c: char) -> bool;

/// `char::is_alphanumeric`, by its name.
#[verifier::external_body]
pub(crate) fn is_alphanumeric(c: char) -> (b: bool)
    ensures
        b == alphanumeric(c),
{
    c.is_alphanumeric()
}

/// A string in double quotes, with escapes for what does not print.
pub uninterp spec fn quoted(s: Seq<char>) -> Seq<char>;

/// `str`'s `Debug`, as a string, by its name.
#[verifier::external_body]
pub(crate) fn quote(s: &str) -> (r: String)
    ensures
        r@ == quoted(s@),
{
    format!("{:?}", s)
}

/// An ASCII decimal digit.
pub open spec fn digit(c: char) -> bool {
    '0' <= c <= '9'
}

pub fn is_digit(c: char) -> (b: bool)
    ensures
        b == digit(c),
{
    '0' <= c && c <= '9'
}

/// An ASCII letter.
pub open spec fn letter(c: char) -> bool {
    'a' <= c <= 'z' || 'A' <= c <= 'Z'
}

pub fn is_letter(c: char) -> (b: bool)
    ensures
        b == letter(c),
{
    ('a' <= c && c <= 'z') || ('A' <= c && c <= 'Z')
}

/// The characters of a string.
pub fn chars_of(s: &str) -> (v: Vec<char>)
    ensures
        v@ == s@,
{
    let mut v: Vec<char> = Vec::new();
    for c in it: s.chars()
        invariant
            v@ =~= it.seq().subrange(0, it.index() as int),
            it.seq() == s@,
    {
        v.push(c);
    }
    v
}

/// The string of the characters from `a` to `b`.
pub fn string_of(v: &Vec<char>, a: usize, b: usize) -> (s: String)
    requires
        a <= b <= v@.len(),
    ensures
        s@ == v@.subrange(a as int, b as int),
{
    let mut s = String::new();
    let mut i: usize = a;
    while i < b
        invariant
            a <= i <= b <= v@.len(),
            s@ =~= v@.subrange(a as int, i as int),
        decreases b - i,
    {
        s.push(v[i]);
        i += 1;
    }
    s
}

/// `s` without the white space that it ends in.
pub open spec fn trim_end(s: Seq<char>) -> Seq<char>
    decreases s.len(),
{
    if s.len() > 0 && whitespace(s.last()) {
        trim_end(s.drop_last())
    } else {
        s
    }
}

/// `s` without the white space that it begins with.
pub open spec fn trim_start(s: Seq<char>) -> Seq<char>
    decreases s.len(),
{
    if s.len() > 0 && whitespace(s[0]) {
        trim_start(s.drop_first())
    } else {
        s
    }
}

/// `s` without white space at either end.
pub open spec fn trimmed(s: Seq<char>) -> Seq<char> {
    trim_end(trim_start(s))
}

/// The range of `v` that is left once white space at both ends is gone.
pub fn trim_range(v: &Vec<char>, a: usize, b: usize) -> (r: (usize, usize))
    requires
        a <= b <= v@.len(),
    ensures
        a <= r.0 <= r.1 <= b,
        v@.subrange(r.0 as int, r.1 as int) == trimmed(v@.subrange(a as int, b as int)),
{
    let mut i: usize = a;
    while i < b && is_whitespace(v[i])
        invariant
            a <= i <= b <= v@.len(),
            trim_start(v@.subrange(i as int, b as int)) == trim_start(
                v@.subrange(a as int, b as int),
            ),
        decreases b - i,
    {
        assert(v@.subrange(i as int, b as int).drop_first() =~= v@.subrange(i + 1, b as int));
        i += 1;
    }
    let mut j: usize = b;
    while i < j && is_whitespace(v[j - 1])
        invariant
            a <= i <= j <= b <= v@.len(),
            trim_end(v@.subrange(i as int, j as int)) == trim_end(
                v@.subrange(i as int, b as int),
            ),
        decreases j - i,
    {
        assert(v@.subrange(i as int, j as int).drop_last() =~= v@.subrange(i as int, j - 1));
        j -= 1;
    }
    (i, j)
}

/// A string without white space at either end.
pub fn trim(s: &str) -> (r: String)
    ensures
        r@ == trimmed(s@),
{
    let v = chars_of(s);
    assert(v@.subrange(0, v@.len() as int) =~= v@);
    let (a, b) = trim_range(&v, 0, v.len());
    string_of(&v, a, b)
}

/// The value of a string of decimal digits.
pub open spec fn digits_value(s: Seq<char>) -> nat
    decreases s.len(),
{
    if s.len() == 0 {
        0
    } else {
        digits_value(s.drop_last()) * 10 + (s.last() as u32 - '0' as u32) as nat
    }
}

pub open spec fn all_digits(s: Seq<char>) -> bool {
    forall|i: int| 0 <= i < s.len() ==> digit(#[trigger] s[i])
}

/// A natural number in decimal, with a plus sign or none before it.
pub open spec fn decimal(s: Seq<char>) -> Option<nat> {
    let d = if s.len() > 0 && s[0] == '+' {
        s.drop_first()
    } else {
        s
    };
    if d.len() > 0 && all_digits(d) {
        Some(digits_value(d))
    } else {
        None
    }
}

pub proof fn lemma_digits_grow(s: Seq<char>, n: int)
    requires
        0 <= n <= s.len(),
        all_digits(s),
    ensures
        digits_value(s.take(n)) <= digits_value(s),
    decreases s.len() - n,
{
    if n < s.len() {
        lemma_digits_grow(s, n + 1);
        assert(s.take(n + 1).drop_last() =~= s.take(n));
    } else {
        assert(s.take(n) =~= s);
    }
}

/// The value of the digits from `a` to `b`, where they are digits and the value
/// fits.
pub fn parse_digits(v: &Vec<char>, a: usize, b: usize) -> (r: Option<u64>)
    requires
        a <= b <= v@.len(),
    ensures
        r == if b > a && all_digits(v@.subrange(a as int, b as int)) && digits_value(
            v@.subrange(a as int, b as int),
        ) <= u64::MAX {
            Some(digits_value(v@.subrange(a as int, b as int)) as u64)
        } else {
            None::<u64>
        },
{
    let ghost d = v@.subrange(a as int, b as int);
    if a == b {
        return None;
    }
    let mut n: u64 = 0;
    let mut i: usize = a;
    assert(d.take(0) =~= Seq::<char>::empty());
    while i < b
        invariant
            a <= i <= b <= v@.len(),
            d == v@.subrange(a as int, b as int),
            n == digits_value(d.take(i - a)),
            all_digits(d.take(i - a)),
            a < b,
        decreases b - i,
    {
        let c = v[i];
        assert(d[i - a] == c);
        if !is_digit(c) {
            assert(!digit(d[i - a]));
            return None;
        }
        assert(d.take(i - a + 1).drop_last() =~= d.take(i - a));
        assert(all_digits(d.take(i - a + 1)));
        let k: u64 = c as u64 - '0' as u64;
        if n > (u64::MAX - k) / 10 {
            proof {
                assert(digits_value(d.take(i - a + 1)) == n * 10 + k);
                if all_digits(d) {
                    lemma_digits_grow(d, i - a + 1);
                }
            }
            return None;
        }
        n = n * 10 + k;
        i += 1;
    }
    assert(d.take(b - a) =~= d);
    Some(n)
}

/// What `str::parse::<u64>` reads: digits after an optional plus sign, where the
/// value fits.
pub fn parse_u64(v: &Vec<char>, a: usize, b: usize) -> (r: Option<u64>)
    requires
        a <= b <= v@.len(),
    ensures
        r == match decimal(v@.subrange(a as int, b as int)) {
            Some(n) => if n <= u64::MAX {
                Some(n as u64)
            } else {
                None
            },
            None => None,
        },
{
    let ghost s = v@.subrange(a as int, b as int);
    if a < b && v[a] == '+' {
        assert(s[0] == '+');
        assert(s.drop_first() =~= v@.subrange(a + 1, b as int));
        parse_digits(v, a + 1, b)
    } else {
        if a < b {
            assert(s[0] != '+');
        }
        parse_digits(v, a, b)
    }
}

/// The decimal digit of a number below ten.
pub open spec fn digit_char(n: int) -> char {
    ('0' as u32 + n) as char
}

/// A natural number in decimal.
pub open spec fn nat_text(n: nat) -> Seq<char>
    decreases n,
{
    if n < 10 {
        seq![digit_char(n as int)]
    } else {
        nat_text(n / 10).push(digit_char((n % 10) as int))
    }
}

/// A whole number in decimal, with a minus sign before a negative one.
pub open spec fn int_text(n: int) -> Seq<char> {
    if n < 0 {
        seq!['-'] + nat_text((-n) as nat)
    } else {
        nat_text(n as nat)
    }
}

fn digit_to_char(d: u64) -> (c: char)
    requires
        d < 10,
    ensures
        c == digit_char(d as int),
{
    match d {
        0 => '0',
        1 => '1',
        2 => '2',
        3 => '3',
        4 => '4',
        5 => '5',
        6 => '6',
        7 => '7',
        8 => '8',
        _ => '9',
    }
}

/// A natural number in decimal.
pub fn fmt_u64(n: u64) -> (s: String)
    ensures
        s@ == nat_text(n as nat),
    decreases n,
{
    if n < 10 {
        let mut s = String::new();
        s.push(digit_to_char(n));
        assert(s@ =~= nat_text(n as nat));
        s
    } else {
        let mut s = fmt_u64(n / 10);
        s.push(digit_to_char(n % 10));
        s
    }
}

/// A natural number in decimal.
pub fn fmt_usize(n: usize) -> (s: String)
    ensures
        s@ == nat_text(n as nat),
{
    fmt_u64(n as u64)
}

/// A whole number in decimal.
pub fn fmt_i64(n: i64) -> (s: String)
    ensures
        s@ == int_text(n as int),
{
    if n < 0 {
        let m: u64 = (-(n + 1)) as u64 + 1;
        let d = fmt_u64(m);
        let mut s = String::new();
        s.push('-');
        s.append(d.as_str());
        assert(s@ =~= int_text(n as int));
        s
    } else {
        fmt_u64(n as u64)
    }
}

/// What a list of strings holds.
pub open spec fn texts(v: Seq<String>) -> Seq<Seq<char>> {
    v.map_values(|s: String| s@)
}

/// `a` and `b`, one after the other.
pub fn joined_str(a: &str, b: &str) -> (s: String)
    ensures
        s@ == a@ + b@,
{
    let mut s = a.to_owned();
    s.append(b);
    s
}

/// Whether two strings hold the same characters.
pub fn same(a: &str, b: &str) -> (r: bool)
    ensures
        r == (a@ == b@),
{
    let x = a.to_owned();
    let y = b.to_owned();
    x == y
}

pub proof fn lemma_digits_concat(a: Seq<char>, c: char)
    ensures
        digits_value(a.push(c)) == digits_value(a) * 10 + (c as u32 - '0' as u32) as nat,
{
    assert(a.push(c).drop_last() =~= a);
}

/// Reading a number in decimal gives back the number that was written.
pub proof fn decimal_reads_what_it_writes(n: nat)
    ensures
        decimal(nat_text(n)) == Some(n),
        all_digits(nat_text(n)),
        nat_text(n).len() > 0,
    decreases n,
{
    let s = nat_text(n);
    if n < 10 {
        assert(s.drop_last() =~= Seq::<char>::empty());
        assert(digits_value(s.drop_last()) == 0);
    } else {
        decimal_reads_what_it_writes(n / 10);
        lemma_digits_concat(nat_text(n / 10), digit_char((n % 10) as int));
        let a = nat_text(n / 10);
        assert(digit(a[0]));
        assert(a[0] != '+');
        assert(s[0] == a[0]);
    }
    assert(digit(s[0]));
}

} // verus!
