//! Line endings: how a file's are found, and how they become those of the text and
//! are put back.

use vstd::prelude::*;
use vstd::utf8::*;

use crate::options::FileFormat;
use crate::strings::chars_of;
use crate::text::{lemma_after_ascii_on_char, strip_eol_bytes, CR, LF};

verus! {

/// The format that the first line break from byte `i` on shows; line feeds where
/// there is none.
pub open spec fn format_from(t: Seq<u8>, i: int) -> FileFormat
    decreases t.len() - i,
{
    if i < 0 || i >= t.len() {
        FileFormat::Unix
    } else if t[i] == CR {
        if i + 1 < t.len() && t[i + 1] == LF {
            FileFormat::Dos
        } else {
            FileFormat::Mac
        }
    } else if t[i] == LF {
        FileFormat::Unix
    } else {
        format_from(t, i + 1)
    }
}

/// Find the line ending of a file's text: its first line break decides.
pub fn detect_fileformat(s: &str) -> (r: FileFormat)
    ensures
        r == format_from(encode_utf8(s@), 0),
{
    let b = s.as_bytes();
    let mut i: usize = 0;
    while i < b.len()
        invariant
            b@ == encode_utf8(s@),
            i <= b@.len(),
            format_from(b@, 0) == format_from(b@, i as int),
        decreases b@.len() - i,
    {
        if b[i] == CR {
            return if i + 1 < b.len() && b[i + 1] == LF {
                FileFormat::Dos
            } else {
                FileFormat::Mac
            };
        }
        if b[i] == LF {
            return FileFormat::Unix;
        }
        i += 1;
    }
    FileFormat::Unix
}

/// `s` from position `i` on with each pair of carriage return and line feed made a
/// line feed.
pub open spec fn joined_pairs(s: Seq<char>, i: int) -> Seq<char>
    decreases s.len() - i,
{
    if i < 0 || i >= s.len() {
        Seq::empty()
    } else if s[i] == '\r' && i + 1 < s.len() && s[i + 1] == '\n' {
        seq!['\n'] + joined_pairs(s, i + 2)
    } else {
        seq![s[i]] + joined_pairs(s, i + 1)
    }
}

/// `s` with `to` in place of each `from`.
pub open spec fn swapped(s: Seq<char>, from: char, to: char) -> Seq<char> {
    s.map_values(
        |c: char|
            if c == from {
                to
            } else {
                c
            },
    )
}

/// A file's text with line feeds for its line breaks.
pub open spec fn with_line_feeds(s: Seq<char>, ff: FileFormat) -> Seq<char> {
    match ff {
        FileFormat::Unix => s,
        FileFormat::Dos => joined_pairs(s, 0),
        FileFormat::Mac => swapped(s, '\r', '\n'),
    }
}

/// `s` from position `i` on with a carriage return before each line feed.
pub open spec fn split_pairs(s: Seq<char>, i: int) -> Seq<char>
    decreases s.len() - i,
{
    if i < 0 || i >= s.len() {
        Seq::empty()
    } else if s[i] == '\n' {
        seq!['\r', '\n'] + split_pairs(s, i + 1)
    } else {
        seq![s[i]] + split_pairs(s, i + 1)
    }
}

/// A text with the line breaks of a format for its line feeds.
pub open spec fn with_breaks(s: Seq<char>, ff: FileFormat) -> Seq<char> {
    match ff {
        FileFormat::Unix => s,
        FileFormat::Dos => split_pairs(s, 0),
        FileFormat::Mac => swapped(s, '\n', '\r'),
    }
}

fn swap_chars(v: &Vec<char>, from: char, to: char) -> (s: String)
    ensures
        s@ == swapped(v@, from, to),
{
    let mut s = String::new();
    let mut i: usize = 0;
    while i < v.len()
        invariant
            i <= v@.len(),
            s@ =~= swapped(v@.take(i as int), from, to),
        decreases v@.len() - i,
    {
        assert(v@.take(i + 1) =~= v@.take(i as int).push(v@[i as int]));
        let c = v[i];
        s.push(
            if c == from {
                to
            } else {
                c
            },
        );
        i += 1;
    }
    assert(v@.take(i as int) =~= v@);
    s
}

/// Turn a file's line breaks into line feeds.
pub fn normalize_eol(s: &str, ff: FileFormat) -> (r: String)
    ensures
        r@ == with_line_feeds(s@, ff),
{
    match ff {
        FileFormat::Unix => s.to_owned(),
        FileFormat::Mac => {
            let v = chars_of(s);
            swap_chars(&v, '\r', '\n')
        },
        FileFormat::Dos => {
            let v = chars_of(s);
            let n: usize = v.len();
            let mut out = String::new();
            let mut i: usize = 0;
            while i < n
                invariant
                    i <= n == v@.len(),
                    out@ + joined_pairs(v@, i as int) == joined_pairs(v@, 0),
                decreases n - i,
            {
                let ghost done = out@;
                if v[i] == '\r' && i + 1 < n && v[i + 1] == '\n' {
                    out.push('\n');
                    assert(out@ + joined_pairs(v@, i + 2) =~= done + (seq!['\n'] + joined_pairs(
                        v@,
                        i + 2,
                    )));
                    i += 2;
                } else {
                    let c = v[i];
                    out.push(c);
                    assert(out@ + joined_pairs(v@, i + 1) =~= done + (seq![c] + joined_pairs(
                        v@,
                        i + 1,
                    )));
                    i += 1;
                }
            }
            assert(out@ + Seq::<char>::empty() =~= out@);
            out
        },
    }
}

/// Turn the text's line feeds into a format's line breaks.
pub fn apply_eol(s: &str, ff: FileFormat) -> (r: String)
    ensures
        r@ == with_breaks(s@, ff),
{
    match ff {
        FileFormat::Unix => s.to_owned(),
        FileFormat::Mac => {
            let v = chars_of(s);
            swap_chars(&v, '\n', '\r')
        },
        FileFormat::Dos => {
            let v = chars_of(s);
            let n: usize = v.len();
            let mut out = String::new();
            let mut i: usize = 0;
            while i < n
                invariant
                    i <= n == v@.len(),
                    out@ + split_pairs(v@, i as int) == split_pairs(v@, 0),
                decreases n - i,
            {
                let ghost done = out@;
                let c = v[i];
                if c == '\n' {
                    out.push('\r');
                    out.push('\n');
                    assert(out@ + split_pairs(v@, i + 1) =~= done + (seq!['\r', '\n'] + split_pairs(
                        v@,
                        i + 1,
                    )));
                } else {
                    out.push(c);
                    assert(out@ + split_pairs(v@, i + 1) =~= done + (seq![c] + split_pairs(
                        v@,
                        i + 1,
                    )));
                }
                i += 1;
            }
            assert(out@ + Seq::<char>::empty() =~= out@);
            out
        },
    }
}

/// Reading what was written gives the text back, in every format, where the text
/// has no carriage return of its own.
pub proof fn load_undoes_save(s: Seq<char>, ff: FileFormat)
    requires
        forall|i: int| 0 <= i < s.len() ==> #[trigger] s[i] != '\r',
    ensures
        with_line_feeds(with_breaks(s, ff), ff) == s,
{
    match ff {
        FileFormat::Unix => {},
        FileFormat::Mac => {
            assert(with_line_feeds(with_breaks(s, ff), ff) =~= s);
        },
        FileFormat::Dos => {
            lemma_join_split(s, 0);
            assert(s.skip(0) =~= s);
        },
    }
}

proof fn lemma_join_shift(a: Seq<char>, s: Seq<char>, i: int)
    requires
        0 <= i,
    ensures
        joined_pairs(a + s, a.len() + i) == joined_pairs(s, i),
    decreases s.len() - i,
{
    let t = a + s;
    if i < s.len() {
        assert(t[a.len() + i] == s[i]);
        if i + 1 < s.len() {
            assert(t[a.len() + i + 1] == s[i + 1]);
        }
        if s[i] == '\r' && i + 1 < s.len() && s[i + 1] == '\n' {
            lemma_join_shift(a, s, i + 2);
        } else {
            lemma_join_shift(a, s, i + 1);
        }
    }
}

proof fn lemma_join_split(s: Seq<char>, i: int)
    requires
        0 <= i <= s.len(),
        forall|k: int| 0 <= k < s.len() ==> #[trigger] s[k] != '\r',
    ensures
        joined_pairs(split_pairs(s, i), 0) == s.skip(i),
    decreases s.len() - i,
{
    if i < s.len() {
        let rest = split_pairs(s, i + 1);
        lemma_join_split(s, i + 1);
        if s[i] == '\n' {
            let t = seq!['\r', '\n'] + rest;
            assert(t[0] == '\r' && t[1] == '\n');
            lemma_join_shift(seq!['\r', '\n'], rest, 0);
            assert(joined_pairs(t, 0) == seq!['\n'] + joined_pairs(rest, 0));
        } else {
            let t = seq![s[i]] + rest;
            assert(t[0] == s[i]);
            lemma_join_shift(seq![s[i]], rest, 0);
            assert(joined_pairs(t, 0) == seq![s[i]] + joined_pairs(rest, 0));
        }
        assert(seq![s[i]] + s.skip(i + 1) =~= s.skip(i));
    } else {
        assert(s.skip(i) =~= Seq::<char>::empty());
    }
}

/// The line breaks of `s` are those of the format.
pub open spec fn consistent(s: Seq<char>, ff: FileFormat) -> bool {
    match ff {
        FileFormat::Unix => true,
        FileFormat::Dos => forall|i: int|
            0 <= i < s.len() && #[trigger] s[i] == '\n' ==> i > 0 && s[i - 1] == '\r',
        FileFormat::Mac => forall|i: int| 0 <= i < s.len() ==> #[trigger] s[i] != '\n',
    }
}

/// Writing what was read gives the file back, where its line breaks are those of
/// the format.
pub proof fn save_undoes_load(s: Seq<char>, ff: FileFormat)
    requires
        consistent(s, ff),
    ensures
        with_breaks(with_line_feeds(s, ff), ff) == s,
{
    match ff {
        FileFormat::Unix => {},
        FileFormat::Mac => {
            assert(with_breaks(with_line_feeds(s, ff), ff) =~= s);
        },
        FileFormat::Dos => {
            lemma_split_join(s, 0);
            assert(s.skip(0) =~= s);
        },
    }
}

proof fn lemma_split_shift(a: Seq<char>, s: Seq<char>, i: int)
    requires
        0 <= i,
    ensures
        split_pairs(a + s, a.len() + i) == split_pairs(s, i),
    decreases s.len() - i,
{
    if i < s.len() {
        assert((a + s)[a.len() + i] == s[i]);
        lemma_split_shift(a, s, i + 1);
    }
}

proof fn lemma_split_join(s: Seq<char>, i: int)
    requires
        0 <= i <= s.len(),
        consistent(s, FileFormat::Dos),
        i < s.len() ==> s[i] != '\n',
    ensures
        split_pairs(joined_pairs(s, i), 0) == s.skip(i),
    decreases s.len() - i,
{
    if i < s.len() {
        if s[i] == '\r' && i + 1 < s.len() && s[i + 1] == '\n' {
            if i + 2 < s.len() && s[i + 2] == '\n' {
                assert(s[i + 1] == '\r');
            }
            lemma_split_join(s, i + 2);
            let rest = joined_pairs(s, i + 2);
            let t = seq!['\n'] + rest;
            assert(t[0] == '\n');
            lemma_split_shift(seq!['\n'], rest, 0);
            assert(split_pairs(t, 0) == seq!['\r', '\n'] + split_pairs(rest, 0));
            assert(seq!['\r', '\n'] + s.skip(i + 2) =~= s.skip(i));
        } else {
            if i + 1 < s.len() && s[i + 1] == '\n' {
                assert(s[i] == '\r');
            }
            lemma_split_join(s, i + 1);
            let rest = joined_pairs(s, i + 1);
            let t = seq![s[i]] + rest;
            assert(t[0] == s[i]);
            lemma_split_shift(seq![s[i]], rest, 0);
            assert(split_pairs(t, 0) == seq![s[i]] + split_pairs(rest, 0));
            assert(seq![s[i]] + s.skip(i + 1) =~= s.skip(i));
        }
    } else {
        assert(s.skip(i) =~= Seq::<char>::empty());
    }
}

/// Strip one trailing line break from a line: a line feed, and a carriage return
/// before it.
pub fn strip_eol(s: &str) -> (r: &str)
    ensures
        encode_utf8(r@) == strip_eol_bytes(encode_utf8(s@)),
{
    let ghost t = encode_utf8(s@);
    proof {
        encode_utf8_valid_utf8(s@);
    }
    let b = s.as_bytes();
    let n: usize = b.len();
    if n > 0 && b[n - 1] == LF {
        proof {
            lemma_after_ascii_on_char(t, n - 1);
            assert(t.subrange(0, n - 1) =~= t.drop_last());
        }
        if n > 1 && b[n - 2] == CR {
            proof {
                lemma_after_ascii_on_char(t, n - 2);
                assert(t.subrange(0, n - 2) =~= t.drop_last().drop_last());
            }
            let (r, _) = s.split_at(n - 2);
            r
        } else {
            let (r, _) = s.split_at(n - 1);
            r
        }
    } else {
        s
    }
}

} // verus!
