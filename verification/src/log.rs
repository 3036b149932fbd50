//! The message line and its history.

use vstd::prelude::*;

use crate::cmdline::{keep_newest, newest};
use crate::strings::{chars_of, string_of, texts};

verus! {

/// How many messages the history keeps.
pub const MAX_MESSAGES: usize = 1000;

/// The message that is shown, and those that were.
pub struct Log {
    pub message: String,
    pub messages: Vec<String>,
}

/// What a [`Log`] holds.
pub ghost struct LogModel {
    pub message: Seq<char>,
    pub messages: Seq<Seq<char>>,
}

impl View for Log {
    type V = LogModel;

    open spec fn view(&self) -> LogModel {
        LogModel { message: self.message@, messages: texts(self.messages@) }
    }
}

/// A list with a piece at its end, where the piece is not empty.
pub open spec fn with_piece(v: Seq<Seq<char>>, s: Seq<char>) -> Seq<Seq<char>> {
    if s.len() == 0 {
        v
    } else {
        v.push(s)
    }
}

/// The pieces of the first `n` characters that a line feed ends, empty ones aside.
pub open spec fn ended_pieces(s: Seq<char>, n: int) -> Seq<Seq<char>>
    decreases n,
{
    if n <= 0 {
        Seq::empty()
    } else if s[n - 1] == '\n' {
        with_piece(ended_pieces(s, n - 1), s.subrange(piece_start(s, n - 1), n - 1))
    } else {
        ended_pieces(s, n - 1)
    }
}

/// Where the piece begins that `n` is in.
pub open spec fn piece_start(s: Seq<char>, n: int) -> int
    decreases n,
{
    if n <= 0 {
        0
    } else if s[n - 1] == '\n' {
        n
    } else {
        piece_start(s, n - 1)
    }
}

/// The lines of a text that are not empty.
pub open spec fn lines_in(s: Seq<char>) -> Seq<Seq<char>> {
    with_piece(
        ended_pieces(s, s.len() as int),
        s.subrange(piece_start(s, s.len() as int), s.len() as int),
    )
}

/// The log after a message.
pub open spec fn echoed(l: LogModel, msg: Seq<char>) -> LogModel {
    LogModel {
        message: msg,
        messages: newest(l.messages + lines_in(msg), MAX_MESSAGES as nat),
    }
}

fn push_piece(out: &mut Vec<String>, v: &Vec<char>, a: usize, b: usize)
    requires
        a <= b <= v@.len(),
    ensures
        texts(final(out)@) == with_piece(texts(old(out)@), v@.subrange(a as int, b as int)),
{
    if a < b {
        let s = string_of(v, a, b);
        let ghost c = s@;
        out.push(s);
        assert(texts(out@) =~= texts(old(out)@).push(c));
    }
}

/// The lines of a text that are not empty.
pub fn split_lines(text: &str) -> (out: Vec<String>)
    ensures
        texts(out@) == lines_in(text@),
{
    let v = chars_of(text);
    let mut out: Vec<String> = Vec::new();
    let mut start: usize = 0;
    let mut i: usize = 0;
    assert(texts(out@) =~= Seq::<Seq<char>>::empty());
    while i < v.len()
        invariant
            v@ == text@,
            start <= i <= v@.len(),
            start == piece_start(text@, i as int),
            texts(out@) == ended_pieces(text@, i as int),
        decreases v@.len() - i,
    {
        if v[i] == '\n' {
            push_piece(&mut out, &v, start, i);
            start = i + 1;
        }
        i += 1;
    }
    push_piece(&mut out, &v, start, i);
    out
}

impl Log {
    pub fn new() -> (l: Self)
        ensures
            l@ == (LogModel { message: Seq::empty(), messages: Seq::empty() }),
    {
        let l = Log { message: String::new(), messages: Vec::new() };
        assert(texts(l.messages@) =~= Seq::<Seq<char>>::empty());
        l
    }

    /// Forget the message that is shown.
    pub fn clear(&mut self)
        ensures
            final(self)@ == (LogModel { message: Seq::empty(), ..old(self)@ }),
    {
        self.message = String::new();
    }

    /// Show a message, and add its lines to the history.
    pub fn echo(&mut self, msg: String)
        ensures
            final(self)@ == echoed(old(self)@, msg@),
    {
        let mut lines = split_lines(msg.as_str());
        let ghost before = texts(self.messages@);
        let ghost added = texts(lines@);
        self.messages.append(&mut lines);
        assert(texts(self.messages@) =~= before + added);
        keep_newest(&mut self.messages, MAX_MESSAGES);
        self.message = msg;
    }
}

/// The history never holds more than its limit after a message.
pub proof fn history_is_bounded(l: LogModel, msg: Seq<char>)
    ensures
        echoed(l, msg).messages.len() <= MAX_MESSAGES,
{
}

/// The lines of a message are the newest of the history, as far as it keeps them.
pub proof fn message_is_newest(l: LogModel, msg: Seq<char>)
    ensures
        newest(echoed(l, msg).messages, lines_in(msg).len()) == newest(
            lines_in(msg),
            MAX_MESSAGES as nat,
        ),
{
    let h = echoed(l, msg).messages;
    let k = lines_in(msg).len();
    assert(newest(h, k) =~= newest(lines_in(msg), MAX_MESSAGES as nat));
}

} // verus!
