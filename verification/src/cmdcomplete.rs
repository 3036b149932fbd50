//! Completion in the command line.

use vstd::prelude::*;
use vstd::utf8::*;

use crate::cmdline::{
    span_replaced, typed_kept, typed_restored, CmdlineKind, CommandLine, LineModel,
};
use crate::num::least;
use crate::searching::{word_begin, word_char};
use crate::strings::{
    is_alphanumeric, is_letter, is_whitespace, letter, string_of, whitespace,
};
use crate::unicode::{columns, display_width};

verus! {

/// A request for what completes the word before the cursor of the command line.
pub struct CmdlineCompleteReq {
    /// The whole line.
    pub line: String,
    /// The cursor, in characters.
    pub col: usize,
    /// The word to complete.
    pub prefix: String,
    /// Where it begins, in bytes.
    pub anchor: usize,
    /// How many columns stand before it.
    pub anchor_width: usize,
    /// The request narrows a menu that is open already.
    pub refresh: bool,
}

/// What a menu of completions in a prompt begins with: the word to complete and where it
/// stands, the bytes of the line that each candidate takes the place of, where they are not
/// those of the word, and whether what is known of a candidate is shown beside it.
pub struct CmdlineMenu {
    pub prefix: String,
    pub anchor: usize,
    pub anchor_width: usize,
    pub spans: Vec<Option<(usize, usize)>>,
    pub docs: bool,
}

/// What a [`CmdlineCompleteReq`] says.
pub ghost struct ReqModel {
    pub line: Seq<char>,
    pub col: int,
    pub prefix: Seq<char>,
    pub anchor: int,
    pub anchor_width: usize,
    pub refresh: bool,
}

impl View for CmdlineCompleteReq {
    type V = ReqModel;

    open spec fn view(&self) -> ReqModel {
        ReqModel {
            line: self.line@,
            col: self.col as int,
            prefix: self.prefix@,
            anchor: self.anchor as int,
            anchor_width: self.anchor_width,
            refresh: self.refresh,
        }
    }
}

/// The characters after the last white space among the first `n`; -1 where there is
/// none.
pub open spec fn after_space(s: Seq<char>, n: int) -> int
    decreases n,
{
    if n <= 0 {
        -1
    } else if whitespace(s[n - 1]) {
        n
    } else {
        after_space(s, n - 1)
    }
}

/// The first letter from the `i`th character on, before the `n`th.
pub open spec fn first_letter(s: Seq<char>, i: int, n: int) -> Option<int>
    decreases n - i,
{
    if i < 0 || i >= n {
        None
    } else if letter(s[i]) {
        Some(i)
    } else {
        first_letter(s, i + 1, n)
    }
}

/// Where the word begins that a command is completed from: after the last white space,
/// or at the first letter where there is none.
pub open spec fn command_token(l: LineModel) -> Option<int> {
    let a = after_space(l.chars, l.col);
    if a >= 0 {
        Some(a)
    } else {
        first_letter(l.chars, 0, l.col)
    }
}

/// Where the word begins that a prompt is completed from.
pub open spec fn prompt_token(l: LineModel) -> int {
    word_begin(l.chars.take(l.col), l.col)
}

/// The request for what completes the word from the `start`th character to the cursor.
pub open spec fn request_at(l: LineModel, start: int, refresh: bool) -> ReqModel {
    ReqModel {
        line: l.chars,
        col: l.col,
        prefix: l.chars.subrange(start, l.col),
        anchor: encode_utf8(l.chars.take(start)).len() as int,
        anchor_width: columns(l.chars.take(start)),
        refresh,
    }
}

/// The request that asks for a completion; nothing where none is to be asked for and
/// the menu closes.
pub open spec fn complete_request(l: LineModel, refresh: bool) -> Option<ReqModel> {
    match l.kind {
        CmdlineKind::Prompt => if l.prompt_complete.enabled {
            Some(request_at(l, prompt_token(l), refresh))
        } else {
            None
        },
        CmdlineKind::Ex => if l.complete.enabled {
            match command_token(l) {
                Some(start) => Some(request_at(l, start, false)),
                None => None,
            }
        } else {
            None
        },
        _ => None,
    }
}

/// The request that narrows the open menu after a change of the line; nothing where the word
/// begins elsewhere than the one that the menu is for.
pub open spec fn narrowing(l: LineModel, anchor: int) -> Option<ReqModel> {
    match complete_request(l, true) {
        Some(r) => if l.kind == CmdlineKind::Prompt || r.anchor == anchor {
            Some(r)
        } else {
            None
        },
        None => None,
    }
}

/// The byte offset of the `n`th character of a line, or the end.
pub open spec fn byte_of(s: Seq<char>, n: int) -> int {
    encode_utf8(s.take(least(n, s.len() as int))).len() as int
}

/// A completion shown in the line.
pub open spec fn previewed(l: LineModel, pick: Option<(int, int, Seq<char>)>) -> LineModel {
    let k = typed_kept(l);
    match pick {
        Some((a, b, s)) => if 0 <= a <= b <= k.chars.len() {
            span_replaced(k, a, b, s)
        } else {
            k
        },
        None => k,
    }
}

/// A completion taken over into the line as it was typed.
pub open spec fn completion_taken(l: LineModel, pick: Option<(int, int, Seq<char>)>) -> LineModel {
    let k = typed_restored(l);
    match pick {
        Some((a, b, s)) => if 0 <= a <= b <= k.chars.len() {
            span_replaced(k, a, b, s)
        } else {
            k
        },
        None => k,
    }
}

/// What a completion puts in, and in place of which characters.
pub open spec fn pick_of(pick: Option<(usize, usize, &str)>) -> Option<(int, int, Seq<char>)> {
    match pick {
        Some((a, b, s)) => Some((a as int, b as int, s@)),
        None => None,
    }
}

/// A span of characters, given by the first one and their number, in bytes.
pub open spec fn bytes_of(s: Seq<char>, span: Option<(usize, usize)>) -> Option<(int, int)> {
    match span {
        Some((start, len)) => Some((byte_of(s, start as int), byte_of(s, start + len))),
        None => None,
    }
}

/// A span of bytes.
pub open spec fn byte_span(span: Option<(usize, usize)>) -> Option<(int, int)> {
    match span {
        Some((a, b)) => Some((a as int, b as int)),
        None => None,
    }
}

/// The menu of a prompt opened for candidates with spans of characters. Nothing is opened
/// where the line is not that of a prompt.
pub open spec fn menu_begun(
    l: LineModel,
    spans: Seq<Option<(usize, usize)>>,
    now: LineModel,
    r: Option<CmdlineMenu>,
) -> bool {
    match r {
        Some(m) => {
            let req = request_at(l, prompt_token(l), false);
            &&& l.kind == CmdlineKind::Prompt
            &&& m.prefix@ == req.prefix
            &&& m.anchor == req.anchor
            &&& m.anchor_width == req.anchor_width
            &&& m.docs == l.prompt_complete.docs
            &&& m.spans@.len() == spans.len()
            &&& forall|i: int|
                0 <= i < spans.len() ==> byte_span(#[trigger] m.spans@[i]) == bytes_of(
                    l.chars,
                    spans[i],
                )
            &&& now == (LineModel { menu: Some(m.anchor), ..l })
        },
        None => l.kind != CmdlineKind::Prompt && now == l,
    }
}

/// A text in place of the argument before the cursor, which begins after the last white
/// space. In a command's own name nothing is replaced.
pub open spec fn argument_replaced(l: LineModel, text: Seq<char>) -> LineModel {
    let start = after_space(l.chars, l.col);
    if l.kind == CmdlineKind::Ex && start >= 0 {
        span_replaced(l, start, l.col, text)
    } else {
        l
    }
}

/// How many bytes the first `n` characters take.
fn bytes_before(v: &Vec<char>, n: usize) -> (r: usize)
    requires
        n <= v@.len(),
    ensures
        r == encode_utf8(v@.take(n as int)).len(),
{
    let s = string_of(v, 0, n);
    assert(v@.subrange(0, n as int) =~= v@.take(n as int));
    s.as_str().as_bytes().len()
}

impl CommandLine {
    fn request(&self, start: usize, refresh: bool) -> (r: CmdlineCompleteReq)
        requires
            self.wf(),
            start <= self@.col,
        ensures
            r@ == request_at(self@, start as int, refresh),
    {
        let v = self.chars();
        let head = string_of(v, 0, start);
        assert(self@.chars.subrange(0, start as int) =~= self@.chars.take(start as int));
        CmdlineCompleteReq {
            line: self.text(),
            col: self.cmdline_cursor(),
            prefix: string_of(v, start, self.cmdline_cursor()),
            anchor: head.as_str().as_bytes().len(),
            anchor_width: display_width(head.as_str()),
            refresh,
        }
    }

    /// Where the word begins that a prompt is completed from, in characters.
    pub fn prompt_complete_token(&self) -> (r: usize)
        requires
            self.wf(),
        ensures
            r == prompt_token(self@),
            r <= self@.col,
    {
        let v = self.chars();
        let n: usize = self.cmdline_cursor();
        let ghost s = self@.chars.take(self@.col);
        let mut k: usize = n;
        while k > 0 && (v[k - 1] == '_' || is_alphanumeric(v[k - 1]))
            invariant
                v@ == self@.chars,
                s == self@.chars.take(n as int),
                n <= v@.len(),
                k <= n,
                word_begin(s, n as int) == word_begin(s, k as int),
            decreases k,
        {
            assert(s[k - 1] == v@[k - 1]);
            assert(word_char(s[k - 1]));
            k -= 1;
        }
        assert(k > 0 ==> s[k - 1] == v@[k - 1]);
        k
    }

    /// Where the argument before the cursor begins, in characters; nothing in a command's own
    /// name.
    fn argument_start(&self) -> (r: Option<usize>)
        requires
            self.wf(),
        ensures
            match r {
                Some(k) => k == after_space(self@.chars, self@.col) && k <= self@.col,
                None => after_space(self@.chars, self@.col) == -1,
            },
    {
        let v = self.chars();
        let n: usize = self.cmdline_cursor();
        let mut k: usize = n;
        while k > 0 && !is_whitespace(v[k - 1])
            invariant
                v@ == self@.chars,
                n <= v@.len(),
                k <= n,
                after_space(v@, n as int) == after_space(v@, k as int),
            decreases k,
        {
            k -= 1;
        }
        if k > 0 {
            Some(k)
        } else {
            None
        }
    }

    /// Where the word begins that a command is completed from, in characters.
    pub fn cmdline_complete_token(&self) -> (r: Option<usize>)
        requires
            self.wf(),
        ensures
            match command_token(self@) {
                Some(n) => r is Some && r->0 == n && n <= self@.col,
                None => r is None,
            },
    {
        if let Some(k) = self.argument_start() {
            return Some(k);
        }
        let v = self.chars();
        let n: usize = self.cmdline_cursor();
        let mut i: usize = 0;
        while i < n && !is_letter(v[i])
            invariant
                v@ == self@.chars,
                n <= v@.len(),
                i <= n,
                first_letter(v@, 0, n as int) == first_letter(v@, i as int, n as int),
            decreases n - i,
        {
            i += 1;
        }
        if i < n {
            Some(i)
        } else {
            None
        }
    }

    /// The request that asks for a completion; nothing where none is to be asked for
    /// and the menu closes. `refresh` says whether a menu is open already.
    pub fn cmdline_complete_trigger(&self, refresh: bool) -> (r: Option<CmdlineCompleteReq>)
        requires
            self.wf(),
        ensures
            match complete_request(self@, refresh) {
                Some(m) => r is Some && r->0@ == m,
                None => r is None,
            },
    {
        match self.kind() {
            CmdlineKind::Prompt => {
                if !self.completion().1.enabled {
                    return None;
                }
                let start: usize = self.prompt_complete_token();
                Some(self.request(start, refresh))
            },
            CmdlineKind::Ex => {
                if !self.completion().0.enabled {
                    return None;
                }
                match self.cmdline_complete_token() {
                    Some(start) => Some(self.request(start, false)),
                    None => None,
                }
            },
            _ => None,
        }
    }

    /// An edit while a menu is open for the word from byte `anchor` on: the line is
    /// the user's own again, and the request for the narrowed menu, where the word
    /// still begins there.
    pub fn cmdline_complete_refresh(&mut self, anchor: usize) -> (r: Option<CmdlineCompleteReq>)
        requires
            old(self).wf(),
        ensures
            final(self).wf(),
            final(self)@ == (LineModel { saved: None, ..old(self)@ }),
            match narrowing(final(self)@, anchor as int) {
                Some(m) => r is Some && r->0@ == m,
                None => r is None,
            },
    {
        self.forget_typed();
        let r = self.cmdline_complete_trigger(true);
        match r {
            Some(req) => {
                if self.kind() == CmdlineKind::Prompt || req.anchor == anchor {
                    Some(req)
                } else {
                    None
                }
            },
            None => None,
        }
    }

    /// A span of the line, given by its first character and its length, in bytes and
    /// held to the line.
    pub fn cmdline_char_span_to_bytes(&self, start: usize, len: usize) -> (r: (usize, usize))
        ensures
            r.0 == byte_of(self@.chars, start as int),
            r.1 == byte_of(self@.chars, start + len),
    {
        let v = self.chars();
        let n: usize = v.len();
        let a: usize = if start < n {
            start
        } else {
            n
        };
        let b: usize = if start < n && len < n - start {
            start + len
        } else {
            n
        };
        (bytes_before(v, a), bytes_before(v, b))
    }

    /// Open the menu of a prompt for candidates with the spans of characters that they take
    /// the place of. Nothing happens where the line is not that of a prompt.
    pub fn open_prompt_complete_menu(&mut self, spans: &Vec<Option<(usize, usize)>>) -> (r: Option<
        CmdlineMenu,
    >)
        requires
            old(self).wf(),
        ensures
            final(self).wf(),
            menu_begun(old(self)@, spans@, final(self)@, r),
    {
        if self.kind() != CmdlineKind::Prompt {
            return None;
        }
        let start: usize = self.prompt_complete_token();
        let req = self.request(start, false);
        let mut out: Vec<Option<(usize, usize)>> = Vec::new();
        let mut i: usize = 0;
        while i < spans.len()
            invariant
                i <= spans@.len(),
                out@.len() == i,
                forall|k: int|
                    0 <= k < i ==> byte_span(#[trigger] out@[k]) == bytes_of(
                        self@.chars,
                        spans@[k],
                    ),
            decreases spans@.len() - i,
        {
            let span = match spans[i] {
                Some((a, n)) => Some(self.cmdline_char_span_to_bytes(a, n)),
                None => None,
            };
            out.push(span);
            i += 1;
        }
        self.open_cmdline_menu(req.anchor);
        Some(
            CmdlineMenu {
                prefix: req.prefix,
                anchor: req.anchor,
                anchor_width: req.anchor_width,
                spans: out,
                docs: self.completion().1.docs,
            },
        )
    }

    /// Show a completion in the line, in place of a span of the line as it was typed.
    pub fn cmdline_complete_preview(&mut self, pick: Option<(usize, usize, &str)>)
        requires
            old(self).wf(),
        ensures
            final(self).wf(),
            final(self)@ == previewed(old(self)@, pick_of(pick)),
    {
        self.keep_typed();
        if let Some((a, b, s)) = pick {
            if a <= b && b <= self.chars().len() {
                self.replace_span(a, b, s);
            }
        }
    }

    /// Bring the line back that was typed before a completion was shown in it.
    pub fn cmdline_complete_revert(&mut self)
        requires
            old(self).wf(),
        ensures
            final(self).wf(),
            final(self)@ == typed_restored(old(self)@),
    {
        self.restore_typed();
    }

    /// Take a completion over into the line, in place of a span of the line as it was
    /// typed. Says whether there was one to take.
    pub fn cmdline_complete_accept(&mut self, pick: Option<(usize, usize, &str)>) -> (r: bool)
        requires
            old(self).wf(),
        ensures
            final(self).wf(),
            final(self)@ == completion_taken(old(self)@, pick_of(pick)),
            r == (pick is Some),
    {
        self.restore_typed();
        match pick {
            Some((a, b, s)) => {
                if a <= b && b <= self.chars().len() {
                    self.replace_span(a, b, s);
                }
                true
            },
            None => false,
        }
    }

    /// Put a text in place of the argument before the cursor.
    pub fn cmdline_replace_arg(&mut self, text: &str)
        requires
            old(self).wf(),
        ensures
            final(self).wf(),
            final(self)@ == argument_replaced(old(self)@, text@),
    {
        if self.kind() != CmdlineKind::Ex {
            return;
        }
        if let Some(start) = self.argument_start() {
            let end: usize = self.cmdline_cursor();
            self.replace_span(start, end, text);
        }
    }
}

/// Taking a preview back leaves the line that was typed.
pub proof fn revert_undoes_preview(l: LineModel, pick: Option<(int, int, Seq<char>)>)
    requires
        l.saved is None,
    ensures
        typed_restored(previewed(l, pick)) == l,
{
}

/// Taking a completion over after others were shown is the same as taking it over at
/// once.
pub proof fn accept_ignores_previews(
    l: LineModel,
    shown: Option<(int, int, Seq<char>)>,
    pick: Option<(int, int, Seq<char>)>,
)
    requires
        l.saved is None,
    ensures
        completion_taken(previewed(l, shown), pick) == completion_taken(l, pick),
{
}

} // verus!
