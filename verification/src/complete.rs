//! Completion of the word before the cursor.

use vstd::prelude::*;
use vstd::utf8::*;

use crate::buffer::{inserted, normalized, removed, Buffer};
use crate::desk::{byte_len, dirty, Desk, Pane};
use crate::input::{plain_key, Key, KeyCode};
use crate::log::with_piece;
use crate::searching::{word_begin, word_char};
use crate::strings::{chars_of, is_alphanumeric, same, string_of, texts};
use crate::text::{edit_lines, lemma_encode_concat, line_text};

verus! {

/// How many candidates are gathered at most.
pub const MAX_CANDIDATES: usize = 5000;

/// The keys that a completion menu takes.
pub struct CompleteKeys {
    pub next: Vec<Key>,
    pub prev: Vec<Key>,
    pub confirm: Vec<Key>,
    pub abort: Vec<Key>,
}

/// The keys of a completion menu that nobody has set.
pub open spec fn default_keys(k: CompleteKeys) -> bool {
    &&& k.next@ == seq![
        Key { code: KeyCode::Char('n'), ctrl: true, alt: false, shift: false },
        plain_key(KeyCode::Tab),
        plain_key(KeyCode::Down),
    ]
    &&& k.prev@ == seq![
        Key { code: KeyCode::Char('p'), ctrl: true, alt: false, shift: false },
        Key { code: KeyCode::Tab, ctrl: false, alt: false, shift: true },
        plain_key(KeyCode::Up),
    ]
    &&& k.confirm@ == seq![
        Key { code: KeyCode::Char('y'), ctrl: true, alt: false, shift: false },
    ]
    &&& k.abort@ == seq![
        Key { code: KeyCode::Char('e'), ctrl: true, alt: false, shift: false },
    ]
}

/// How completion works where nobody has set it: it is off, and once it is on, one character
/// asks for it.
pub open spec fn default_config(c: CompleteConfig) -> bool {
    &&& !c.enabled
    &&& c.auto
    &&& c.min_chars == 1
    &&& default_keys(c.keys)
}

impl Default for CompleteKeys {
    fn default() -> (k: Self)
        ensures
            default_keys(k),
    {
        let shift_tab = Key { code: KeyCode::Tab, ctrl: false, alt: false, shift: true };
        let mut next: Vec<Key> = Vec::new();
        next.push(Key::ctrl('n'));
        next.push(Key::new(KeyCode::Tab));
        next.push(Key::new(KeyCode::Down));
        let mut prev: Vec<Key> = Vec::new();
        prev.push(Key::ctrl('p'));
        prev.push(shift_tab);
        prev.push(Key::new(KeyCode::Up));
        let mut confirm: Vec<Key> = Vec::new();
        confirm.push(Key::ctrl('y'));
        let mut abort: Vec<Key> = Vec::new();
        abort.push(Key::ctrl('e'));
        proof {
            assert(next@ =~= seq![
                Key { code: KeyCode::Char('n'), ctrl: true, alt: false, shift: false },
                plain_key(KeyCode::Tab),
                plain_key(KeyCode::Down),
            ]);
            assert(prev@ =~= seq![
                Key { code: KeyCode::Char('p'), ctrl: true, alt: false, shift: false },
                Key { code: KeyCode::Tab, ctrl: false, alt: false, shift: true },
                plain_key(KeyCode::Up),
            ]);
            assert(confirm@ =~= seq![
                Key { code: KeyCode::Char('y'), ctrl: true, alt: false, shift: false },
            ]);
            assert(abort@ =~= seq![
                Key { code: KeyCode::Char('e'), ctrl: true, alt: false, shift: false },
            ]);
        }
        CompleteKeys { next, prev, confirm, abort }
    }
}

/// How completion works. It is off until it is set up.
pub struct CompleteConfig {
    pub enabled: bool,
    /// Complete while typing.
    pub auto: bool,
    /// How long a prefix must be.
    pub min_chars: usize,
    pub keys: CompleteKeys,
}

impl Default for CompleteConfig {
    fn default() -> (c: Self)
        ensures
            default_config(c),
    {
        CompleteConfig { enabled: false, auto: true, min_chars: 1, keys: CompleteKeys::default() }
    }
}

/// What a key does to a completion menu.
#[derive(Debug, Clone, Copy, PartialEq, Eq, Structural)]
pub enum CompleteAction {
    Next,
    Prev,
    Confirm,
    Abort,
}

/// What a key does to a completion menu, if it is one of its keys.
pub open spec fn action_of(k: CompleteKeys, key: Key) -> Option<CompleteAction> {
    if k.next@.contains(key) {
        Some(CompleteAction::Next)
    } else if k.prev@.contains(key) {
        Some(CompleteAction::Prev)
    } else if k.confirm@.contains(key) {
        Some(CompleteAction::Confirm)
    } else if k.abort@.contains(key) {
        Some(CompleteAction::Abort)
    } else {
        None
    }
}

fn holds(v: &Vec<Key>, key: Key) -> (b: bool)
    ensures
        b == v@.contains(key),
{
    let mut i: usize = 0;
    while i < v.len()
        invariant
            i <= v@.len(),
            forall|j: int| 0 <= j < i ==> #[trigger] v@[j] != key,
        decreases v@.len() - i,
    {
        if v[i] == key {
            return true;
        }
        i += 1;
    }
    false
}

impl CompleteKeys {
    /// What a key does to a completion menu, if it is one of its keys.
    pub fn complete_action(&self, key: Key) -> (r: Option<CompleteAction>)
        ensures
            r == action_of(*self, key),
    {
        if holds(&self.next, key) {
            Some(CompleteAction::Next)
        } else if holds(&self.prev, key) {
            Some(CompleteAction::Prev)
        } else if holds(&self.confirm, key) {
            Some(CompleteAction::Confirm)
        } else if holds(&self.abort, key) {
            Some(CompleteAction::Abort)
        } else {
            None
        }
    }
}

/// The words among the first `n` characters that another character ends.
pub open spec fn ended_words(s: Seq<char>, n: int) -> Seq<Seq<char>>
    decreases n,
{
    if n <= 0 {
        Seq::empty()
    } else if word_char(s[n - 1]) {
        ended_words(s, n - 1)
    } else {
        with_piece(ended_words(s, n - 1), s.subrange(word_begin(s, n - 1), n - 1))
    }
}

/// The words of a line.
pub open spec fn words_in(s: Seq<char>) -> Seq<Seq<char>> {
    let n = s.len() as int;
    with_piece(ended_words(s, n), s.subrange(word_begin(s, n), n))
}

/// The words of the first `n` lines.
pub open spec fn words_of(t: Seq<u8>, n: int) -> Seq<Seq<char>>
    decreases n,
{
    if n <= 0 {
        Seq::empty()
    } else {
        words_of(t, n - 1) + words_in(decode_utf8(line_text(t, n - 1)))
    }
}

/// The words of a list, each once and in the order of their first places, without the
/// prefix itself and without an empty one.
pub open spec fn candidates(words: Seq<Seq<char>>, prefix: Seq<char>) -> Seq<Seq<char>>
    decreases words.len(),
{
    if words.len() == 0 {
        Seq::empty()
    } else {
        let r = candidates(words.drop_last(), prefix);
        if words.last().len() == 0 || words.last() == prefix || r.contains(words.last()) {
            r
        } else {
            r.push(words.last())
        }
    }
}

/// The first `n` of a list.
pub open spec fn first_of(v: Seq<Seq<char>>, n: nat) -> Seq<Seq<char>> {
    if v.len() > n {
        v.take(n as int)
    } else {
        v
    }
}

/// A longer list of words has the same candidates and maybe more after them.
proof fn lemma_candidates_grow(a: Seq<Seq<char>>, b: Seq<Seq<char>>, prefix: Seq<char>)
    ensures
        candidates(a, prefix).is_prefix_of(candidates(a + b, prefix)),
    decreases b.len(),
{
    if b.len() == 0 {
        assert(a + b =~= a);
    } else {
        lemma_candidates_grow(a, b.drop_last(), prefix);
        assert((a + b).drop_last() =~= a + b.drop_last());
    }
}

/// No candidate is listed twice, and none is empty or the prefix itself.
pub proof fn candidates_are_distinct(words: Seq<Seq<char>>, prefix: Seq<char>)
    ensures
        candidates(words, prefix).no_duplicates(),
        !candidates(words, prefix).contains(prefix),
        !candidates(words, prefix).contains(Seq::empty()),
    decreases words.len(),
{
    if words.len() > 0 {
        candidates_are_distinct(words.drop_last(), prefix);
    }
}

/// Every word that is not empty, but for the prefix, is a candidate.
pub proof fn every_word_is_a_candidate(words: Seq<Seq<char>>, prefix: Seq<char>, w: Seq<char>)
    requires
        words.contains(w),
        w.len() > 0,
        w != prefix,
    ensures
        candidates(words, prefix).contains(w),
    decreases words.len(),
{
    let r = candidates(words.drop_last(), prefix);
    let i = words.index_of(w);
    if i < words.len() - 1 {
        assert(words.drop_last()[i] == w);
        every_word_is_a_candidate(words.drop_last(), prefix, w);
        let j = r.index_of(w);
        assert(candidates(words, prefix)[j] == w);
    } else if !r.contains(w) {
        assert(r.push(w).last() == w);
    }
}

fn is_word(c: char) -> (b: bool)
    ensures
        b == word_char(c),
{
    c == '_' || is_alphanumeric(c)
}

fn push_piece(out: &mut Vec<String>, v: &Vec<char>, a: usize, b: usize)
    requires
        a <= b <= v@.len(),
    ensures
        texts(final(out)@) == with_piece(texts(old(out)@), v@.subrange(a as int, b as int)),
{
    if a < b {
        let s = string_of(v, a, b);
        let ghost c = s@;
        out.push(s);
        assert(texts(out@) =~= texts(old(out)@).push(c));
    }
}

/// The words of a line.
pub fn split_words(line: &str) -> (out: Vec<String>)
    ensures
        texts(out@) == words_in(line@),
{
    let v = chars_of(line);
    let mut out: Vec<String> = Vec::new();
    let mut start: usize = 0;
    let mut i: usize = 0;
    assert(texts(out@) =~= Seq::<Seq<char>>::empty());
    while i < v.len()
        invariant
            v@ == line@,
            start <= i <= v@.len(),
            start == word_begin(line@, i as int),
            texts(out@) == ended_words(line@, i as int),
        decreases v@.len() - i,
    {
        if !is_word(v[i]) {
            push_piece(&mut out, &v, start, i);
            start = i + 1;
        }
        i += 1;
    }
    push_piece(&mut out, &v, start, i);
    out
}

/// Add a word to the candidates, if it is not empty, new and not the prefix itself. Says
/// whether it was added.
pub fn push_word(word: &str, prefix: &str, out: &mut Vec<String>) -> (added: bool)
    ensures
        added == (word@.len() > 0 && word@ != prefix@ && !texts(old(out)@).contains(word@)),
        texts(final(out)@) == if added {
            texts(old(out)@).push(word@)
        } else {
            texts(old(out)@)
        },
{
    if word.is_empty() || same(word, prefix) {
        return false;
    }
    let mut i: usize = 0;
    while i < out.len()
        invariant
            *out == *old(out),
            i <= out@.len(),
            word@.len() > 0,
            word@ != prefix@,
            forall|j: int| 0 <= j < i ==> (#[trigger] out@[j])@ != word@,
        decreases out@.len() - i,
    {
        if same(out[i].as_str(), word) {
            assert(texts(out@)[i as int] == word@);
            return false;
        }
        i += 1;
    }
    proof {
        assert forall|j: int| 0 <= j < texts(out@).len() implies texts(out@)[j] != word@ by {
            assert(texts(out@)[j] == out@[j]@);
        }
    }
    out.push(word.to_owned());
    assert(texts(out@) =~= texts(old(out)@).push(word@));
    true
}

impl Buffer {
    /// The words of the text that may complete a prefix: each once, in the order in
    /// which they first occur, up to a limit.
    pub fn buffer_candidates(&self, prefix: &str) -> (out: Vec<String>)
        requires
            self.settled(),
        ensures
            texts(out@) == first_of(
                candidates(words_of(self@.text, edit_lines(self@.text) as int), prefix@),
                MAX_CANDIDATES as nat,
            ),
    {
        let ghost t = self@.text;
        let count: usize = self.line_count();
        let mut out: Vec<String> = Vec::new();
        let mut row: usize = 0;
        assert(texts(out@) =~= candidates(words_of(t, 0), prefix@));
        while row < count && out.len() < MAX_CANDIDATES
            invariant
                self.settled(),
                t == self@.text,
                count == edit_lines(t),
                row <= count,
                texts(out@) == first_of(
                    candidates(words_of(t, row as int), prefix@),
                    MAX_CANDIDATES as nat,
                ),
            decreases count - row,
        {
            let s = self.line(row);
            let words = split_words(s.as_str());
            let ghost before = words_of(t, row as int);
            let ghost all = texts(words@);
            proof {
                encode_utf8_decode_utf8(s@);
                assert(texts(out@).len() == out@.len());
                assert(before + all.take(0) =~= before);
            }
            let mut i: usize = 0;
            while i < words.len() && out.len() < MAX_CANDIDATES
                invariant
                    i <= words@.len(),
                    all == texts(words@),
                    texts(out@) == first_of(
                        candidates(before + all.take(i as int), prefix@),
                        MAX_CANDIDATES as nat,
                    ),
                decreases words@.len() - i,
            {
                proof {
                    let now = before + all.take(i as int);
                    let next = before + all.take(i + 1);
                    assert(next.drop_last() =~= now);
                    assert(all[i as int] == words@[i as int]@);
                    assert(next.last() == all[i as int]);
                    assert(texts(out@).len() == out@.len());
                    assert(texts(out@) == candidates(now, prefix@));
                }
                let _added = push_word(words[i].as_str(), prefix, &mut out);
                proof {
                    let next = before + all.take(i + 1);
                    assert(texts(out@) == candidates(next, prefix@));
                    assert(texts(out@).len() <= MAX_CANDIDATES);
                }
                i += 1;
            }
            proof {
                lemma_candidates_grow(before + all.take(i as int), all.skip(i as int), prefix@);
                assert(before + all.take(i as int) + all.skip(i as int) =~= before + all);
                assert(texts(out@).len() == out@.len());
                assert(texts(out@) =~= first_of(
                    candidates(before + all, prefix@),
                    MAX_CANDIDATES as nat,
                ));
            }
            row += 1;
        }
        proof {
            lemma_words_grow(t, row as int, count as int, prefix@);
            assert(texts(out@).len() == out@.len());
            assert(texts(out@) =~= first_of(
                candidates(words_of(t, count as int), prefix@),
                MAX_CANDIDATES as nat,
            ));
        }
        out
    }
}

proof fn lemma_words_grow(t: Seq<u8>, m: int, n: int, prefix: Seq<char>)
    requires
        0 <= m <= n,
    ensures
        candidates(words_of(t, m), prefix).is_prefix_of(candidates(words_of(t, n), prefix)),
    decreases n - m,
{
    if m < n {
        lemma_words_grow(t, m, n - 1, prefix);
        lemma_candidates_grow(
            words_of(t, n - 1),
            words_in(decode_utf8(line_text(t, n - 1))),
            prefix,
        );
    }
}

/// The word before the cursor: where it begins, and its characters.
pub open spec fn prefix_at(p: Pane) -> (int, Seq<char>) {
    let before = decode_utf8(p.line().take(p.spot() - p.start_of(p.line_no())));
    let k = word_begin(before, before.len() as int);
    (
        p.start_of(p.line_no()) + encode_utf8(before.take(k)).len(),
        before.skip(k),
    )
}

/// The candidates to offer, with where the prefix begins and the prefix; nothing where
/// no menu is to be open.
pub open spec fn completion(p: Pane, enabled: bool, min_chars: usize) -> Option<
    (int, Seq<char>, Seq<Seq<char>>),
> {
    let (anchor, prefix) = prefix_at(p);
    let found = first_of(
        candidates(words_of(p.text(), edit_lines(p.text()) as int), prefix),
        MAX_CANDIDATES as nat,
    );
    if !enabled || prefix.len() < min_chars || found.len() == 0 {
        None
    } else {
        Some((anchor, prefix, found))
    }
}

/// The text from `anchor` to the cursor replaced, with the cursor after it.
pub open spec fn accepted(p: Pane, anchor: int, s: Seq<char>) -> Pane {
    p.with_buffer(
        dirty(normalized(inserted(removed(p.open.buffer, anchor, p.spot()), anchor, s))),
    ).at(anchor + encode_utf8(s).len())
}

impl Desk {
    /// The word before the cursor: where it begins, and its characters.
    pub fn complete_prefix(&self) -> (r: (usize, String))
        requires
            self.wf(),
        ensures
            r.0 == prefix_at(self@).0,
            r.1@ == prefix_at(self@).1,
            r.0 <= self@.spot(),
            self@.between(r.0 as int),
    {
        let n: usize = self.line_no();
        let start: usize = self.start_of(n);
        let s = self.line();
        let ghost l = self@.line();
        proof {
            self.spot_on_line();
        }
        let spot: usize = self.spot();
        let col: usize = spot - start;
        let (head, tail) = s.as_str().split_at(col);
        let v = chars_of(head);
        let ghost before = head@;
        proof {
            assert(encode_utf8(head@) =~= l.take(col as int));
            encode_utf8_decode_utf8(head@);
            lemma_encode_concat(head@, tail@);
            assert(encode_utf8(head@) + encode_utf8(tail@) =~= l);
            encode_utf8_decode_utf8(head@ + tail@);
            encode_utf8_decode_utf8(s@);
            assert(head@ + tail@ == s@);
        }
        let mut k: usize = v.len();
        let mut at: usize = col;
        assert(before.take(k as int) =~= before);
        while k > 0 && is_word(v[k - 1])
            invariant
                v@ == before,
                k <= v@.len(),
                at == encode_utf8(before.take(k as int)).len(),
                at <= col,
                word_begin(before, before.len() as int) == word_begin(before, k as int),
            decreases k,
        {
            let w: usize = byte_len(v[k - 1]);
            proof {
                assert(before.take(k as int) =~= before.take(k - 1) + seq![before[k - 1]]);
                lemma_encode_concat(before.take(k - 1), seq![before[k - 1]]);
            }
            at -= w;
            k -= 1;
        }
        let prefix = string_of(&v, k, v.len());
        assert(prefix@ =~= before.skip(k as int));
        proof {
            assert(before =~= before.take(k as int) + before.skip(k as int));
            lemma_encode_concat(before.take(k as int), before.skip(k as int));
            assert(before.take(k as int) + (before.skip(k as int) + tail@) =~= s@);
            lemma_encode_concat(before.take(k as int), before.skip(k as int) + tail@);
            self.column_is_between(at as int);
        }
        (start + at, prefix)
    }

    /// The candidates to offer; nothing where no menu is to be open: completion is
    /// off, the prefix is too short, or nothing completes it.
    pub fn complete_trigger(&self, config: &CompleteConfig) -> (r: Option<
        (usize, String, Vec<String>),
    >)
        requires
            self.wf(),
        ensures
            match completion(self@, config.enabled, config.min_chars) {
                Some((anchor, prefix, found)) => r is Some && (r->0).0 == anchor && (r->0).1@
                    == prefix && texts((r->0).2@) == found,
                None => r is None,
            },
    {
        if !config.enabled {
            return None;
        }
        let (anchor, prefix) = self.complete_prefix();
        let n: usize = chars_of(prefix.as_str()).len();
        if n < config.min_chars {
            return None;
        }
        let found = self.buffer().buffer_candidates(prefix.as_str());
        assert(texts(found@).len() == found@.len());
        if found.len() == 0 {
            return None;
        }
        Some((anchor, prefix, found))
    }

    /// Put a candidate in place of the text from `anchor` to the cursor.
    pub fn complete_accept(&mut self, anchor: usize, text: &str)
        requires
            old(self).wf(),
            anchor <= old(self)@.spot(),
            old(self)@.between(anchor as int),
        ensures
            final(self).wf(),
            final(self)@ == accepted(old(self)@, anchor as int, text@),
    {
        let to: usize = self.spot();
        self.swap_in(anchor, to, text);
        self.settle();
        proof {
            reveal(Pane::at);
            self.text_is_settled();
        }
        self.set_cursor_char(anchor.saturating_add(text.as_bytes().len()));
    }
}

} // verus!
