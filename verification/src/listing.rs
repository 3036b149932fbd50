//! Directory listings.

use vstd::prelude::*;
use vstd::utf8::*;

use crate::buffer::{
    empty_buffer, lemma_ends_in_line_feed, Buffer, BufferKind, BufferModel, DirEntry,
};
use crate::rope::rope_from_str;
use crate::strings::chars_of;
use crate::text::buffer_text;

verus! {

/// A string in lower case, as Unicode maps it.
pub uninterp spec fn lowercase(s: Seq<char>) -> Seq<char>;

/// `str::to_lowercase`, by its name.
#[verifier::external_body]
fn to_lowercase(s: &str) -> (r: String)
    ensures
        r@ == lowercase(s@),
{
    s.to_lowercase()
}

/// An entry: whether it is a directory, and its name.
pub ghost struct Entry {
    pub is_dir: bool,
    pub name: Seq<char>,
}

impl View for DirEntry {
    type V = Entry;

    open spec fn view(&self) -> Entry {
        Entry { is_dir: self.is_dir, name: self.name@ }
    }
}

/// `a` comes before `b` in the dictionary, where characters go by their numbers.
pub open spec fn dictionary_before(a: Seq<char>, b: Seq<char>) -> bool
    decreases a.len(),
{
    if b.len() == 0 {
        false
    } else if a.len() == 0 {
        true
    } else if a[0] != b[0] {
        a[0] < b[0]
    } else {
        dictionary_before(a.drop_first(), b.drop_first())
    }
}

/// Directories come first, and then names go by the dictionary without regard to
/// case.
pub open spec fn listed_before(a: Entry, b: Entry) -> bool {
    if a.is_dir != b.is_dir {
        a.is_dir
    } else {
        dictionary_before(lowercase(a.name), lowercase(b.name))
    }
}

/// `s` with `x` put in after every entry that does not come after it.
pub open spec fn put_in_order(s: Seq<Entry>, x: Entry) -> Seq<Entry>
    decreases s.len(),
{
    if s.len() > 0 && listed_before(x, s.last()) {
        put_in_order(s.drop_last(), x).push(s.last())
    } else {
        s.push(x)
    }
}

/// The entries in their order; those that neither comes before the other keep the
/// order they had.
pub open spec fn in_order(s: Seq<Entry>) -> Seq<Entry>
    decreases s.len(),
{
    if s.len() == 0 {
        s
    } else {
        put_in_order(in_order(s.drop_last()), s.last())
    }
}

/// One line for each entry, with a slash after the name of a directory.
pub open spec fn entry_lines(s: Seq<Entry>) -> Seq<char>
    decreases s.len(),
{
    if s.len() == 0 {
        Seq::empty()
    } else {
        let e = s.last();
        let name = if e.is_dir {
            e.name.push('/')
        } else {
            e.name
        };
        entry_lines(s.drop_last()) + name.push('\n')
    }
}

/// The text of a listing: the way up, then the entries in order.
pub open spec fn listing(s: Seq<Entry>) -> Seq<char> {
    "../\n"@ + entry_lines(in_order(s))
}

pub open spec fn entries_of(v: Seq<DirEntry>) -> Seq<Entry> {
    v.map_values(|e: DirEntry| e@)
}

fn is_dictionary_before(a: &Vec<char>, b: &Vec<char>) -> (r: bool)
    ensures
        r == dictionary_before(a@, b@),
{
    let mut i: usize = 0;
    assert(a@.skip(0) =~= a@);
    assert(b@.skip(0) =~= b@);
    while i < a.len() && i < b.len()
        invariant
            i <= a@.len(),
            i <= b@.len(),
            dictionary_before(a@, b@) == dictionary_before(a@.skip(i as int), b@.skip(i as int)),
        decreases a@.len() - i,
    {
        assert(a@.skip(i as int)[0] == a@[i as int]);
        assert(b@.skip(i as int)[0] == b@[i as int]);
        if a[i] != b[i] {
            return a[i] < b[i];
        }
        assert(a@.skip(i as int).drop_first() =~= a@.skip(i + 1));
        assert(b@.skip(i as int).drop_first() =~= b@.skip(i + 1));
        i += 1;
    }
    i < b.len()
}

fn is_listed_before(a: &DirEntry, b: &DirEntry) -> (r: bool)
    ensures
        r == listed_before(a@, b@),
{
    if a.is_dir != b.is_dir {
        a.is_dir
    } else {
        let ka = to_lowercase(a.name.as_str());
        let kb = to_lowercase(b.name.as_str());
        is_dictionary_before(&chars_of(ka.as_str()), &chars_of(kb.as_str()))
    }
}

proof fn lemma_put_at(s: Seq<Entry>, x: Entry, at: int)
    requires
        0 <= at <= s.len(),
        at == 0 || !listed_before(x, s[at - 1]),
        forall|k: int| at <= k < s.len() ==> listed_before(x, #[trigger] s[k]),
    ensures
        put_in_order(s, x) == s.insert(at, x),
    decreases s.len(),
{
    if at < s.len() {
        assert(listed_before(x, s[s.len() - 1]));
        lemma_put_at(s.drop_last(), x, at);
        assert(s.drop_last().insert(at, x).push(s.last()) =~= s.insert(at, x));
    } else {
        if s.len() > 0 {
            assert(s.last() == s[at - 1]);
        }
        assert(s.push(x) =~= s.insert(at, x));
    }
}

impl Buffer {
    /// A listing of the directory at `dir`, which is read-only.
    pub fn from_dir_entries(dir: String, entries: Vec<DirEntry>) -> (b: Buffer)
        ensures
            b.wf(),
            buffer_text(b@.text),
            b@ == (BufferModel {
                text: encode_utf8(listing(entries_of(entries@))),
                path: Some(dir@),
                kind: b@.kind,
                ..empty_buffer()
            }),
            b@.kind matches BufferKind::Directory(p) && p@ == dir@,
    {
        let ghost all = entries_of(entries@);
        let mut left = entries;
        let mut sorted: Vec<DirEntry> = Vec::new();
        // Entries are taken from the front, so that equal ones keep their order.
        assert(entries_of(sorted@) =~= in_order(all.take(0)));
        assert(entries_of(left@) =~= all.skip(0));
        while left.len() > 0
            invariant
                left@.len() <= all.len(),
                entries_of(left@) == all.skip(all.len() - left@.len()),
                entries_of(sorted@) == in_order(all.take(all.len() - left@.len())),
            decreases left@.len(),
        {
            let ghost k = all.len() - left@.len();
            assert(left@[0]@ == entries_of(left@)[0]);
            assert(all.skip(k)[0] == all[k]);
            let ghost left_before = left@;
            let x = left.remove(0);
            assert(entries_of(left@) =~= entries_of(left_before).drop_first());
            assert(all.skip(k).drop_first() =~= all.skip(k + 1));
            assert(all.take(k + 1).drop_last() =~= all.take(k));
            assert(all.take(k + 1).last() == x@);
            let mut at: usize = sorted.len();
            let ghost es = entries_of(sorted@);
            while at > 0 && is_listed_before(&x, &sorted[at - 1])
                invariant
                    at <= sorted@.len(),
                    es == entries_of(sorted@),
                    forall|m: int| at <= m < es.len() ==> listed_before(x@, #[trigger] es[m]),
                decreases at,
            {
                assert(es[at - 1] == sorted@[at - 1]@);
                at -= 1;
            }
            proof {
                if at > 0 {
                    assert(es[at - 1] == sorted@[at - 1]@);
                }
                lemma_put_at(es, x@, at as int);
            }
            let ghost sorted_before = sorted@;
            let ghost xv = x@;
            sorted.insert(at, x);
            assert(entries_of(sorted@) =~= entries_of(sorted_before).insert(at as int, xv));
        }
        assert(all.take(all.len() as int) =~= all);
        let ghost es = entries_of(sorted@);
        let mut text = "../\n".to_owned();
        let mut i: usize = 0;
        proof {
            reveal_strlit("../\n");
        }
        assert(entry_lines(es.take(0)) =~= Seq::<char>::empty());
        assert(text@ + Seq::<char>::empty() =~= text@);
        while i < sorted.len()
            invariant
                i <= sorted@.len(),
                es == entries_of(sorted@),
                text@ == "../\n"@ + entry_lines(es.take(i as int)),
                text@.len() > 0,
                text@.last() == '\n',
            decreases sorted@.len() - i,
        {
            let ghost before = text@;
            assert(es.take(i + 1).drop_last() =~= es.take(i as int));
            assert(es[i as int] == sorted@[i as int]@);
            text.append(sorted[i].name.as_str());
            if sorted[i].is_dir {
                text.push('/');
            }
            text.push('\n');
            assert(text@ =~= "../\n"@ + entry_lines(es.take(i + 1)));
            i += 1;
        }
        assert(es.take(i as int) =~= es);
        proof {
            encode_utf8_valid_utf8(text@);
            lemma_ends_in_line_feed(text@);
        }
        let mut b = Buffer::empty();
        b.replace_text(rope_from_str(text.as_str()));
        b.set_path(Some(dir.clone()));
        b.kind = BufferKind::Directory(dir);
        b
    }
}

proof fn lemma_put_members(s: Seq<Entry>, x: Entry)
    ensures
        put_in_order(s, x).to_multiset() == s.to_multiset().insert(x),
    decreases s.len(),
{
    vstd::seq_lib::to_multiset_build(s, x);
    if s.len() > 0 && listed_before(x, s.last()) {
        let p = put_in_order(s.drop_last(), x);
        lemma_put_members(s.drop_last(), x);
        vstd::seq_lib::to_multiset_build(p, s.last());
        vstd::seq_lib::to_multiset_build(s.drop_last(), s.last());
        assert(s.drop_last().push(s.last()) =~= s);
        assert(p.to_multiset().insert(s.last()) =~= s.to_multiset().insert(x));
    }
}

/// A listing shows every entry, and each as often as it is there.
pub proof fn listing_keeps_entries(s: Seq<Entry>)
    ensures
        in_order(s).to_multiset() == s.to_multiset(),
    decreases s.len(),
{
    if s.len() > 0 {
        listing_keeps_entries(s.drop_last());
        lemma_put_members(in_order(s.drop_last()), s.last());
        vstd::seq_lib::to_multiset_build(s.drop_last(), s.last());
        assert(s.drop_last().push(s.last()) =~= s);
    }
}

pub open spec fn ordered(s: Seq<Entry>) -> bool {
    forall|i: int, j: int|
        0 <= i < j < s.len() ==> !listed_before(#[trigger] s[j], #[trigger] s[i])
}

proof fn lemma_dictionary_total(a: Seq<char>, b: Seq<char>)
    ensures
        !(dictionary_before(a, b) && dictionary_before(b, a)),
    decreases a.len(),
{
    if a.len() > 0 && b.len() > 0 && a[0] == b[0] {
        lemma_dictionary_total(a.drop_first(), b.drop_first());
    }
}

proof fn lemma_dictionary_chain(a: Seq<char>, b: Seq<char>, c: Seq<char>)
    requires
        !dictionary_before(b, a),
        !dictionary_before(c, b),
    ensures
        !dictionary_before(c, a),
    decreases a.len(),
{
    if a.len() > 0 && b.len() > 0 && c.len() > 0 && a[0] == b[0] && b[0] == c[0] {
        lemma_dictionary_chain(a.drop_first(), b.drop_first(), c.drop_first());
    }
}

proof fn lemma_put_ordered(s: Seq<Entry>, x: Entry)
    requires
        ordered(s),
    ensures
        ordered(put_in_order(s, x)),
        put_in_order(s, x).len() == s.len() + 1,
        forall|y: Entry|
            (forall|i: int| 0 <= i < s.len() ==> !listed_before(y, #[trigger] s[i]))
                && !listed_before(y, x) ==> forall|i: int|
                0 <= i < s.len() + 1 ==> !listed_before(y, #[trigger] put_in_order(s, x)[i]),
    decreases s.len(),
{
    let r = put_in_order(s, x);
    if s.len() > 0 && listed_before(x, s.last()) {
        let d = s.drop_last();
        let p = put_in_order(d, x);
        assert forall|i: int, j: int| 0 <= i < j < d.len() implies !listed_before(
            #[trigger] d[j],
            #[trigger] d[i],
        ) by {
            assert(d[i] == s[i] && d[j] == s[j]);
        }
        lemma_put_ordered(d, x);
        let y = s.last();
        assert forall|i: int| 0 <= i < d.len() implies !listed_before(y, #[trigger] d[i]) by {
            assert(!listed_before(s[s.len() - 1], s[i]));
        }
        lemma_dictionary_total(lowercase(x.name), lowercase(y.name));
        assert(!listed_before(y, x));
        assert forall|i: int, j: int| 0 <= i < j < r.len() implies !listed_before(
            #[trigger] r[j],
            #[trigger] r[i],
        ) by {
            if j < p.len() {
                assert(!listed_before(p[j], p[i]));
            } else {
                assert(!listed_before(y, p[i]));
            }
        }
        assert forall|z: Entry|
            (forall|i: int| 0 <= i < s.len() ==> !listed_before(z, #[trigger] s[i]))
                && !listed_before(z, x) implies forall|i: int|
            0 <= i < s.len() + 1 ==> !listed_before(z, #[trigger] r[i]) by {
            assert(!listed_before(z, s[s.len() - 1]));
            assert forall|i: int| 0 <= i < d.len() implies !listed_before(z, #[trigger] d[i]) by {
                assert(d[i] == s[i]);
            }
            assert forall|i: int| 0 <= i < s.len() + 1 implies !listed_before(
                z,
                #[trigger] r[i],
            ) by {
                if i < p.len() {
                    assert(!listed_before(z, p[i]));
                }
            }
        }
    } else {
        assert forall|i: int, j: int| 0 <= i < j < r.len() implies !listed_before(
            #[trigger] r[j],
            #[trigger] r[i],
        ) by {
            if j < s.len() {
                assert(!listed_before(s[j], s[i]));
            } else if i < s.len() - 1 {
                let l = s.last();
                assert(!listed_before(s[s.len() - 1], s[i]));
                if s[i].is_dir == l.is_dir && l.is_dir == x.is_dir {
                    lemma_dictionary_chain(
                        lowercase(s[i].name),
                        lowercase(l.name),
                        lowercase(x.name),
                    );
                }
            }
        }
    }
}

/// A listing is in order: no entry comes before one above it.
pub proof fn listing_is_ordered(s: Seq<Entry>)
    ensures
        ordered(in_order(s)),
    decreases s.len(),
{
    if s.len() > 0 {
        listing_is_ordered(s.drop_last());
        lemma_put_ordered(in_order(s.drop_last()), s.last());
    }
}

} // verus!
