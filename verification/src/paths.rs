//! Paths, compared by what they say and not by what is on disk.

use vstd::prelude::*;

use crate::strings::{chars_of, joined_str, same, string_of, texts};

verus! {

/// A path in its parts.
pub struct PathParts {
    /// The path begins at the root.
    pub absolute: bool,
    pub parts: Vec<String>,
}

/// What a [`PathParts`] says.
pub ghost struct PathModel {
    pub absolute: bool,
    pub parts: Seq<Seq<char>>,
}

impl View for PathParts {
    type V = PathModel;

    open spec fn view(&self) -> PathModel {
        PathModel { absolute: self.absolute, parts: texts(self.parts@) }
    }
}

/// Where the part begins that the character before `n` is in.
pub open spec fn part_from(s: Seq<char>, n: int) -> int
    decreases n,
{
    if n <= 0 || s[n - 1] == '/' {
        n
    } else {
        part_from(s, n - 1)
    }
}

/// A path one part further: an empty part and `.` add nothing, and `..` takes the last
/// part away. Where there is none to take away it stays, but not at the root.
pub open spec fn part_added(p: PathModel, part: Seq<char>) -> PathModel {
    if part.len() == 0 || part == "."@ {
        p
    } else if part == ".."@ {
        if p.parts.len() > 0 && p.parts.last() != ".."@ {
            PathModel { parts: p.parts.drop_last(), ..p }
        } else if p.parts.len() == 0 && p.absolute {
            p
        } else {
            PathModel { parts: p.parts.push(part), ..p }
        }
    } else {
        PathModel { parts: p.parts.push(part), ..p }
    }
}

/// The parts of the first `n` characters that a slash ends.
pub open spec fn parts_upto(s: Seq<char>, n: int) -> PathModel
    decreases n,
{
    if n <= 0 {
        PathModel { absolute: s.len() > 0 && s[0] == '/', parts: Seq::empty() }
    } else if s[n - 1] == '/' {
        part_added(parts_upto(s, n - 1), s.subrange(part_from(s, n - 1), n - 1))
    } else {
        parts_upto(s, n - 1)
    }
}

/// A path without `.`, without `..` as far as that goes, and without slashes that say
/// nothing.
pub open spec fn path_of(s: Seq<char>) -> PathModel {
    let n = s.len() as int;
    part_added(parts_upto(s, n), s.subrange(part_from(s, n), n))
}

impl PathParts {
    /// The path written out.
    pub fn to_path(&self) -> (s: String)
        ensures
            s@ == rendered(self@),
    {
        let mut s = if self.absolute {
            "/".to_owned()
        } else {
            String::new()
        };
        let ghost head = s@;
        let n: usize = self.parts.len();
        proof {
            reveal_strlit("/");
            assert(n == texts(self.parts@).len());
            assert("/"@ =~= seq!['/']);
            assert(head + with_slashes(self@.parts, 0) =~= head);
        }
        let mut i: usize = 0;
        while i + 1 < n
            invariant
                n == self.parts@.len(),
                n == self@.parts.len(),
                i <= n,
                n > 0 ==> i < n,
                s@ == head + with_slashes(self@.parts, i as int),
            decreases n - i,
        {
            let ghost before = s@;
            assert(self@.parts[i as int] == self.parts@[i as int]@);
            s.append(self.parts[i].as_str());
            s.push('/');
            assert(s@ =~= head + with_slashes(self@.parts, i + 1));
            i += 1;
        }
        if n > 0 {
            assert(self@.parts[n - 1] == self.parts@[n - 1]@);
            s.append(self.parts[n - 1].as_str());
        }
        s
    }

    fn add_part(&mut self, part: String)
        ensures
            final(self)@ == part_added(old(self)@, part@),
    {
        let ghost before = texts(self.parts@);
        let ghost c = part@;
        let n: usize = self.parts.len();
        if part.as_str().is_empty() || same(part.as_str(), ".") {
            return;
        }
        if same(part.as_str(), "..") {
            if n > 0 {
                assert(before.last() == self.parts@[n - 1]@);
                if !same(self.parts[n - 1].as_str(), "..") {
                    let _gone = self.parts.pop();
                    assert(texts(self.parts@) =~= before.drop_last());
                    return;
                }
            } else if self.absolute {
                return;
            }
        }
        self.parts.push(part);
        assert(texts(self.parts@) =~= before.push(c));
    }
}

/// A path without what says nothing.
pub fn normalize_path(path: &str) -> (p: PathParts)
    ensures
        p@ == path_of(path@),
{
    let v = chars_of(path);
    let n: usize = v.len();
    let mut p = PathParts { absolute: n > 0 && v[0] == '/', parts: Vec::new() };
    assert(texts(p.parts@) =~= Seq::<Seq<char>>::empty());
    let mut start: usize = 0;
    let mut i: usize = 0;
    while i < n
        invariant
            n == v@.len(),
            v@ == path@,
            start <= i <= n,
            start == part_from(path@, i as int),
            p@ == parts_upto(path@, i as int),
        decreases n - i,
    {
        if v[i] == '/' {
            p.add_part(string_of(&v, start, i));
            start = i + 1;
        }
        i += 1;
    }
    p.add_part(string_of(&v, start, n));
    p
}

/// A path from the root, where it is known which directory it starts from.
pub open spec fn anchored(cwd: Seq<char>, s: Seq<char>) -> Seq<char> {
    if cwd.len() == 0 || (s.len() > 0 && s[0] == '/') {
        s
    } else {
        cwd + "/"@ + s
    }
}

/// A path from the root without what says nothing.
pub open spec fn full_path(cwd: Seq<char>, s: Seq<char>) -> PathModel {
    path_of(anchored(cwd, s))
}

/// A path from the root without what says nothing. A relative one starts from `cwd`, where
/// that is not empty.
pub fn absolutize_normalize(cwd: &str, path: &str) -> (p: PathParts)
    ensures
        p@ == full_path(cwd@, path@),
{
    let v = chars_of(path);
    if cwd.is_empty() || (v.len() > 0 && v[0] == '/') {
        return normalize_path(path);
    }
    let mut s = joined_str(cwd, "/");
    s.append(path);
    normalize_path(s.as_str())
}

/// Whether two paths name the same file, as far as what they say goes.
pub fn same_path(cwd: &str, a: &str, b: &str) -> (r: bool)
    ensures
        r == (full_path(cwd@, a@) == full_path(cwd@, b@)),
{
    let p = absolutize_normalize(cwd, a);
    let q = absolutize_normalize(cwd, b);
    assert(texts(p.parts@).len() == p.parts@.len());
    assert(texts(q.parts@).len() == q.parts@.len());
    if p.absolute != q.absolute || p.parts.len() != q.parts.len() {
        return false;
    }
    let mut i: usize = 0;
    while i < p.parts.len()
        invariant
            i <= p.parts@.len(),
            p.parts@.len() == q.parts@.len(),
            p.absolute == q.absolute,
            p@ == full_path(cwd@, a@),
            q@ == full_path(cwd@, b@),
            forall|j: int| 0 <= j < i ==> (#[trigger] p.parts@[j])@ == q.parts@[j]@,
        decreases p.parts@.len() - i,
    {
        if !same(p.parts[i].as_str(), q.parts[i].as_str()) {
            assert(texts(p.parts@)[i as int] != texts(q.parts@)[i as int]);
            return false;
        }
        i += 1;
    }
    assert(texts(p.parts@) =~= texts(q.parts@));
    true
}

/// No part of a path is empty or `.`, and at the root none is `..`: there is nothing left
/// to take away.
pub open spec fn plain(p: PathModel) -> bool {
    &&& forall|i: int|
        0 <= i < p.parts.len() ==> (#[trigger] p.parts[i]).len() > 0 && p.parts[i] != "."@
    &&& forall|i: int, j: int|
        0 <= i <= j < p.parts.len() && #[trigger] p.parts[j] == ".."@ ==> #[trigger] p.parts[i]
            == ".."@
    &&& p.absolute ==> forall|i: int| 0 <= i < p.parts.len() ==> #[trigger] p.parts[i] != ".."@
}

proof fn lemma_added_plain(p: PathModel, part: Seq<char>)
    requires
        plain(p),
    ensures
        plain(part_added(p, part)),
{
    let q = part_added(p, part);
    if part == ".."@ && q.parts == p.parts.push(part) {
        assert forall|i: int, j: int|
            0 <= i <= j < q.parts.len() && #[trigger] q.parts[j] == ".."@ implies #[trigger] q.parts[i]
            == ".."@ by {
            if i < p.parts.len() {
                let last = p.parts.len() - 1;
                assert(p.parts[last] == ".."@);
                assert(p.parts[i] == ".."@);
            }
        }
        if p.absolute {
            if p.parts.len() > 0 {
                assert(p.parts[p.parts.len() - 1] != ".."@);
            }
        }
    }
}

proof fn lemma_parts_plain(s: Seq<char>, n: int)
    ensures
        plain(parts_upto(s, n)),
    decreases n,
{
    if n > 0 {
        lemma_parts_plain(s, n - 1);
        if s[n - 1] == '/' {
            lemma_added_plain(parts_upto(s, n - 1), s.subrange(part_from(s, n - 1), n - 1));
        }
    }
}

/// A normal path says nothing in vain: no part is empty or `.`, and `..` stands at the
/// start alone, and not at the root.
pub proof fn normal_path_is_plain(s: Seq<char>)
    ensures
        plain(path_of(s)),
{
    let n = s.len() as int;
    lemma_parts_plain(s, n);
    lemma_added_plain(parts_upto(s, n), s.subrange(part_from(s, n), n));
}

/// The parts of a path, each with a slash after it.
pub open spec fn with_slashes(parts: Seq<Seq<char>>, n: int) -> Seq<char>
    decreases n,
{
    if n <= 0 {
        Seq::empty()
    } else {
        with_slashes(parts, n - 1) + parts[n - 1] + seq!['/']
    }
}

/// A path written out again.
pub open spec fn rendered(p: PathModel) -> Seq<char> {
    let n = p.parts.len() as int;
    let head = if p.absolute {
        seq!['/']
    } else {
        Seq::empty()
    };
    if n == 0 {
        head
    } else {
        head + with_slashes(p.parts, n - 1) + p.parts[n - 1]
    }
}

/// No part holds a slash.
pub open spec fn unslashed(p: PathModel) -> bool {
    forall|i: int, k: int|
        0 <= i < p.parts.len() && 0 <= k < p.parts[i].len() ==> #[trigger] p.parts[i][k] != '/'
}

proof fn lemma_part_from(s: Seq<char>, n: int)
    requires
        0 <= n <= s.len(),
    ensures
        0 <= part_from(s, n) <= n,
        forall|k: int| part_from(s, n) <= k < n ==> s[k] != '/',
    decreases n,
{
    if n > 0 && s[n - 1] != '/' {
        lemma_part_from(s, n - 1);
    }
}

proof fn lemma_added_unslashed(p: PathModel, part: Seq<char>)
    requires
        unslashed(p),
        forall|k: int| 0 <= k < part.len() ==> part[k] != '/',
    ensures
        unslashed(part_added(p, part)),
{
    let q = part_added(p, part);
    assert forall|i: int, k: int|
        0 <= i < q.parts.len() && 0 <= k < q.parts[i].len() implies #[trigger] q.parts[i][k]
        != '/' by {
        if i < p.parts.len() {
            assert(q.parts[i] == p.parts[i]);
            assert(p.parts[i][k] != '/');
        }
    }
}

proof fn lemma_unslashed(s: Seq<char>, n: int)
    requires
        0 <= n <= s.len(),
    ensures
        unslashed(parts_upto(s, n)),
    decreases n,
{
    if n > 0 {
        lemma_unslashed(s, n - 1);
        if s[n - 1] == '/' {
            lemma_part_from(s, n - 1);
            lemma_added_unslashed(
                parts_upto(s, n - 1),
                s.subrange(part_from(s, n - 1), n - 1),
            );
        }
    }
}

/// Where no slash stands between, the parts are those before, and the part begins there.
proof fn lemma_inside_part(s: Seq<char>, a: int, n: int)
    requires
        0 <= a <= n <= s.len(),
        part_from(s, a) == a,
        forall|k: int| a <= k < n ==> s[k] != '/',
    ensures
        parts_upto(s, n) == parts_upto(s, a),
        part_from(s, n) == a,
    decreases n,
{
    if a < n {
        lemma_inside_part(s, a, n - 1);
    }
}

/// A part of a plain path is added to those before it.
proof fn lemma_part_stays(p: PathModel, n: int)
    requires
        plain(p),
        0 <= n < p.parts.len(),
    ensures
        part_added(PathModel { parts: p.parts.take(n), ..p }, p.parts[n]) == (PathModel {
            parts: p.parts.take(n + 1),
            ..p
        }),
{
    let part = p.parts[n];
    assert(p.parts.take(n).push(part) =~= p.parts.take(n + 1));
    if part == ".."@ && n > 0 {
        assert(p.parts[n - 1] == ".."@);
        assert(p.parts.take(n).last() == p.parts[n - 1]);
    }
}

/// What has been read of a written path after its first `n` parts and their slashes.
proof fn lemma_read_back(p: PathModel, s: Seq<char>, head: int, n: int)
    requires
        plain(p),
        unslashed(p),
        0 <= n <= p.parts.len(),
        head == if p.absolute { 1int } else { 0int },
        head + with_slashes(p.parts, n).len() <= s.len(),
        p.absolute ==> s.len() > 0 && s[0] == '/',
        !p.absolute ==> s.len() == 0 || s[0] != '/',
        s.subrange(head, head + with_slashes(p.parts, n).len()) == with_slashes(p.parts, n),
    ensures
        ({
            let at = head + with_slashes(p.parts, n).len();
            &&& parts_upto(s, at) == (PathModel { parts: p.parts.take(n), ..p })
            &&& part_from(s, at) == at
        }),
    decreases n,
{
    if n == 0 {
        assert(p.parts.take(0) =~= Seq::<Seq<char>>::empty());
        assert(parts_upto(s, 0) == (PathModel { absolute: p.absolute, parts: Seq::empty() }));
        if p.absolute {
            assert(s.subrange(part_from(s, 0), 0).len() == 0);
        }
    } else {
        let w = with_slashes(p.parts, n);
        let v = with_slashes(p.parts, n - 1);
        let part = p.parts[n - 1];
        let a = head + v.len();
        let z = a + part.len();
        let sub = s.subrange(head, head + w.len());
        assert(s.subrange(head, a) =~= v) by {
            assert forall|k: int| 0 <= k < v.len() implies s.subrange(head, a)[k] == v[k] by {
                assert(sub[k] == w[k]);
            }
        }
        lemma_read_back(p, s, head, n - 1);
        assert forall|k: int| a <= k < z implies s[k] != '/' by {
            assert(sub[k - head] == w[k - head]);
            assert(w[k - head] == part[k - a]);
        }
        lemma_inside_part(s, a, z);
        assert(s[z] == '/') by {
            assert(sub[z - head] == w[z - head]);
        }
        assert(s.subrange(a, z) =~= part) by {
            assert forall|k: int| 0 <= k < part.len() implies s.subrange(a, z)[k] == part[k] by {
                assert(sub[v.len() + k] == w[v.len() + k]);
            }
        }
        lemma_part_stays(p, n - 1);
    }
}

proof fn lemma_slashes_begin(p: PathModel, n: int)
    requires
        plain(p),
        unslashed(p),
        0 < n <= p.parts.len(),
    ensures
        with_slashes(p.parts, n).len() > 0,
        with_slashes(p.parts, n)[0] != '/',
    decreases n,
{
    if n > 1 {
        lemma_slashes_begin(p, n - 1);
    } else {
        assert(with_slashes(p.parts, 0).len() == 0);
        assert(p.parts[0][0] != '/');
        assert(with_slashes(p.parts, 1)[0] == p.parts[0][0]);
    }
}

/// A path without what says nothing, written out and read again, is the same: to normalise
/// it twice is to normalise it once.
pub proof fn normalizing_twice_is_once(s: Seq<char>)
    ensures
        path_of(rendered(path_of(s))) == path_of(s),
{
    let p = path_of(s);
    let r = rendered(p);
    let n = p.parts.len() as int;
    normal_path_is_plain(s);
    lemma_unslashed(s, s.len() as int);
    lemma_part_from(s, s.len() as int);
    lemma_added_unslashed(
        parts_upto(s, s.len() as int),
        s.subrange(part_from(s, s.len() as int), s.len() as int),
    );
    let head = if p.absolute {
        1int
    } else {
        0int
    };
    if n > 0 {
        let v = with_slashes(p.parts, n - 1);
        let a = head + v.len();
        let part = p.parts[n - 1];
        if !p.absolute {
            if n > 1 {
                lemma_slashes_begin(p, n - 1);
                assert(r[0] == v[0]);
            } else {
                assert(part[0] != '/');
                assert(r[0] == part[0]);
            }
        }
        assert(r.subrange(head, a) =~= v);
        lemma_read_back(p, r, head, n - 1);
        assert forall|k: int| a <= k < r.len() implies r[k] != '/' by {
            assert(r[k] == part[k - a]);
        }
        lemma_inside_part(r, a, r.len() as int);
        assert(r.subrange(a, r.len() as int) =~= part);
        lemma_part_stays(p, n - 1);
        assert(p.parts.take(n) =~= p.parts);
    } else {
        assert(with_slashes(p.parts, 0) =~= Seq::<char>::empty());
        assert(r.subrange(head, head) =~= Seq::<char>::empty());
        lemma_read_back(p, r, head, 0);
        assert(p.parts.take(0) =~= p.parts);
        assert(r.subrange(head, head).len() == 0);
    }
}

/// A relative path and the one that names the same file from the root are the same.
pub proof fn relative_path_is_anchored(cwd: Seq<char>, s: Seq<char>)
    requires
        cwd.len() > 0 && cwd[0] == '/',
    ensures
        full_path(cwd, anchored(cwd, s)) == full_path(cwd, s),
{
}

} // verus!
