//! Options of a buffer, set by name.

use vstd::prelude::*;

use crate::buffer::BufferModel;
use crate::open::{OpenBuffer, OpenModel};
use crate::options::{
    fileformat_label, foldmethod_label, BufferOptions, FileFormat, FoldMethod, RegexSyntax,
};
use crate::strings::{chars_of, same, string_of, texts};

verus! {

/// The larger of a number and the least value of an option.
pub open spec fn at_least(v: i64, low: int) -> int {
    if v < low {
        low
    } else {
        v as int
    }
}

/// The options with the number option of a name given a value, raised to the least one
/// that it may have. Another name changes nothing.
pub open spec fn num_set(o: BufferOptions, name: Seq<char>, v: i64) -> BufferOptions {
    if name == "tabstop"@ {
        BufferOptions { tabstop: at_least(v, 1) as usize, ..o }
    } else if name == "shiftwidth"@ {
        BufferOptions { shiftwidth: at_least(v, 0) as usize, ..o }
    } else if name == "softtabstop"@ {
        BufferOptions { softtabstop: at_least(v, -1) as isize, ..o }
    } else if name == "foldnestmax"@ {
        BufferOptions { foldnestmax: at_least(v, 1) as usize, ..o }
    } else if name == "foldminlines"@ {
        BufferOptions { foldminlines: at_least(v, 0) as usize, ..o }
    } else {
        o
    }
}

/// A buffer with its options replaced.
pub open spec fn with_options(o: OpenModel, opts: BufferOptions) -> OpenModel {
    OpenModel { buffer: BufferModel { options: opts, ..o.buffer }, ..o }
}

/// The options with the one of a name on or off. Another name changes nothing.
pub open spec fn bool_option(o: BufferOptions, name: Seq<char>, v: bool) -> BufferOptions {
    if name == "expandtab"@ {
        BufferOptions { expandtab: v, ..o }
    } else if name == "autoindent"@ {
        BufferOptions { autoindent: v, ..o }
    } else if name == "smartindent"@ {
        BufferOptions { smartindent: v, ..o }
    } else if name == "autopairs"@ {
        BufferOptions { autopairs: v, ..o }
    } else if name == "bomb"@ {
        BufferOptions { bomb: v, ..o }
    } else if name == "modifiable"@ {
        BufferOptions { modifiable: v, ..o }
    } else {
        o
    }
}

/// A buffer with the option of a name on or off. Another name changes nothing.
pub open spec fn bool_set(o: OpenModel, name: Seq<char>, v: bool) -> OpenModel {
    if name == "ts_highlight"@ {
        OpenModel { ts_highlight: v, ..o }
    } else if name == "modified"@ {
        OpenModel { buffer: BufferModel { modified: v, ..o.buffer }, ..o }
    } else {
        with_options(o, bool_option(o.buffer.options, name, v))
    }
}

/// The first comma from the `i`th character on; the end where there is none.
pub open spec fn comma_from(s: Seq<char>, i: int) -> int
    decreases s.len() - i,
{
    if i < 0 || i >= s.len() || s[i] == ',' {
        i
    } else {
        comma_from(s, i + 1)
    }
}

/// The two markers that a comma parts: there is one comma, and they are not empty and
/// not the same.
pub open spec fn marker_pair(s: Seq<char>) -> Option<(Seq<char>, Seq<char>)> {
    let i = comma_from(s, 0);
    if i < s.len() {
        let (a, b) = (s.take(i), s.skip(i + 1));
        if a.len() > 0 && b.len() > 0 && comma_from(s, i + 1) == s.len() && a != b {
            Some((a, b))
        } else {
            None
        }
    } else {
        None
    }
}

/// The options with the one of a name set to what a label stands for. A label that the
/// option does not have, and another name, change nothing.
pub open spec fn label_option(o: BufferOptions, name: Seq<char>, v: Seq<char>) -> BufferOptions {
    if name == "regexsyntax"@ {
        if v == "pcre"@ {
            BufferOptions { regexsyntax: RegexSyntax::Pcre, ..o }
        } else if v == "vim"@ {
            BufferOptions { regexsyntax: RegexSyntax::Vim, ..o }
        } else {
            o
        }
    } else if name == "fileformat"@ {
        match fileformat_label(v) {
            Some(f) => BufferOptions { fileformat: f, ..o },
            None => o,
        }
    } else if name == "foldmethod"@ {
        match foldmethod_label(v) {
            Some(m) => BufferOptions { foldmethod: m, ..o },
            None => o,
        }
    } else {
        o
    }
}

/// A buffer with other fold markers: a pair of them, or the default ones.
pub open spec fn markers_set(o: OpenModel, v: Seq<char>) -> OpenModel {
    if v.len() == 0 {
        OpenModel { fold_open: "{{{"@, fold_close: "}}}"@, ..o }
    } else {
        match marker_pair(v) {
            Some((a, b)) => OpenModel { fold_open: a, fold_close: b, ..o },
            None => o,
        }
    }
}

/// A buffer with another encoding: one of those there are, or the default one.
pub open spec fn encoding_set(
    o: OpenModel,
    v: Seq<char>,
    encodings: Seq<Seq<char>>,
) -> OpenModel {
    if v.len() == 0 {
        OpenModel { buffer: BufferModel { fileencoding: "utf-8"@, ..o.buffer }, ..o }
    } else if encodings.contains(v) {
        OpenModel { buffer: BufferModel { fileencoding: v, ..o.buffer }, ..o }
    } else {
        o
    }
}

/// A buffer with the text option of a name given a value. A value that the option does
/// not have, and another name, change nothing; the fold expression and the fold markers
/// are those of the current buffer alone.
pub open spec fn str_set(
    o: OpenModel,
    name: Seq<char>,
    v: Seq<char>,
    current: bool,
    encodings: Seq<Seq<char>>,
) -> OpenModel {
    if name == "filetype"@ {
        OpenModel { filetype: v, ..o }
    } else if name == "commentstring"@ {
        OpenModel { commentstring: v, ..o }
    } else if name == "foldexpr"@ {
        if current {
            OpenModel { foldexpr: v, ..o }
        } else {
            o
        }
    } else if name == "foldmarker"@ {
        if current {
            markers_set(o, v)
        } else {
            o
        }
    } else if name == "fileencoding"@ {
        encoding_set(o, v, encodings)
    } else {
        with_options(o, label_option(o.buffer.options, name, v))
    }
}

fn raise(v: i64, low: i64) -> (r: i64)
    ensures
        r == at_least(v, low as int),
{
    if v < low {
        low
    } else {
        v
    }
}

fn split_marker(s: &str) -> (r: Option<(String, String)>)
    ensures
        match marker_pair(s@) {
            Some((a, b)) => r is Some && (r->0).0@ == a && (r->0).1@ == b,
            None => r is None,
        },
{
    let v = chars_of(s);
    let n: usize = v.len();
    let mut i: usize = 0;
    while i < n && v[i] != ','
        invariant
            n == v@.len(),
            v@ == s@,
            i <= n,
            comma_from(s@, 0) == comma_from(s@, i as int),
        decreases n - i,
    {
        i += 1;
    }
    if i >= n {
        return None;
    }
    let mut j: usize = i + 1;
    while j < n && v[j] != ','
        invariant
            n == v@.len(),
            v@ == s@,
            i < j <= n,
            comma_from(s@, i + 1) == comma_from(s@, j as int),
        decreases n - j,
    {
        j += 1;
    }
    let a = string_of(&v, 0, i);
    let b = string_of(&v, i + 1, n);
    assert(a@ =~= s@.take(i as int));
    assert(b@ =~= s@.skip(i + 1));
    if i == 0 || i + 1 == n || j < n || same(a.as_str(), b.as_str()) {
        None
    } else {
        Some((a, b))
    }
}

fn holds_text(v: &Vec<String>, s: &str) -> (b: bool)
    ensures
        b == texts(v@).contains(s@),
{
    let mut i: usize = 0;
    while i < v.len()
        invariant
            i <= v@.len(),
            forall|j: int| 0 <= j < i ==> (#[trigger] texts(v@)[j]) != s@,
        decreases v@.len() - i,
    {
        assert(texts(v@)[i as int] == v@[i as int]@);
        if same(v[i].as_str(), s) {
            return true;
        }
        i += 1;
    }
    false
}

impl OpenBuffer {
    /// Give the number option of a name a value, raised to the least one that it may
    /// have.
    pub fn set_option_num(&mut self, name: &str, v: i64)
        requires
            old(self).wf(),
        ensures
            final(self).wf(),
            final(self)@ == with_options(
                old(self)@,
                num_set(old(self)@.buffer.options, name@, v),
            ),
    {
        let mut o = self.buffer.options;
        if same(name, "tabstop") {
            o.tabstop = raise(v, 1) as usize;
        } else if same(name, "shiftwidth") {
            o.shiftwidth = raise(v, 0) as usize;
        } else if same(name, "softtabstop") {
            o.softtabstop = raise(v, -1) as isize;
        } else if same(name, "foldnestmax") {
            o.foldnestmax = raise(v, 1) as usize;
        } else if same(name, "foldminlines") {
            o.foldminlines = raise(v, 0) as usize;
        }
        self.buffer.options = o;
    }

    fn put_options(&mut self, opts: BufferOptions)
        requires
            old(self).wf(),
        ensures
            final(self).wf(),
            final(self)@ == with_options(old(self)@, opts),
    {
        self.buffer.options = opts;
    }

    fn put_modified(&mut self, v: bool)
        requires
            old(self).wf(),
        ensures
            final(self).wf(),
            final(self)@ == (OpenModel {
                buffer: BufferModel { modified: v, ..old(self)@.buffer },
                ..old(self)@
            }),
    {
        self.buffer.modified = v;
    }

    /// Turn the option of a name on or off.
    pub fn set_option_bool(&mut self, name: &str, v: bool)
        requires
            old(self).wf(),
        ensures
            final(self).wf(),
            final(self)@ == bool_set(old(self)@, name@, v),
    {
        if same(name, "ts_highlight") {
            self.ts_highlight = v;
        } else if same(name, "modified") {
            self.put_modified(v);
        } else {
            let o = with_bool(self.buffer.options, name, v);
            self.put_options(o);
        }
    }

    fn set_foldmarker(&mut self, v: &str)
        requires
            old(self).wf(),
        ensures
            final(self).wf(),
            final(self)@ == markers_set(old(self)@, v@),
    {
        if v.is_empty() {
            self.fold_open = "{{{".to_owned();
            self.fold_close = "}}}".to_owned();
        } else if let Some((a, b)) = split_marker(v) {
            self.fold_open = a;
            self.fold_close = b;
        }
    }

    fn set_encoding(&mut self, v: &str, encodings: &Vec<String>)
        requires
            old(self).wf(),
        ensures
            final(self).wf(),
            final(self)@ == encoding_set(old(self)@, v@, texts(encodings@)),
    {
        if v.is_empty() {
            self.buffer.fileencoding = "utf-8".to_owned();
        } else if holds_text(encodings, v) {
            self.buffer.fileencoding = v.to_owned();
        }
    }

    /// Give the text option of a name a value. The fold expression and the fold markers
    /// are set for the current buffer alone, and the encodings that there are to choose
    /// from are given.
    pub fn set_option_str(
        &mut self,
        name: &str,
        v: &str,
        current: bool,
        encodings: &Vec<String>,
    )
        requires
            old(self).wf(),
        ensures
            final(self).wf(),
            final(self)@ == str_set(old(self)@, name@, v@, current, texts(encodings@)),
    {
        if same(name, "filetype") {
            self.filetype = v.to_owned();
        } else if same(name, "commentstring") {
            self.commentstring = v.to_owned();
        } else if same(name, "foldexpr") {
            if current {
                self.foldexpr = v.to_owned();
            }
        } else if same(name, "foldmarker") {
            if current {
                self.set_foldmarker(v);
            }
        } else if same(name, "fileencoding") {
            self.set_encoding(v, encodings);
        } else {
            let o = with_label(self.buffer.options, name, v);
            self.put_options(o);
        }
    }
}

fn with_bool(o: BufferOptions, name: &str, v: bool) -> (r: BufferOptions)
    ensures
        r == bool_option(o, name@, v),
{
    let mut r = o;
    if same(name, "expandtab") {
        r.expandtab = v;
    } else if same(name, "autoindent") {
        r.autoindent = v;
    } else if same(name, "smartindent") {
        r.smartindent = v;
    } else if same(name, "autopairs") {
        r.autopairs = v;
    } else if same(name, "bomb") {
        r.bomb = v;
    } else if same(name, "modifiable") {
        r.modifiable = v;
    }
    r
}

fn with_label(o: BufferOptions, name: &str, v: &str) -> (r: BufferOptions)
    ensures
        r == label_option(o, name@, v@),
{
    let mut r = o;
    if same(name, "regexsyntax") {
        if same(v, "pcre") {
            r.regexsyntax = RegexSyntax::Pcre;
        } else if same(v, "vim") {
            r.regexsyntax = RegexSyntax::Vim;
        }
    } else if same(name, "fileformat") {
        if let Some(f) = FileFormat::from_label(&v.to_owned()) {
            r.fileformat = f;
        }
    } else if same(name, "foldmethod") {
        if let Some(m) = FoldMethod::from_label(&v.to_owned()) {
            r.foldmethod = m;
        }
    }
    r
}

} // verus!
