//! Searches of the editor. The host finds the matches.

use vstd::prelude::*;
use vstd::utf8::*;

use crate::batch::is_fixed;
use crate::cmdline::{remembered, CmdlineKind, LineModel};
use crate::command::{clipboard_register, is_clipboard_register, NamedOperator};
use crate::editor::keys::record_settled;
use crate::editor::normal::{is_change, no_clipboard, refusal};
use crate::editor::{seen, Editor, LastModel, LastSearch, SearchModel, World};
use crate::log::LogModel;
use crate::mode::Mode;
use crate::open::Live;
use crate::pending::{OutModel, SearchAsk, SearchRequest, SearchUse};
use crate::scroll::{column_kept, gesture, pending_scroll};
use crate::search::{
    dir_prefix, opposite_dir, search_parts, split_search_offset, SearchDir, SearchOffset,
};
use crate::searching::{
    folds_case, hits_fit, search_ignorecase, search_preview, search_run, word_at_column, Hits,
    SearchEnd,
};
use crate::strings::joined_str;

verus! {

/// A search asked for: matches are painted from now on, and the host is to find them.
pub open spec fn search_asked(
    w: World,
    pattern: Seq<char>,
    dir: SearchDir,
    offset: SearchOffset,
    count: usize,
    op: Option<NamedOperator>,
) -> World {
    if pattern.len() == 0 {
        w
    } else {
        World {
            search: SearchModel {
                active: true,
                awaited: w.search.awaited || op is Some,
                ..w.search
            },
            out: OutModel {
                searches: w.out.searches.push(
                    SearchAsk {
                        pattern,
                        ignorecase: folds_case(w.options, pattern),
                        dir,
                        offset,
                        purpose: SearchUse::Go { count, op },
                    },
                ),
                ..w.out
            },
            ..w
        }
    }
}

/// One at least.
pub open spec fn one_at_least(n: usize) -> usize {
    if n < 1 {
        1
    } else {
        n
    }
}

/// A pattern searched for and remembered.
pub open spec fn search_begun(
    w: World,
    pattern: Seq<char>,
    dir: SearchDir,
    offset: SearchOffset,
    count: usize,
    op: Option<NamedOperator>,
) -> World {
    let a = World {
        line: LineModel {
            search_history: remembered(w.line.search_history, pattern),
            ..w.line
        },
        search: SearchModel { last: Some(LastModel { pattern, dir, offset }), ..w.search },
        ..w
    };
    search_asked(a, pattern, dir, offset, count, op)
}

/// A search line submitted. An empty pattern stands for the last one, and an empty line for
/// the last search with its offset.
pub open spec fn search_submitted(w: World, line: Seq<char>, dir: SearchDir) -> World {
    let (core, off) = search_parts(line, dir_prefix(dir));
    if core.len() == 0 && w.search.last is None {
        w.said("E35: No previous regular expression"@)
    } else {
        let pattern = if core.len() == 0 {
            w.search.last->0.pattern
        } else {
            core
        };
        let offset = if line.len() > 0 {
            off
        } else {
            w.search.last->0.offset
        };
        let a = World { search: SearchModel { operator: None, ..w.search }, ..w };
        search_begun(
            a,
            pattern,
            dir,
            offset,
            one_at_least(w.search.count),
            w.search.operator,
        )
    }
}

/// The last search repeated, in its direction or against it.
pub open spec fn search_repeated(w: World, same: bool, count: usize) -> World {
    match w.search.last {
        None => w.said("E35: No previous regular expression"@),
        Some(s) => search_asked(
            w,
            s.pattern,
            if same {
                s.dir
            } else {
                opposite_dir(s.dir)
            },
            s.offset,
            one_at_least(count),
            None,
        ),
    }
}

/// The word under the cursor searched for, whole or as a part of others.
pub open spec fn word_searched(w: World, dir: SearchDir, whole: bool, count: usize) -> World {
    let p = w.pane();
    match word_at_column(decode_utf8(p.line()), p.live.cursor.col as int) {
        None => w.said("E348: No string under cursor"@),
        Some(word) => search_begun(
            w,
            if whole {
                "\\b"@ + word + "\\b"@
            } else {
                word
            },
            dir,
            SearchOffset::Bare,
            one_at_least(count),
            None,
        ),
    }
}

/// Where a search that is being typed would go asked for; the cursor waits where it began.
pub open spec fn preview_asked(w: World, dir: SearchDir) -> World {
    if !w.options.incsearch {
        w
    } else {
        let a = w.with_pane(w.pane().with_cursor(w.search.origin).held());
        let (core, offset) = search_parts(w.line.chars, dir_prefix(dir));
        if core.len() == 0 {
            a
        } else {
            World {
                out: OutModel {
                    searches: a.out.searches.push(
                        SearchAsk {
                            pattern: core,
                            ignorecase: folds_case(a.options, core),
                            dir,
                            offset,
                            purpose: SearchUse::Show,
                        },
                    ),
                    ..a.out
                },
                ..a
            }
        }
    }
}

/// What is said of a pattern that was not found.
pub open spec fn miss_text(pattern: Seq<char>, dir: SearchDir, wrapscan: bool) -> Seq<char> {
    if wrapscan {
        "E486: Pattern not found: "@ + pattern
    } else {
        match dir {
            SearchDir::Forward => "E385: search hit BOTTOM without match for: "@ + pattern,
            SearchDir::Backward => "E384: search hit TOP without match for: "@ + pattern,
        }
    }
}

/// What is said of a search that went on from the other end.
pub open spec fn wrap_text(dir: SearchDir) -> Seq<char> {
    match dir {
        SearchDir::Forward => "search hit BOTTOM, continuing at TOP"@,
        SearchDir::Backward => "search hit TOP, continuing at BOTTOM"@,
    }
}

/// What is said once a search has been done.
pub open spec fn search_reported(w: World, ask: SearchAsk, end: SearchEnd) -> World {
    match end {
        SearchEnd::Miss => w.said(miss_text(ask.pattern, ask.dir, w.options.wrapscan)),
        SearchEnd::Operated => w,
        SearchEnd::Wrapped => w.said(wrap_text(ask.dir)),
        SearchEnd::Found => World {
            log: LogModel { message: seq![dir_prefix(ask.dir)] + ask.pattern, ..w.log },
            ..w
        },
    }
}

/// A search is being typed.
pub open spec fn is_searching(w: World) -> bool {
    w.live.mode == Mode::Command && w.line.kind is Search
}

/// The matches of a search have come, or what is wrong with its pattern. Where one that was
/// being typed would go is shown only while it still is.
pub open spec fn search_answered(
    w: World,
    ask: SearchAsk,
    found: Result<Seq<Seq<(usize, usize)>>, Seq<char>>,
) -> World {
    match ask.purpose {
        SearchUse::Go { count, op } => {
            let a = World { search: SearchModel { awaited: false, ..w.search }, ..w };
            match found {
                Err(e) => a.said(e),
                Ok(h) => if op is Some && is_change(op->0.op) && is_fixed(
                    w.buffers[w.cur().0].buffer,
                ) {
                    a.said(refusal())
                } else if op is Some && clipboard_register(op->0.register)
                    && w.regs.clipboard is None {
                    a.said(no_clipboard())
                } else {
                    let (p, end) = search_run(
                        a.pane(),
                        h,
                        ask.dir,
                        ask.offset,
                        count as nat,
                        op,
                        a.options.wrapscan,
                    );
                    search_reported(a.with_pane(p), ask, end)
                },
            }
        },
        SearchUse::Show => if is_searching(w) {
            w.with_pane(
                search_preview(
                    w.pane(),
                    match found {
                        Ok(h) => Some(h),
                        Err(_) => None,
                    },
                    w.search.origin,
                    ask.dir,
                    ask.offset,
                    w.options.wrapscan,
                ),
            )
        } else {
            w
        },
    }
}

/// A key begins: it has not kept the remembered column, nor asked for the end of the line.
pub open spec fn key_begun(w: World) -> World {
    World { live: Live { preserve_desired: false, eol_request: false, ..w.live }, ..w }
}

/// A key has been done: the column is remembered, the cursor shows, and a move of the view
/// is reported.
#[verifier::opaque]
pub open spec fn key_ended(w: World) -> World {
    let a = seen(w.with_pane(column_kept(w.pane())));
    let g = gesture(a.live, crate::editor::frame(a).height as int);
    World {
        live: Live { scroll_from: None, ..a.live },
        pending_scroll: if g is Some {
            g
        } else {
            a.pending_scroll
        },
        ..a
    }
}

/// The answer of the host as it is taken.
pub open spec fn answer_of(found: Result<&Hits, String>) -> Result<
    Seq<Seq<(usize, usize)>>,
    Seq<char>,
> {
    match found {
        Ok(h) => Ok(h@),
        Err(e) => Err(e@),
    }
}

/// The pattern whose matches are painted, and whether it is being typed: that of the search
/// line of the focused window, else the last one while matches are painted.
pub open spec fn painted_pattern(w: World, focused: bool) -> Option<(Seq<char>, bool)> {
    let typed = focused && is_searching(w) && w.options.incsearch && w.line.chars.len() > 0;
    let p = if typed {
        match w.line.kind {
            CmdlineKind::Search(dir) => Some(search_parts(w.line.chars, dir_prefix(dir)).0),
            _ => None,
        }
    } else if w.options.hlsearch && w.search.active && w.search.last is Some {
        Some(w.search.last->0.pattern)
    } else {
        None
    };
    match p {
        Some(s) => if s.len() > 0 {
            Some((s, typed))
        } else {
            None
        },
        None => None,
    }
}

impl Editor {
    fn ask_search(&mut self, r: SearchRequest)
        requires
            old(self).wf(),
        ensures
            final(self).wf(),
            final(self)@ == (World {
                out: OutModel {
                    searches: old(self)@.out.searches.push(r@),
                    ..old(self)@.out
                },
                ..old(self)@
            }),
    {
        let o = self.outbox_mut();
        o.push_search(r);
    }

    fn run_search(
        &mut self,
        pattern: &str,
        dir: SearchDir,
        offset: SearchOffset,
        count: usize,
        op: Option<NamedOperator>,
    )
        requires
            old(self).wf(),
        ensures
            final(self).wf(),
            final(self)@ == search_asked(old(self)@, pattern@, dir, offset, count, op),
    {
        if pattern.is_empty() {
            return;
        }
        let s = self.search_mut();
        s.active = true;
        s.awaited = s.awaited || op.is_some();
        let ignorecase = search_ignorecase(&self.global_options(), pattern);
        self.ask_search(
            SearchRequest {
                pattern: pattern.to_owned(),
                ignorecase,
                dir,
                offset,
                purpose: SearchUse::Go { count, op },
            },
        );
    }

    fn begin_search(
        &mut self,
        pattern: &str,
        dir: SearchDir,
        offset: SearchOffset,
        count: usize,
        op: Option<NamedOperator>,
    )
        requires
            old(self).wf(),
        ensures
            final(self).wf(),
            final(self)@ == search_begun(old(self)@, pattern@, dir, offset, count, op),
    {
        let l = self.line_mut();
        l.remember_search(pattern);
        let s = self.search_mut();
        s.last = Some(LastSearch { pattern: pattern.to_owned(), dir, offset });
        self.run_search(pattern, dir, offset, count, op);
    }

    /// Submit a search line.
    pub fn submit_search(&mut self, line: &str, dir: SearchDir)
        requires
            old(self).wf(),
        ensures
            final(self).wf(),
            final(self)@ == search_submitted(old(self)@, line@, dir),
    {
        let (core, off) = split_search_offset(line, dir.prefix());
        let (pattern, offset) = if core.as_str().is_empty() {
            match &self.search().last {
                Some(s) => (
                    s.pattern.clone(),
                    if line.is_empty() {
                        s.offset
                    } else {
                        off
                    },
                ),
                None => {
                    self.echo("E35: No previous regular expression".to_owned());
                    return;
                },
            }
        } else {
            proof {
                lemma_core_in_line(line@, crate::search::dir_prefix(dir));
            }
            (core, off)
        };
        let s = self.search_mut();
        let op = s.operator;
        let count: usize = if s.count < 1 {
            1
        } else {
            s.count
        };
        s.operator = None;
        self.begin_search(pattern.as_str(), dir, offset, count, op);
    }

    /// Repeat the last search, in its direction or against it.
    pub fn search_repeat(&mut self, same: bool, count: usize)
        requires
            old(self).wf(),
        ensures
            final(self).wf(),
            final(self)@ == search_repeated(old(self)@, same, count),
    {
        let (pattern, last_dir, offset) = match &self.search().last {
            Some(s) => (s.pattern.clone(), s.dir, s.offset),
            None => {
                self.echo("E35: No previous regular expression".to_owned());
                return;
            },
        };
        let dir = if same {
            last_dir
        } else {
            last_dir.opposite()
        };
        let n: usize = if count < 1 {
            1
        } else {
            count
        };
        self.run_search(pattern.as_str(), dir, offset, n, None);
    }

    /// Search for the word under the cursor, whole or as a part of others.
    pub fn search_word_under_cursor(&mut self, dir: SearchDir, bounded: bool, count: usize)
        requires
            old(self).wf(),
        ensures
            final(self).wf(),
            final(self)@ == word_searched(old(self)@, dir, bounded, count),
    {
        let word = match self.desk().word_under_cursor() {
            Some(s) => s,
            None => {
                self.echo("E348: No string under cursor".to_owned());
                return;
            },
        };
        let pattern = if bounded {
            let mut s = joined_str("\\b", word.as_str());
            s.append("\\b");
            s
        } else {
            word
        };
        let n: usize = if count < 1 {
            1
        } else {
            count
        };
        self.begin_search(pattern.as_str(), dir, SearchOffset::Bare, n, None);
    }

    /// Ask where the search that is being typed would go.
    pub fn update_incsearch_preview(&mut self, dir: SearchDir)
        requires
            old(self).wf(),
        ensures
            final(self).wf(),
            final(self)@ == preview_asked(old(self)@, dir),
    {
        if !self.global_options().incsearch {
            return;
        }
        let origin = self.search().origin;
        let d = self.desk_mut();
        d.set_cursor(origin);
        d.clamp_cursor();
        let text = self.line().text();
        let (core, offset) = split_search_offset(text.as_str(), dir.prefix());
        if core.as_str().is_empty() {
            return;
        }
        let ignorecase = search_ignorecase(&self.global_options(), core.as_str());
        self.ask_search(
            SearchRequest { pattern: core, ignorecase, dir, offset, purpose: SearchUse::Show },
        );
    }

    fn report_search(&mut self, req: &SearchRequest, end: SearchEnd)
        requires
            old(self).wf(),
        ensures
            final(self).wf(),
            final(self)@ == search_reported(old(self)@, req@, end),
    {
        match end {
            SearchEnd::Operated => {},
            SearchEnd::Miss => {
                let head = if self.global_options().wrapscan {
                    "E486: Pattern not found: "
                } else {
                    match req.dir {
                        SearchDir::Forward => "E385: search hit BOTTOM without match for: ",
                        SearchDir::Backward => "E384: search hit TOP without match for: ",
                    }
                };
                self.echo(joined_str(head, req.pattern.as_str()));
            },
            SearchEnd::Wrapped => {
                let s = match req.dir {
                    SearchDir::Forward => "search hit BOTTOM, continuing at TOP",
                    SearchDir::Backward => "search hit TOP, continuing at BOTTOM",
                };
                self.echo(s.to_owned());
            },
            SearchEnd::Found => {
                let mut s = String::new();
                let c = req.dir.prefix();
                s.push(c);
                s.append(req.pattern.as_str());
                assert(s@ =~= seq![c] + req.pattern@);
                self.show(s);
            },
        }
    }

    fn take_answer(&mut self, req: &SearchRequest, found: Result<&Hits, String>)
        requires
            old(self).wf(),
            found is Ok ==> hits_fit(old(self)@.pane(), found->Ok_0@),
        ensures
            final(self).wf(),
            final(self)@ == search_answered(old(self)@, req@, answer_of(found)),
    {
        let wrapscan = self.global_options().wrapscan;
        match req.purpose {
            SearchUse::Go { count, op } => {
                let s = self.search_mut();
                s.awaited = false;
                match found {
                    Err(e) => self.echo(e),
                    Ok(h) => {
                        let change = match op {
                            Some(o) => o.op != 'y',
                            None => false,
                        };
                        let copied = match op {
                            Some(o) => is_clipboard_register(o.register),
                            None => false,
                        };
                        if change && !self.modifiable() {
                            self.refuse();
                            return;
                        }
                        if copied && !self.desk().has_clipboard() {
                            self.miss_clipboard();
                            return;
                        }
                        let d = self.desk_mut();
                        let end = d.run_search(h, req.dir, req.offset, count, op, wrapscan);
                        self.report_search(req, end);
                    },
                }
            },
            SearchUse::Show => {
                let searching = match self.line().kind() {
                    CmdlineKind::Search(_) => self.desk().live().mode == Mode::Command,
                    _ => false,
                };
                if !searching {
                    return;
                }
                let origin = self.search().origin;
                let h = match found {
                    Ok(h) => Some(h),
                    Err(_) => None,
                };
                let d = self.desk_mut();
                d.preview_search(h, origin, req.dir, req.offset, wrapscan);
            },
        }
    }

    /// A key begins.
    pub(crate) fn begin_key(&mut self)
        requires
            old(self).wf(),
        ensures
            final(self).wf(),
            final(self)@ == key_begun(old(self)@),
    {
        proof {
            self.is_consistent();
        }
        let d = self.desk_mut();
        let mut live = d.live();
        live.preserve_desired = false;
        live.eol_request = false;
        d.set_live(live);
        assert(self@.buffers =~= old(self)@.buffers);
    }

    /// A key has been done.
    pub(crate) fn end_key(&mut self)
        requires
            old(self).wf(),
        ensures
            final(self).wf(),
            final(self)@ == key_ended(old(self)@),
    {
        proof {
            reveal(key_ended);
        }
        let d = self.desk_mut();
        d.keep_column();
        self.ensure_visible();
        let ghost a = self@;
        let height: usize = self.frame().height;
        let mut live = self.desk().live();
        let g = pending_scroll(&live, height);
        live.scroll_from = None;
        proof {
            self.is_consistent();
        }
        let d = self.desk_mut();
        d.set_live(live);
        assert(self@.buffers =~= a.buffers);
        if g.is_some() {
            self.set_pending_scroll(g);
        }
    }

    /// Whether the matches of an answer lie in the current text.
    pub fn hits_fit(&self, h: &Hits) -> (b: bool)
        requires
            self.wf(),
        ensures
            b == hits_fit(self@.pane(), h@),
    {
        self.desk().hits_fit(h)
    }

    /// Take the matches that the host found for a search, or what is wrong with its
    /// pattern.
    pub fn finish_search(&mut self, req: &SearchRequest, found: Result<&Hits, String>)
        requires
            old(self).wf(),
            found is Ok ==> hits_fit(old(self)@.pane(), found->Ok_0@),
        ensures
            final(self).wf(),
            final(self)@ == record_settled(
                key_ended(search_answered(key_begun(old(self)@), req@, answer_of(found))),
            ),
    {
        let ghost w = self@;
        self.begin_key();
        proof {
            if found is Ok {
                crate::searching::lemma_fits_same(w.pane(), self@.pane(), found->Ok_0@);
            }
        }
        self.take_answer(req, found);
        self.end_key();
        self.settle_record();
    }

    /// The pattern whose matches are painted, and whether it is being typed.
    pub fn highlight_pattern(&self, focused: bool) -> (r: Option<(String, bool)>)
        requires
            self.wf(),
        ensures
            match painted_pattern(self@, focused) {
                Some((s, typed)) => r is Some && (r->0).0@ == s && (r->0).1 == typed,
                None => r is None,
            },
    {
        let o = self.global_options();
        if focused && self.desk().live().mode == Mode::Command && o.incsearch
            && !self.line().is_empty() {
            if let CmdlineKind::Search(dir) = self.line().kind() {
                let text = self.line().text();
                let (core, _) = split_search_offset(text.as_str(), dir.prefix());
                if core.as_str().is_empty() {
                    return None;
                }
                return Some((core, true));
            }
        }
        if o.hlsearch && self.search().active {
            if let Some(s) = &self.search().last {
                if !s.pattern.as_str().is_empty() {
                    return Some((s.pattern.clone(), false));
                }
            }
        }
        None
    }
}

/// A line whose pattern is not empty is not empty.
proof fn lemma_core_in_line(line: Seq<char>, sep: char)
    ensures
        search_parts(line, sep).0.len() > 0 ==> line.len() > 0,
{
    if line.len() == 0 {
        assert(crate::search::last_unescaped(line, sep, 0) is None);
    }
}

} // verus!
