//! The panel at the bottom: lines to read and choose from.

use vstd::prelude::*;

use crate::input::{typed, Key, KeyCode};
use crate::num::{least, min_of};
use crate::strings::texts;
use crate::wrap::{every_line_takes_a_row, rows_of, wrap_to_width};

verus! {

/// How many rows of content a panel asks for.
pub const PANEL_HEIGHT: usize = 10;

/// A place in a file: path, line and column.
#[derive(Debug)]
pub struct Target {
    pub path: String,
    pub line: usize,
    pub col: usize,
}

/// What a [`Target`] says.
pub ghost struct Place {
    pub path: Seq<char>,
    pub line: usize,
    pub col: usize,
}

impl View for Target {
    type V = Place;

    open spec fn view(&self) -> Place {
        Place { path: self.path@, line: self.line, col: self.col }
    }
}

/// A read-only list that has the keys while it is open.
pub struct Panel {
    pub title: String,
    pub lines: Vec<String>,
    /// The chosen line.
    pub cursor: usize,
    /// The first line that is shown.
    pub top: usize,
    /// The height that the content asks for.
    pub height: usize,
    /// The first `g` of `gg` was typed.
    pub gpending: bool,
    /// The enter key reports the chosen line.
    pub wants_select: bool,
    /// Where the enter key jumps to, for each line that has such a place.
    pub targets: Vec<Option<Target>>,
}

/// What a [`Panel`] holds.
pub ghost struct PanelModel {
    pub title: Seq<char>,
    pub lines: Seq<Seq<char>>,
    pub cursor: int,
    pub top: int,
    pub height: usize,
    pub gpending: bool,
    pub wants_select: bool,
    pub targets: Seq<Option<Place>>,
}

pub open spec fn places(v: Seq<Option<Target>>) -> Seq<Option<Place>> {
    v.map_values(
        |t: Option<Target>|
            match t {
                Some(t) => Some(t@),
                None => None,
            },
    )
}

impl View for Panel {
    type V = PanelModel;

    open spec fn view(&self) -> PanelModel {
        PanelModel {
            title: self.title@,
            lines: texts(self.lines@),
            cursor: self.cursor as int,
            top: self.top as int,
            height: self.height,
            gpending: self.gpending,
            wants_select: self.wants_select,
            targets: places(self.targets@),
        }
    }
}

/// What is to be drawn of a panel.
pub struct PanelView {
    pub title: String,
    pub lines: Vec<String>,
    /// The first row of the chosen line.
    pub cursor_row: usize,
    /// How many rows the chosen line takes.
    pub cursor_span: usize,
    pub height: usize,
}

/// What a key asks for while the panel is open.
pub enum PanelStep {
    /// Nothing but what changed in the panel.
    Stay,
    /// The panel is to be closed.
    Close,
    /// The panel is to be closed and a place visited.
    Jump(Target),
    /// The chosen line is to be reported.
    Select(usize, String),
}

/// What a [`PanelStep`] says.
pub ghost enum PanelAsk {
    Stay,
    Close,
    Jump(Place),
    Select(int, Seq<char>),
}

impl View for PanelStep {
    type V = PanelAsk;

    open spec fn view(&self) -> PanelAsk {
        match self {
            PanelStep::Stay => PanelAsk::Stay,
            PanelStep::Close => PanelAsk::Close,
            PanelStep::Jump(t) => PanelAsk::Jump(t@),
            PanelStep::Select(i, s) => PanelAsk::Select(*i as int, s@),
        }
    }
}

/// The last line of a list, the first where it is empty.
pub open spec fn last_entry(lines: Seq<Seq<char>>) -> int {
    if lines.len() == 0 {
        0
    } else {
        lines.len() - 1
    }
}

/// The rows of the lines from `a` up to, and without, `b`.
pub open spec fn rows_between(lines: Seq<Seq<char>>, a: int, b: int, width: int) -> Seq<Seq<char>>
    decreases b - a,
{
    if a >= b || b < 1 || b > lines.len() {
        Seq::empty()
    } else {
        rows_between(lines, a, b - 1, width) + rows_of(lines[b - 1], width)
    }
}

/// The first line from `top` on from which the lines down to the cursor fit.
pub open spec fn raised(lines: Seq<Seq<char>>, top: int, cursor: int, height: int, width: int) -> int
    decreases cursor - top,
{
    if top >= cursor || rows_between(lines, top, cursor + 1, width).len() <= height {
        top
    } else {
        raised(lines, top + 1, cursor, height, width)
    }
}

/// The panel scrolled so that the chosen line shows.
pub open spec fn in_view(p: PanelModel, height: int, width: int) -> PanelModel {
    PanelModel {
        top: if p.cursor < p.top {
            p.cursor
        } else {
            raised(
                p.lines,
                p.top,
                p.cursor,
                if height < 1 {
                    1
                } else {
                    height
                },
                width,
            )
        },
        ..p
    }
}

/// A panel just opened.
pub open spec fn new_panel(
    title: Seq<char>,
    lines: Seq<Seq<char>>,
    wants_select: bool,
    cursor: int,
) -> PanelModel {
    PanelModel {
        title,
        lines,
        cursor: least(cursor, last_entry(lines)),
        top: 0,
        height: PANEL_HEIGHT,
        gpending: false,
        wants_select,
        targets: Seq::empty(),
    }
}

/// The line shown in a row, counted from `display` at line `i`; the last that shows
/// for a row below it.
pub open spec fn entry_at(
    lines: Seq<Seq<char>>,
    i: int,
    display: int,
    row: int,
    height: int,
    width: int,
    found: int,
) -> int
    decreases lines.len() - i,
{
    if display >= height || i < 0 || i >= lines.len() {
        found
    } else {
        let span = rows_of(lines[i], width).len();
        if row < display + span {
            i
        } else {
            entry_at(lines, i + 1, display + span, row, height, width, i)
        }
    }
}

/// The chosen line after a key that moves it.
pub open spec fn key_moved(p: PanelModel, key: Key, height: int) -> PanelModel {
    let last = last_entry(p.lines);
    let ph = if height < 1 {
        1
    } else {
        height
    };
    let half = if ph / 2 < 1 {
        1
    } else {
        ph / 2
    };
    let c = typed(key);
    if p.gpending {
        PanelModel {
            gpending: false,
            cursor: if c == Some('g') {
                0
            } else {
                p.cursor
            },
            ..p
        }
    } else if c == Some('g') {
        PanelModel { gpending: true, ..p }
    } else {
        PanelModel {
            cursor: if key.code == KeyCode::Down || c == Some('j') {
                least(p.cursor + 1, last)
            } else if key.code == KeyCode::Up || c == Some('k') {
                if p.cursor >= 1 {
                    p.cursor - 1
                } else {
                    0
                }
            } else if c == Some('G') {
                last
            } else if key.code == KeyCode::Char('d') && key.ctrl {
                least(p.cursor + half, last)
            } else if key.code == KeyCode::Char('u') && key.ctrl {
                if p.cursor >= half {
                    p.cursor - half
                } else {
                    0
                }
            } else if key.code == KeyCode::Home {
                0
            } else if key.code == KeyCode::End {
                last
            } else {
                p.cursor
            },
            ..p
        }
    }
}

/// What a key asks for.
pub open spec fn panel_ask(p: PanelModel, key: Key) -> PanelAsk {
    if key.code == KeyCode::Esc || typed(key) == Some('q') || typed(key) == Some('Q') {
        PanelAsk::Close
    } else if key.code == KeyCode::Enter {
        if p.cursor < p.targets.len() && p.targets[p.cursor] is Some {
            PanelAsk::Jump(p.targets[p.cursor]->0)
        } else if p.wants_select && p.cursor < p.lines.len() {
            PanelAsk::Select(p.cursor, p.lines[p.cursor])
        } else {
            PanelAsk::Stay
        }
    } else {
        PanelAsk::Stay
    }
}

/// The panel after a key.
pub open spec fn panel_keyed(p: PanelModel, key: Key, height: int, width: int) -> PanelModel {
    if panel_ask(p, key) != PanelAsk::Stay || key.code == KeyCode::Enter {
        p
    } else {
        in_view(key_moved(p, key, height), height, width)
    }
}

/// What is drawn of a panel in so many rows and columns: the rows of the lines from the
/// first one that is shown, and where among them the chosen line is.
pub open spec fn drawn(p: PanelModel, v: PanelView, height: int, width: int) -> bool {
    let n = p.lines.len() as int;
    let all = rows_between(p.lines, p.top, n, width);
    let before = rows_between(p.lines, p.top, p.cursor, width).len() as int;
    &&& v.title@ == p.title
    &&& v.height == height
    &&& texts(v.lines@) == all.take(least(all.len() as int, height))
    &&& if p.top <= p.cursor < n && before < height {
        &&& v.cursor_row == before
        &&& v.cursor_span == least(rows_of(p.lines[p.cursor], width).len() as int, height - before)
    } else {
        v.cursor_row == 0 && v.cursor_span == 1
    }
}

fn count_rows(lines: &Vec<String>, a: usize, b: usize, width: usize) -> (n: u128)
    requires
        a <= b <= lines@.len(),
    ensures
        n == rows_between(texts(lines@), a as int, b as int, width as int).len(),
{
    let mut n: u128 = 0;
    let mut i: usize = a;
    while i < b
        invariant
            a <= i <= b <= lines@.len(),
            n == rows_between(texts(lines@), a as int, i as int, width as int).len(),
            n <= (i - a) * 0x1_0000_0000_0000_0000,
        decreases b - i,
    {
        let rows = wrap_to_width(lines[i].as_str(), width);
        assert(rows@.len() == texts(rows@).len());
        assert(texts(lines@)[i as int] == lines@[i as int]@);
        n += rows.len() as u128;
        i += 1;
    }
    n
}

impl Panel {
    /// Open a panel on a line.
    pub fn new(title: String, lines: Vec<String>, wants_select: bool, cursor: usize) -> (p: Self)
        ensures
            p@ == new_panel(title@, texts(lines@), wants_select, cursor as int),
    {
        let cursor = min_of(cursor, Self::last(&lines));
        let targets: Vec<Option<Target>> = Vec::new();
        assert(places(targets@) =~= Seq::<Option<Place>>::empty());
        Panel {
            title,
            lines,
            cursor,
            top: 0,
            height: PANEL_HEIGHT,
            gpending: false,
            wants_select,
            targets,
        }
    }

    fn last(lines: &Vec<String>) -> (n: usize)
        ensures
            n == last_entry(texts(lines@)),
    {
        if lines.len() == 0 {
            0
        } else {
            lines.len() - 1
        }
    }

    /// A copy of the panel.
    pub fn copy(&self) -> (p: Self)
        ensures
            p@ == self@,
    {
        let mut lines: Vec<String> = Vec::new();
        let mut i: usize = 0;
        while i < self.lines.len()
            invariant
                i <= self.lines@.len(),
                lines@.len() == i,
                forall|j: int| 0 <= j < i ==> (#[trigger] lines@[j])@ == self.lines@[j]@,
            decreases self.lines@.len() - i,
        {
            lines.push(self.lines[i].clone());
            i += 1;
        }
        assert(texts(lines@) =~= texts(self.lines@));
        let mut targets: Vec<Option<Target>> = Vec::new();
        let mut i: usize = 0;
        assert(places(targets@) =~= places(self.targets@).take(0));
        while i < self.targets.len()
            invariant
                i <= self.targets@.len(),
                places(targets@) == places(self.targets@).take(i as int),
            decreases self.targets@.len() - i,
        {
            let t = match &self.targets[i] {
                Some(t) => Some(Target { path: t.path.clone(), line: t.line, col: t.col }),
                None => None,
            };
            let ghost before = places(targets@);
            let ghost g = places(self.targets@)[i as int];
            targets.push(t);
            assert(places(targets@) =~= before.push(g));
            assert(places(self.targets@).take(i + 1) =~= places(self.targets@).take(
                i as int,
            ).push(g));
            i += 1;
        }
        assert(places(self.targets@).take(i as int) =~= places(self.targets@));
        Panel {
            title: self.title.clone(),
            lines,
            cursor: self.cursor,
            top: self.top,
            height: self.height,
            gpending: self.gpending,
            wants_select: self.wants_select,
            targets,
        }
    }

    /// Show the panel again: the chosen line and the first one that is shown are
    /// held to the lines there are, and a `g` that was typed is forgotten.
    pub fn revive(&mut self)
        ensures
            final(self)@ == (PanelModel {
                cursor: least(old(self)@.cursor, last_entry(old(self)@.lines)),
                top: least(old(self)@.top, last_entry(old(self)@.lines)),
                gpending: false,
                ..old(self)@
            }),
    {
        let last: usize = Self::last(&self.lines);
        self.cursor = min_of(self.cursor, last);
        self.top = min_of(self.top, last);
        self.gpending = false;
    }

    /// Give the lines places to jump to.
    pub fn set_targets(&mut self, targets: Vec<Option<Target>>)
        ensures
            final(self)@ == (PanelModel { targets: places(targets@), ..old(self)@ }),
    {
        self.targets = targets;
    }

    /// Say whether the enter key reports the chosen line.
    pub fn set_on_select(&mut self, wants: bool)
        ensures
            final(self)@ == (PanelModel { wants_select: wants, ..old(self)@ }),
    {
        self.wants_select = wants;
    }

    /// Scroll so that the chosen line shows.
    pub fn scroll_into_view(&mut self, height: usize, width: usize)
        requires
            old(self)@.cursor <= last_entry(old(self)@.lines),
        ensures
            final(self)@ == in_view(old(self)@, height as int, width as int),
    {
        if self.cursor < self.top {
            self.top = self.cursor;
            return;
        }
        let height: usize = if height < 1 {
            1
        } else {
            height
        };
        let n: usize = self.lines.len();
        while self.top < self.cursor && self.cursor < n && count_rows(&self.lines, self.top, self.cursor + 1, width)
            > height as u128
            invariant
                height >= 1,
                n == self.lines@.len(),
                self.cursor <= last_entry(texts(self.lines@)),
                self.top <= self.cursor,
                raised(
                    self@.lines,
                    self@.top,
                    self@.cursor,
                    height as int,
                    width as int,
                ) == raised(
                    old(self)@.lines,
                    old(self)@.top,
                    old(self)@.cursor,
                    height as int,
                    width as int,
                ),
                self@ == (PanelModel { top: self@.top, ..old(self)@ }),
            decreases self.cursor - self.top,
        {
            self.top += 1;
        }
    }

    /// Choose a line.
    pub fn set_cursor(&mut self, index: usize, height: usize, width: usize)
        ensures
            final(self)@ == in_view(
                PanelModel {
                    cursor: least(index as int, last_entry(old(self)@.lines)),
                    ..old(self)@
                },
                height as int,
                width as int,
            ),
    {
        self.cursor = min_of(index, Self::last(&self.lines));
        self.scroll_into_view(height, width);
    }

    /// Choose the line shown in a row.
    pub fn set_cursor_by_row(&mut self, row: usize, height: usize, width: usize)
        ensures
            final(self)@ == in_view(
                PanelModel {
                    cursor: entry_at(
                        old(self)@.lines,
                        old(self)@.top,
                        0,
                        row as int,
                        height as int,
                        width as int,
                        least(old(self)@.top, last_entry(old(self)@.lines)),
                    ),
                    ..old(self)@
                },
                height as int,
                width as int,
            ),
    {
        let n: usize = self.lines.len();
        let mut display: u128 = 0;
        let mut i: usize = self.top;
        let mut found: usize = min_of(i, Self::last(&self.lines));
        let mut done = false;
        while !done && display < height as u128 && i < n
            invariant
                *self == *old(self),
                n == self.lines@.len(),
                found <= last_entry(texts(self.lines@)),
                display <= 0x2_0000_0000_0000_0000,
                ({
                    let want = entry_at(
                        self@.lines,
                        self@.top,
                        0,
                        row as int,
                        height as int,
                        width as int,
                        least(self@.top, last_entry(self@.lines)),
                    );
                    if done {
                        found == want
                    } else {
                        want == entry_at(
                            self@.lines,
                            i as int,
                            display as int,
                            row as int,
                            height as int,
                            width as int,
                            found as int,
                        )
                    }
                }),
            decreases n - i, !done as int,
        {
            let rows = wrap_to_width(self.lines[i].as_str(), width);
            assert(rows@.len() == texts(rows@).len());
            assert(texts(self.lines@)[i as int] == self.lines@[i as int]@);
            found = i;
            if (row as u128) < display + rows.len() as u128 {
                done = true;
            } else {
                display += rows.len() as u128;
                i += 1;
            }
        }
        self.cursor = found;
        self.scroll_into_view(height, width);
    }

    /// Replace the lines.
    pub fn set_lines(&mut self, lines: Vec<String>, height: usize, width: usize)
        ensures
            final(self)@ == in_view(
                PanelModel {
                    lines: texts(lines@),
                    cursor: least(old(self)@.cursor, last_entry(texts(lines@))),
                    top: least(old(self)@.top, last_entry(texts(lines@))),
                    targets: Seq::empty(),
                    ..old(self)@
                },
                height as int,
                width as int,
            ),
    {
        let last: usize = Self::last(&lines);
        self.lines = lines;
        self.cursor = min_of(self.cursor, last);
        self.top = min_of(self.top, last);
        self.targets = Vec::new();
        assert(places(self.targets@) =~= Seq::<Option<Place>>::empty());
        self.scroll_into_view(height, width);
    }

    /// What is to be drawn in so many rows and columns: the rows of the lines from
    /// the first one that is shown, and where among them the chosen line is.
    pub fn view_rows(&self, height: usize, width: usize) -> (v: PanelView)
        ensures
            drawn(self@, v, height as int, width as int),
    {
        let ghost all = texts(self.lines@);
        let n: usize = self.lines.len();
        let mut lines: Vec<String> = Vec::new();
        let mut cursor_row: usize = 0;
        let mut cursor_span: usize = 1;
        let mut i: usize = self.top;
        assert(texts(lines@) =~= rows_between(all, i as int, i as int, width as int));
        proof {
            if self.top >= n {
                assert(rows_between(all, self.top as int, n as int, width as int).len() == 0);
            }
        }
        while lines.len() < height && i < n
            invariant
                n == self.lines@.len(),
                all == texts(self.lines@),
                self.top <= i,
                i <= n || self.top >= n,
                ({
                    let shown = rows_between(all, self.top as int, i as int, width as int);
                    texts(lines@) == shown.take(least(shown.len() as int, height as int))
                }),
                lines@.len() <= height,
                ({
                    let before = rows_between(
                        all,
                        self.top as int,
                        self.cursor as int,
                        width as int,
                    ).len() as int;
                    if self.top <= self.cursor < i && self.cursor < n && before < height {
                        &&& cursor_row == before
                        &&& cursor_span == least(
                            rows_of(all[self.cursor as int], width as int).len() as int,
                            height - before,
                        )
                    } else {
                        cursor_row == 0 && cursor_span == 1
                    }
                }),
            decreases n - i,
        {
            let start: usize = lines.len();
            let ghost shown = rows_between(all, self.top as int, i as int, width as int);
            assert(shown.len() == start) by {
                assert(texts(lines@).len() == lines@.len());
            }
            let mut rows = wrap_to_width(self.lines[i].as_str(), width);
            let ghost wrapped = texts(rows@);
            proof {
                assert(all[i as int] == self.lines@[i as int]@);
                every_line_takes_a_row(all[i as int], width as int);
                assert(wrapped.len() == rows@.len());
            }
            let room: usize = height - start;
            rows.truncate(room);
            let ghost before = texts(lines@);
            let ghost taken = texts(rows@);
            lines.append(&mut rows);
            proof {
                assert(texts(lines@) =~= before + taken);
                assert(taken =~= wrapped.take(least(wrapped.len() as int, room as int)));
                assert(before =~= shown);
                let next = shown + wrapped;
                assert(texts(lines@) =~= next.take(least(next.len() as int, height as int)));
                assert(rows_between(all, self.top as int, i + 1, width as int) == next);
            }
            if i == self.cursor {
                cursor_row = start;
                cursor_span = lines.len() - start;
            }
            i += 1;
        }
        proof {
            if self.top < n {
                lemma_rows_prefix(all, self.top as int, i as int, n as int, width as int);
                if i <= self.cursor < n {
                    lemma_rows_prefix(
                        all,
                        self.top as int,
                        i as int,
                        self.cursor as int,
                        width as int,
                    );
                }
            }
            let shown = rows_between(all, self.top as int, i as int, width as int);
            let every = rows_between(all, self.top as int, n as int, width as int);
            assert(texts(lines@).len() == lines@.len());
            if self.top < n {
                assert(texts(lines@) =~= every.take(least(every.len() as int, height as int)));
            } else {
                assert(texts(lines@) =~= every.take(least(every.len() as int, height as int)));
            }
        }
        PanelView { title: self.title.clone(), lines, cursor_row, cursor_span, height }
    }

    fn moved(&self, key: Key, height: usize) -> (r: usize)
        requires
            self@.cursor <= last_entry(self@.lines),
            !self.gpending,
            typed(key) != Some('g'),
        ensures
            r == key_moved(self@, key, height as int).cursor,
    {
        let last: usize = Self::last(&self.lines);
        let ph: usize = if height < 1 {
            1
        } else {
            height
        };
        let half: usize = if ph / 2 < 1 {
            1
        } else {
            ph / 2
        };
        let c = key.as_char();
        if key.code == KeyCode::Down || c == Some('j') {
            if self.cursor < last {
                self.cursor + 1
            } else {
                last
            }
        } else if key.code == KeyCode::Up || c == Some('k') {
            if self.cursor >= 1 {
                self.cursor - 1
            } else {
                0
            }
        } else if c == Some('G') {
            last
        } else if key.code == KeyCode::Char('d') && key.ctrl {
            if last - self.cursor >= half {
                self.cursor + half
            } else {
                last
            }
        } else if key.code == KeyCode::Char('u') && key.ctrl {
            if self.cursor >= half {
                self.cursor - half
            } else {
                0
            }
        } else if key.code == KeyCode::Home {
            0
        } else if key.code == KeyCode::End {
            last
        } else {
            self.cursor
        }
    }

    fn chosen(&self) -> (r: PanelStep)
        ensures
            r@ == panel_ask(self@, crate::input::plain_key(KeyCode::Enter)),
    {
        if self.cursor < self.targets.len() {
            assert(places(self.targets@)[self.cursor as int] == match self.targets@[self.cursor as int] {
                Some(t) => Some(t@),
                None => None,
            });
            if let Some(t) = &self.targets[self.cursor] {
                return PanelStep::Jump(
                    Target { path: t.path.clone(), line: t.line, col: t.col },
                );
            }
        }
        if self.wants_select && self.cursor < self.lines.len() {
            return PanelStep::Select(self.cursor, self.lines[self.cursor].clone());
        }
        PanelStep::Stay
    }

    /// Take one key: `q`, `Q` and escape ask to close the panel, the enter key for
    /// the place or the report of the chosen line, and the vertical motions choose
    /// another line.
    pub fn handle_panel(&mut self, key: Key, height: usize, width: usize) -> (step: PanelStep)
        requires
            old(self)@.cursor <= last_entry(old(self)@.lines),
        ensures
            step@ == panel_ask(old(self)@, key),
            final(self)@ == panel_keyed(old(self)@, key, height as int, width as int),
            final(self)@.cursor <= last_entry(final(self)@.lines),
    {
        let c = key.as_char();
        if key.code == KeyCode::Esc || c == Some('q') || c == Some('Q') {
            return PanelStep::Close;
        }
        if key.code == KeyCode::Enter {
            return self.chosen();
        }
        if self.gpending {
            self.gpending = false;
            if c == Some('g') {
                self.cursor = 0;
            }
        } else if c == Some('g') {
            self.gpending = true;
        } else {
            self.cursor = self.moved(key, height);
        }
        self.scroll_into_view(height, width);
        PanelStep::Stay
    }
}

proof fn lemma_rows_prefix(lines: Seq<Seq<char>>, a: int, m: int, b: int, width: int)
    requires
        0 <= a <= m <= b <= lines.len(),
    ensures
        rows_between(lines, a, m, width).is_prefix_of(rows_between(lines, a, b, width)),
    decreases b - m,
{
    if m < b {
        lemma_rows_prefix(lines, a, m, b - 1, width);
        assert(a < b);
        assert(rows_between(lines, a, m, width).is_prefix_of(
            rows_between(lines, a, b - 1, width) + rows_of(lines[b - 1], width),
        ));
    }
}

proof fn lemma_raised(lines: Seq<Seq<char>>, top: int, cursor: int, height: int, width: int)
    requires
        top <= cursor,
    ensures
        top <= raised(lines, top, cursor, height, width) <= cursor,
        ({
            let t = raised(lines, top, cursor, height, width);
            t == cursor || rows_between(lines, t, cursor + 1, width).len() <= height
        }),
    decreases cursor - top,
{
    if top < cursor && rows_between(lines, top, cursor + 1, width).len() > height {
        lemma_raised(lines, top + 1, cursor, height, width);
    }
}

/// Once scrolled into view, the chosen line is not above the panel, and all of its
/// rows show, or it is the first line there.
pub proof fn chosen_line_shows(p: PanelModel, height: int, width: int)
    requires
        0 <= p.cursor <= last_entry(p.lines),
        height >= 1,
    ensures
        ({
            let q = in_view(p, height, width);
            &&& q.top <= q.cursor
            &&& q.top == q.cursor || rows_between(q.lines, q.top, q.cursor + 1, width).len()
                <= height
        }),
{
    if p.cursor >= p.top {
        lemma_raised(p.lines, p.top, p.cursor, height, width);
    }
}

/// No key takes the chosen line out of the list.
pub proof fn keys_keep_to_the_list(p: PanelModel, key: Key, height: int, width: int)
    requires
        0 <= p.cursor <= last_entry(p.lines),
    ensures
        0 <= panel_keyed(p, key, height, width).cursor <= last_entry(p.lines),
        panel_keyed(p, key, height, width).lines == p.lines,
{
}

} // verus!
