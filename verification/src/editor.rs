//! The editor: its buffers, its windows, and what is under way.

use vstd::prelude::*;

use crate::buffer::{empty_buffer, Buffer};
use crate::cmdline::{fresh_line, line_ok, CommandLine, LineModel};
use crate::command::{clean_command, NamedOperator, PendingCommand};
use crate::complete::{default_config, CompleteConfig};
use crate::decor::{fresh_decor, Decor, DecorModel};
use crate::desk::{Desk, Pane};
use crate::idmap::{ascending, IdMap};
use crate::input::Key;
use crate::layout::{Rect, Tree, WindowId};
use crate::log::{echoed, Log, LogModel};
use crate::mode::Mode;
use crate::num::{least, less, min_of};
use crate::open::{opened, Live, OpenBuffer, OpenModel};
use crate::options::{default_options, Options};
use crate::panel::{last_entry, Panel, PanelModel};
use crate::pending::{empty_outbox, OutModel, Outbox};
use crate::registers::{no_regs, Registers, Regs};
use crate::rows::{RowSight, RowView};
use crate::scroll::{
    deepest_top, gutter, number_width_for, selection_revealed, shown, Frame, PendingScroll,
};
use crate::search::{SearchDir, SearchOffset};
use crate::text::edit_lines;
use crate::window::{
    new_window, windows_laid, BorderStyle, BufferId, Cursor, Window, WindowTree, WindowsModel,
};
use crate::wins::{arranged, focused, layout_keeps_windows};

pub mod api;
pub mod buffers;
pub mod exline;
pub mod files;
pub mod fixed;
pub mod host;
pub mod keys;
pub mod laws;
pub mod normal;
pub mod opens;
pub mod panels;
pub mod panes;
pub mod prompts;
pub mod searches;

verus! {

/// The last search: its pattern, its direction, and where it leaves the cursor.
pub struct LastSearch {
    pub pattern: String,
    pub dir: SearchDir,
    pub offset: SearchOffset,
}

/// What a [`LastSearch`] says.
pub ghost struct LastModel {
    pub pattern: Seq<char>,
    pub dir: SearchDir,
    pub offset: SearchOffset,
}

impl View for LastSearch {
    type V = LastModel;

    open spec fn view(&self) -> LastModel {
        LastModel { pattern: self.pattern@, dir: self.dir, offset: self.offset }
    }
}

/// What is known of searches.
pub struct SearchState {
    pub last: Option<LastSearch>,
    /// The operator that waits for the search being typed.
    pub operator: Option<NamedOperator>,
    /// Which match the search being typed goes to.
    pub count: usize,
    /// Matches are painted.
    pub active: bool,
    /// Where the cursor was when the search line was opened.
    pub origin: Cursor,
    /// The matches are still to come up to which an operator is to be applied.
    pub awaited: bool,
}

/// What a [`SearchState`] holds.
pub ghost struct SearchModel {
    pub last: Option<LastModel>,
    pub operator: Option<NamedOperator>,
    pub count: usize,
    pub active: bool,
    pub origin: Cursor,
    pub awaited: bool,
}

pub open spec fn last_of(s: Option<LastSearch>) -> Option<LastModel> {
    match s {
        Some(s) => Some(s@),
        None => None,
    }
}

impl View for SearchState {
    type V = SearchModel;

    open spec fn view(&self) -> SearchModel {
        SearchModel {
            last: last_of(self.last),
            operator: self.operator,
            count: self.count,
            active: self.active,
            origin: self.origin,
            awaited: self.awaited,
        }
    }
}

/// A place in a buffer.
#[derive(Debug, Clone, Copy, PartialEq, Eq, Structural)]
pub struct MarkAt {
    pub buf: BufferId,
    pub line: usize,
    pub col: usize,
}

/// What is kept to repeat the last change.
pub struct Repeat {
    /// The keys of the command under way.
    pub recording: Vec<Key>,
    /// The keys of the last command that changed the text.
    pub last: Vec<Key>,
    /// The buffer that was current when the command under way began.
    pub buf: BufferId,
    /// The tick of the buffer when the command under way began.
    pub tick: u64,
    /// The command under way is not to be repeated.
    pub skip: bool,
    /// The keys come from a repetition.
    pub replaying: bool,
    /// The keys that are still to be repeated.
    pub queue: Vec<Key>,
}

/// What a [`Repeat`] holds.
pub ghost struct RepeatModel {
    pub recording: Seq<Key>,
    pub last: Seq<Key>,
    pub buf: BufferId,
    pub tick: u64,
    pub skip: bool,
    pub replaying: bool,
    pub queue: Seq<Key>,
}

impl View for Repeat {
    type V = RepeatModel;

    open spec fn view(&self) -> RepeatModel {
        RepeatModel {
            recording: self.recording@,
            last: self.last@,
            buf: self.buf,
            tick: self.tick,
            skip: self.skip,
            replaying: self.replaying,
            queue: self.queue@,
        }
    }
}

/// The editor.
pub struct Editor {
    desk: Desk,
    others: IdMap<OpenBuffer>,
    next_buffer: u64,
    windows: WindowTree,
    alternate: Option<BufferId>,
    line: CommandLine,
    log: Log,
    panel: Option<Panel>,
    last_panel: Option<Panel>,
    search: SearchState,
    options: Options,
    width: usize,
    height: usize,
    pending_scroll: Option<PendingScroll>,
    out: Outbox,
    should_quit: bool,
    marks: IdMap<MarkAt>,
    repeat: Repeat,
    waiting: Option<(BufferId, usize, usize)>,
    decor: Decor,
    complete: CompleteConfig,
    cwd: String,
    rows: Option<RowView>,
}

/// What an [`Editor`] holds.
pub ghost struct World {
    /// All open buffers.
    pub buffers: Map<u64, OpenModel>,
    /// The number of the next buffer.
    pub next_buffer: u64,
    pub windows: WindowsModel,
    /// The buffer that was current before.
    pub alternate: Option<BufferId>,
    /// The state of the focused window.
    pub live: Live,
    pub regs: Regs,
    pub line: LineModel,
    pub log: LogModel,
    pub panel: Option<PanelModel>,
    /// The panel that was last open.
    pub last_panel: Option<PanelModel>,
    pub search: SearchModel,
    pub options: Options,
    pub width: usize,
    pub height: usize,
    pub pending_scroll: Option<PendingScroll>,
    pub out: OutModel,
    pub should_quit: bool,
    /// The marks that reach across buffers.
    pub marks: Map<u64, MarkAt>,
    pub repeat: RepeatModel,
    /// Where the cursor goes once a buffer's file has been read.
    pub waiting: Option<(BufferId, usize, usize)>,
    /// What is known of the windows' views.
    pub decor: DecorModel,
    /// How words are completed.
    pub complete: CompleteConfig,
    /// The directory that relative paths start from; empty where it is not known.
    pub cwd: Seq<char>,
    /// The rows of the text in a window, where the host has told them.
    pub rows: Option<RowSight>,
}

pub open spec fn panel_of(p: Option<Panel>) -> Option<PanelModel> {
    match p {
        Some(p) => Some(p@),
        None => None,
    }
}

pub open spec fn models(m: Map<u64, OpenBuffer>) -> Map<u64, OpenModel> {
    m.map_values(|o: OpenBuffer| o@)
}

impl View for Editor {
    type V = World;

    closed spec fn view(&self) -> World {
        World {
            buffers: models(self.others@).insert(
                self.windows@.windows[self.windows@.current.0].buffer.0,
                self.desk@.open,
            ),
            next_buffer: self.next_buffer,
            windows: self.windows@,
            alternate: self.alternate,
            live: self.desk@.live,
            regs: self.desk@.regs,
            line: self.line@,
            log: self.log@,
            panel: panel_of(self.panel),
            last_panel: panel_of(self.last_panel),
            search: self.search@,
            options: self.options,
            width: self.width,
            height: self.height,
            pending_scroll: self.pending_scroll,
            out: self.out@,
            should_quit: self.should_quit,
            marks: self.marks@,
            repeat: self.repeat@,
            waiting: self.waiting,
            decor: self.decor@,
            complete: self.complete,
            cwd: self.cwd@,
            rows: sight_of_rows(self.rows),
        }
    }
}

impl World {
    /// The focused window.
    pub open spec fn win(self) -> Window {
        self.windows.windows[self.windows.current.0]
    }

    /// The current buffer.
    pub open spec fn cur(self) -> BufferId {
        self.win().buffer
    }

    /// The current buffer with the state of the focused window, and the registers.
    pub open spec fn pane(self) -> Pane {
        Pane { open: self.buffers[self.cur().0], live: self.live, regs: self.regs }
    }

    pub open spec fn with_pane(self, p: Pane) -> World {
        World {
            buffers: self.buffers.insert(self.cur().0, p.open),
            live: p.live,
            regs: p.regs,
            ..self
        }
    }

    pub open spec fn with_live(self, live: Live) -> World {
        World { live, ..self }
    }

    /// A message shown.
    pub open spec fn said(self, msg: Seq<char>) -> World {
        World { log: echoed(self.log, msg), ..self }
    }

    /// No message shown.
    pub open spec fn hushed(self) -> World {
        World { log: LogModel { message: Seq::empty(), ..self.log }, ..self }
    }
}

/// The windows are arranged, each of them shows an open buffer, no buffer has a number
/// that is still to be given out, the screen is not empty, and the chosen line of the panel
/// is one of its lines.
#[verifier::opaque]
pub open spec fn consistent(w: World) -> bool {
    &&& focused(w.windows)
    &&& forall|k: u64| #[trigger]
        w.windows.windows.contains_key(k) ==> w.buffers.contains_key(w.windows.windows[k].buffer.0)
    &&& forall|k: u64| #[trigger] w.buffers.contains_key(k) ==> k < w.next_buffer
    &&& w.buffers.dom().finite()
    &&& w.width >= 1
    &&& w.height >= 1
    &&& w.panel is Some ==> w.panel->0.cursor <= last_entry(w.panel->0.lines)
}

/// Whether a world is consistent depends on its windows, on which buffers there are, on the
/// screen and on the panel alone.
pub proof fn lemma_same_frame(a: World, b: World)
    requires
        consistent(a),
        a.windows == b.windows,
        a.buffers.dom() == b.buffers.dom(),
        a.next_buffer == b.next_buffer,
        a.width == b.width,
        a.height == b.height,
        a.panel == b.panel,
    ensures
        consistent(b),
{
    reveal(consistent);
    assert forall|k: u64| #[trigger]
        b.windows.windows.contains_key(k) implies b.buffers.contains_key(
        b.windows.windows[k].buffer.0,
    ) by {
        assert(a.windows.windows.contains_key(k));
        assert(a.buffers.contains_key(a.windows.windows[k].buffer.0));
    }
    assert forall|k: u64| #[trigger] b.buffers.contains_key(k) implies k < b.next_buffer by {
        assert(a.buffers.contains_key(k));
    }
}

/// Without a panel, a world is as consistent as it was.
pub proof fn lemma_same_but_panel(a: World, b: World)
    requires
        consistent(a),
        a.windows == b.windows,
        a.buffers == b.buffers,
        a.next_buffer == b.next_buffer,
        a.width == b.width,
        a.height == b.height,
        b.panel is None,
    ensures
        consistent(b),
{
    reveal(consistent);
}

/// The state of a window that was just opened.
pub open spec fn fresh_live() -> Live {
    Live {
        mode: Mode::Normal,
        cursor: Cursor { line: 0, col: 0 },
        top: 0,
        leftcol: 0,
        desired_col: 0,
        desired_eol: false,
        preserve_desired: false,
        eol_request: false,
        pending: clean_command(),
        last_find: None,
        snapshot_taken: false,
        soft_tab: None,
        visual_anchor: Cursor { line: 0, col: 0 },
        scroll_from: None,
    }
}

/// An editor on one buffer, before its window has been laid out.
pub open spec fn fresh_world(o: OpenModel, complete: CompleteConfig) -> World {
    World {
        buffers: Map::empty().insert(1, o),
        next_buffer: 2,
        windows: WindowsModel {
            windows: Map::empty().insert(1, new_window(BufferId(1))),
            root: Tree::Leaf(WindowId(1)),
            current: WindowId(1),
            next_id: 2,
            separators: Seq::empty(),
            floats: Seq::empty(),
        },
        alternate: None,
        live: fresh_live(),
        regs: no_regs(),
        line: fresh_line(),
        log: LogModel { message: Seq::empty(), messages: Seq::empty() },
        panel: None,
        last_panel: None,
        search: SearchModel {
            last: None,
            operator: None,
            count: 1,
            active: false,
            origin: Cursor { line: 0, col: 0 },
            awaited: false,
        },
        options: default_options(),
        width: 80,
        height: 24,
        pending_scroll: None,
        out: empty_outbox(),
        should_quit: false,
        marks: Map::empty(),
        repeat: RepeatModel {
            recording: Seq::empty(),
            last: Seq::empty(),
            buf: BufferId(1),
            tick: 0,
            skip: false,
            replaying: false,
            queue: Seq::empty(),
        },
        waiting: None,
        decor: fresh_decor(),
        complete,
        cwd: Seq::empty(),
        rows: None,
    }
}

/// How many rows the panel takes: what it asks for and its title, and one row less than
/// the screen at most.
pub open spec fn panel_rows(w: World) -> int {
    match w.panel {
        None => 0,
        Some(p) => if p.height + 1 < w.height {
            p.height + 1
        } else {
            less(w.height as int, 1)
        },
    }
}

/// The area of the windows.
pub open spec fn total_area(w: World) -> Rect {
    Rect { x: 0, y: 0, width: w.width, height: (w.height - panel_rows(w)) as usize }
}

/// Where the cursor is in the focused window.
pub open spec fn cursor_offset(w: World) -> (usize, usize) {
    (
        w.pane().column(w.live.cursor.col as int) as usize,
        less(w.live.cursor.line as int, w.live.top as int) as usize,
    )
}

/// The windows laid out anew.
#[verifier::opaque]
pub open spec fn relaid(w: World) -> World {
    World { windows: windows_laid(w.windows, total_area(w), cursor_offset(w)), ..w }
}

/// How many cells the border of a window takes on each side.
pub open spec fn inset(w: Window) -> int {
    match w.float {
        Some(cfg) => if cfg.border == BorderStyle::Borderless {
            0
        } else {
            1
        },
        None => 0,
    }
}

/// How many rows of text a window shows: all but those of its border and, of a tiled
/// window, its status line, and one at least.
pub open spec fn text_rows(w: Window) -> usize {
    let h = less(
        less(w.rect.height as int, 2 * inset(w)),
        if w.float is None {
            1
        } else {
            0
        },
    );
    if h < 1 {
        1
    } else {
        h as usize
    }
}

/// The text area of a window on a buffer of so many lines.
pub open spec fn frame_of(w: Window, lines: nat) -> Frame {
    Frame {
        height: text_rows(w),
        width: less(
            less(w.rect.width as int, 2 * inset(w)),
            gutter(w.options, lines) as int,
        ) as usize,
        scrolloff: w.options.scrolloff,
        sidescroll: w.options.sidescroll,
        sidescrolloff: w.options.sidescrolloff,
        wrap: w.options.wrap,
    }
}

/// The text area of the focused window.
pub open spec fn frame(w: World) -> Frame {
    frame_of(w.win(), edit_lines(w.pane().text()))
}

pub open spec fn sight_of_rows(v: Option<RowView>) -> Option<RowSight> {
    match v {
        Some(v) => Some(v@),
        None => None,
    }
}

/// The rows that the view goes by: those that the host has told of the focused window, where
/// they are those of as many lines as the text has.
pub open spec fn rows_in_use(w: World) -> Option<RowSight> {
    match w.rows {
        Some(v) => if v.win == w.windows.current && v.rows.lines.len() == edit_lines(
            w.pane().text(),
        ) && w.live.cursor.line < v.rows.lines.len() {
            Some(v)
        } else {
            None
        },
        None => None,
    }
}

/// The row of its line that the cursor is in.
pub open spec fn cursor_seg(w: World, v: RowSight) -> nat {
    v.seg(w.live.cursor.line as int, w.live.cursor.col as int)
}

/// The text at hand with the view moved so that the cursor shows: by the rows that are known,
/// else with one row for each line.
pub open spec fn view_of(w: World) -> Pane {
    let f = frame(w);
    let p = shown(w.pane(), f);
    match rows_in_use(w) {
        Some(v) => Pane {
            live: Live {
                top: v.rows.settled(
                    w.live.top as int,
                    w.live.cursor.line as int,
                    cursor_seg(w, v),
                    f.scrolloff as nat,
                    f.height as nat,
                ) as usize,
                ..p.live
            },
            ..p
        },
        None => p,
    }
}

/// The view moved so that the cursor shows.
#[verifier::opaque]
pub open spec fn seen(w: World) -> World {
    w.with_pane(view_of(w))
}

/// The view moved so that as much of the selection as possible shows.
pub open spec fn selection_seen(w: World) -> World {
    let f = frame(w);
    match rows_in_use(w) {
        Some(v) => {
            let line = w.live.cursor.line as int;
            let p = w.pane();
            w.with_pane(
                Pane {
                    live: Live {
                        top: v.rows.revealed(
                            w.live.top as int,
                            least(w.live.visual_anchor.line as int, line),
                            line,
                            cursor_seg(w, v),
                            f.height as nat,
                        ) as usize,
                        ..p.live
                    },
                    ..p
                },
            )
        },
        None => w.with_pane(selection_revealed(w.pane(), f)),
    }
}

/// The last line that a scroll may bring to the top of the focused window.
pub open spec fn scroll_limit(w: World) -> int {
    let f = frame(w);
    match rows_in_use(w) {
        Some(v) => v.rows.max_top(f.scrolloff as nat, f.height as nat),
        None => deepest_top(w.pane(), f),
    }
}

/// The ids of a set, in order.
pub open spec fn ordered(s: Set<u64>) -> Seq<u64> {
    choose|v: Seq<u64>| ascending(v) && v.to_set() == s
}

/// There is one order of a set of ids.
pub proof fn lemma_ordered(v: Seq<u64>)
    requires
        ascending(v),
    ensures
        ordered(v.to_set()) == v,
{
    let u = ordered(v.to_set());
    assert(ascending(v) && v.to_set() == v.to_set());
    lemma_ascending_unique(u, v);
}

/// Every finite set of ids has an order.
pub proof fn lemma_order_exists(s: Set<u64>) -> (v: Seq<u64>)
    requires
        s.finite(),
    ensures
        ascending(v),
        v.to_set() == s,
    decreases s.len(),
{
    if s.len() == 0 {
        s.lemma_len0_is_empty();
        let v = Seq::<u64>::empty();
        assert(v.to_set() =~= s);
        v
    } else {
        let m = greatest(s);
        let rest = s.remove(m);
        let r = lemma_order_exists(rest);
        let v = r.push(m);
        assert forall|k: int| 0 <= k < r.len() implies #[trigger] r[k] < m by {
            assert(r.to_set().contains(r[k]));
            assert(rest.contains(r[k]));
        }
        lemma_push_ascending(r, m);
        assert(v.to_set() =~= s);
        v
    }
}

/// The greatest id of a set.
proof fn greatest(s: Set<u64>) -> (m: u64)
    requires
        s.finite(),
        s.len() > 0,
    ensures
        s.contains(m),
        forall|k: u64| #[trigger] s.contains(k) ==> k <= m,
    decreases s.len(),
{
    let a = s.choose();
    let rest = s.remove(a);
    if rest.len() == 0 {
        rest.lemma_len0_is_empty();
        assert forall|k: u64| #[trigger] s.contains(k) implies k <= a by {
            if k != a {
                assert(rest.contains(k));
            }
        }
        a
    } else {
        let b = greatest(rest);
        let m = if a >= b {
            a
        } else {
            b
        };
        assert forall|k: u64| #[trigger] s.contains(k) implies k <= m by {
            if k != a {
                assert(rest.contains(k));
            }
        }
        m
    }
}

proof fn lemma_ascending_unique(u: Seq<u64>, v: Seq<u64>)
    requires
        ascending(u),
        ascending(v),
        u.to_set() == v.to_set(),
    ensures
        u == v,
    decreases u.len(),
{
    if u.len() == 0 {
        if v.len() > 0 {
            assert(v.to_set().contains(v[0]));
            assert(u.to_set().contains(v[0]));
        }
        assert(u =~= v);
    } else {
        assert(u.to_set().contains(u.last()));
        assert(v.to_set().contains(u.last()));
        assert(v.len() > 0);
        assert(v.to_set().contains(v.last()));
        assert(u.to_set().contains(v.last()));
        let i = u.index_of(v.last());
        let j = v.index_of(u.last());
        assert(u[i] == v.last());
        assert(v[j] == u.last());
        if i < u.len() - 1 {
            assert(u[i] < u[u.len() - 1]);
            if j < v.len() - 1 {
                assert(v[j] < v[v.len() - 1]);
            }
            assert(false);
        }
        let a = u.drop_last();
        let b = v.drop_last();
        assert forall|x: u64| a.to_set().contains(x) <==> b.to_set().contains(x) by {
            if a.contains(x) {
                let k = a.index_of(x);
                assert(u[k] == x);
                assert(u[k] < u[u.len() - 1]);
                assert(u.to_set().contains(x));
                assert(v.to_set().contains(x));
                let m = v.index_of(x);
                assert(v[m] == x);
                assert(b[m] == x);
            }
            if b.contains(x) {
                let k = b.index_of(x);
                assert(v[k] == x);
                assert(v[k] < v[v.len() - 1]);
                assert(v.to_set().contains(x));
                assert(u.to_set().contains(x));
                let m = u.index_of(x);
                assert(u[m] == x);
                assert(a[m] == x);
            }
        }
        assert(a.to_set() =~= b.to_set());
        lemma_ascending_unique(a, b);
        assert(u =~= a.push(u.last()));
        assert(v =~= b.push(v.last()));
    }
}

impl Editor {
    /// What the editor holds is consistent.
    pub closed spec fn wf(&self) -> bool {
        &&& self.desk.wf()
        &&& self.others.wf()
        &&& forall|k: u64| #[trigger] self.others@.contains_key(k) ==> self.others@[k].wf()
        &&& self.windows.windows.wf()
        &&& self.line.wf()
        &&& self.marks.wf()
        &&& self.decor.wf()
        &&& self.rows matches Some(v) ==> v@.wf()
        &&& !self.others@.contains_key(
            self.windows@.windows[self.windows@.current.0].buffer.0,
        )
        &&& consistent(self@)
    }

    /// The editor's world is consistent.
    pub proof fn is_consistent(&self)
        requires
            self.wf(),
        ensures
            consistent(self@),
            focused(self@.windows),
            line_ok(self@.line),
            self@.windows.windows.contains_key(self@.windows.current.0),
            self@.buffers.contains_key(self@.cur().0),
    {
        reveal(consistent);
        assert(self@.windows.windows.contains_key(self@.windows.current.0));
    }

    /// The current buffer with the state of the focused window.
    pub fn desk(&self) -> (d: &Desk)
        requires
            self.wf(),
        ensures
            d.wf(),
            d@ == self@.pane(),
    {
        &self.desk
    }

    /// The current buffer with the state of the focused window, to be changed.
    pub fn desk_mut(&mut self) -> (d: &mut Desk)
        requires
            old(self).wf(),
        ensures
            d.wf(),
            d@ == old(self)@.pane(),
            final(d).wf() ==> final(self).wf(),
            final(self)@ == old(self)@.with_pane(final(d)@),
    {
        let ghost w = self@;
        let ghost m = models(self.others@);
        let ghost c = w.cur().0;
        proof {
            assert forall|o: OpenModel| #[trigger] m.insert(c, o) == w.buffers.insert(c, o) by {
                assert(m.insert(c, o) =~= w.buffers.insert(c, o));
            }
            assert forall|p: Pane| consistent(#[trigger] w.with_pane(p)) by {
                reveal(consistent);
                assert(w.windows.windows.contains_key(w.windows.current.0));
                assert(w.with_pane(p).buffers.dom() =~= w.buffers.dom());
                lemma_same_frame(w, w.with_pane(p));
            }
        }
        &mut self.desk
    }

    pub fn windows(&self) -> (t: &WindowTree)
        requires
            self.wf(),
        ensures
            t@ == self@.windows,
            t.windows.wf(),
            focused(t@),
    {
        proof {
            self.is_consistent();
        }
        &self.windows
    }

    /// The command line.
    pub fn line(&self) -> (l: &CommandLine)
        requires
            self.wf(),
        ensures
            l.wf(),
            l@ == self@.line,
    {
        &self.line
    }

    /// The command line, to be changed.
    pub fn line_mut(&mut self) -> (l: &mut CommandLine)
        requires
            old(self).wf(),
        ensures
            l.wf(),
            l@ == old(self)@.line,
            final(l).wf() ==> final(self).wf(),
            final(self)@ == (World { line: final(l)@, ..old(self)@ }),
    {
        proof {
            let w = self@;
            assert forall|l: LineModel| #[trigger] consistent(World { line: l, ..w }) by {
                lemma_same_frame(w, World { line: l, ..w });
            }
        }
        &mut self.line
    }

    /// The messages.
    pub fn log(&self) -> (l: &Log)
        ensures
            l@ == self@.log,
    {
        &self.log
    }

    /// Show a message, and add its lines to the history.
    pub fn echo(&mut self, msg: String)
        requires
            old(self).wf(),
        ensures
            final(self).wf(),
            final(self)@ == old(self)@.said(msg@),
    {
        self.log.echo(msg);
        proof {
            lemma_same_frame(old(self)@, self@);
        }
    }

    /// Show a message without adding it to the history.
    pub fn show(&mut self, msg: String)
        requires
            old(self).wf(),
        ensures
            final(self).wf(),
            final(self)@ == (World {
                log: LogModel { message: msg@, ..old(self)@.log },
                ..old(self)@
            }),
    {
        self.log.message = msg;
        proof {
            lemma_same_frame(old(self)@, self@);
        }
    }

    /// Show no message.
    pub fn hush(&mut self)
        requires
            old(self).wf(),
        ensures
            final(self).wf(),
            final(self)@ == old(self)@.hushed(),
    {
        self.log.clear();
        proof {
            lemma_same_frame(old(self)@, self@);
        }
    }

    /// What waits for the host.
    pub fn outbox(&self) -> (o: &Outbox)
        ensures
            o@ == self@.out,
    {
        &self.out
    }

    /// What waits for the host, to be taken.
    pub fn outbox_mut(&mut self) -> (o: &mut Outbox)
        requires
            old(self).wf(),
        ensures
            o@ == old(self)@.out,
            final(self).wf(),
            final(self)@ == (World { out: final(o)@, ..old(self)@ }),
    {
        proof {
            let w = self@;
            assert forall|o: OutModel| #[trigger] consistent(World { out: o, ..w }) by {
                lemma_same_frame(w, World { out: o, ..w });
            }
        }
        &mut self.out
    }

    /// What is known of searches.
    pub fn search(&self) -> (s: &SearchState)
        ensures
            s@ == self@.search,
    {
        &self.search
    }

    /// What is known of searches, to be changed.
    pub fn search_mut(&mut self) -> (s: &mut SearchState)
        requires
            old(self).wf(),
        ensures
            s@ == old(self)@.search,
            final(self).wf(),
            final(self)@ == (World { search: final(s)@, ..old(self)@ }),
    {
        proof {
            let w = self@;
            assert forall|s: SearchModel| #[trigger] consistent(World { search: s, ..w }) by {
                lemma_same_frame(w, World { search: s, ..w });
            }
        }
        &mut self.search
    }

    /// What is kept to repeat the last change.
    pub fn repeat(&self) -> (r: &Repeat)
        ensures
            r@ == self@.repeat,
    {
        &self.repeat
    }

    /// What is kept to repeat the last change, to be changed.
    pub fn repeat_mut(&mut self) -> (r: &mut Repeat)
        requires
            old(self).wf(),
        ensures
            r@ == old(self)@.repeat,
            final(self).wf(),
            final(self)@ == (World { repeat: final(r)@, ..old(self)@ }),
    {
        proof {
            let w = self@;
            assert forall|r: RepeatModel| #[trigger] consistent(World { repeat: r, ..w }) by {
                lemma_same_frame(w, World { repeat: r, ..w });
            }
        }
        &mut self.repeat
    }

    pub fn global_options(&self) -> (o: Options)
        ensures
            o == self@.options,
    {
        self.options
    }

    pub fn set_global_options(&mut self, o: Options)
        requires
            old(self).wf(),
        ensures
            final(self).wf(),
            final(self)@ == (World { options: o, ..old(self)@ }),
    {
        self.options = o;
        proof {
            lemma_same_frame(old(self)@, self@);
        }
    }

    pub fn should_quit(&self) -> (b: bool)
        ensures
            b == self@.should_quit,
    {
        self.should_quit
    }

    /// Quit.
    pub fn quit(&mut self)
        requires
            old(self).wf(),
        ensures
            final(self).wf(),
            final(self)@ == (World { should_quit: true, ..old(self)@ }),
    {
        self.should_quit = true;
        proof {
            lemma_same_frame(old(self)@, self@);
        }
    }

    /// The buffer that was current before.
    pub fn alternate(&self) -> (r: Option<BufferId>)
        ensures
            r == self@.alternate,
    {
        self.alternate
    }

    pub fn set_alternate(&mut self, id: Option<BufferId>)
        requires
            old(self).wf(),
        ensures
            final(self).wf(),
            final(self)@ == (World { alternate: id, ..old(self)@ }),
    {
        self.alternate = id;
        proof {
            lemma_same_frame(old(self)@, self@);
        }
    }

    pub fn waiting(&self) -> (r: Option<(BufferId, usize, usize)>)
        ensures
            r == self@.waiting,
    {
        self.waiting
    }

    pub fn set_waiting(&mut self, at: Option<(BufferId, usize, usize)>)
        requires
            old(self).wf(),
        ensures
            final(self).wf(),
            final(self)@ == (World { waiting: at, ..old(self)@ }),
    {
        self.waiting = at;
        proof {
            lemma_same_frame(old(self)@, self@);
        }
    }

    /// What is known of the windows' views.
    pub fn decor(&self) -> (d: &Decor)
        requires
            self.wf(),
        ensures
            d.wf(),
            d@ == self@.decor,
    {
        &self.decor
    }

    /// What is known of the windows' views, to be changed.
    pub fn decor_mut(&mut self) -> (d: &mut Decor)
        requires
            old(self).wf(),
        ensures
            d.wf(),
            d@ == old(self)@.decor,
            final(d).wf() ==> final(self).wf(),
            final(self)@ == (World { decor: final(d)@, ..old(self)@ }),
    {
        proof {
            let w = self@;
            assert forall|d: DecorModel| #[trigger] consistent(World { decor: d, ..w }) by {
                lemma_same_frame(w, World { decor: d, ..w });
            }
        }
        &mut self.decor
    }

    /// How words are completed.
    /// The directory that relative paths start from; empty where it is not known.
    pub fn cwd(&self) -> (s: &String)
        ensures
            s@ == self@.cwd,
    {
        &self.cwd
    }

    /// The host says which directory relative paths start from.
    pub fn set_cwd(&mut self, cwd: String)
        requires
            old(self).wf(),
        ensures
            final(self).wf(),
            final(self)@ == (World { cwd: cwd@, ..old(self)@ }),
    {
        self.cwd = cwd;
        proof {
            lemma_same_frame(old(self)@, self@);
        }
    }

    pub fn complete_config(&self) -> (c: &CompleteConfig)
        ensures
            *c == self@.complete,
    {
        &self.complete
    }

    /// Say how words are completed.
    pub fn configure_complete(&mut self, config: CompleteConfig)
        requires
            old(self).wf(),
        ensures
            final(self).wf(),
            final(self)@ == (World { complete: config, ..old(self)@ }),
    {
        self.complete = config;
        proof {
            lemma_same_frame(old(self)@, self@);
        }
    }

    pub fn set_pending_scroll(&mut self, s: Option<PendingScroll>)
        requires
            old(self).wf(),
        ensures
            final(self).wf(),
            final(self)@ == (World { pending_scroll: s, ..old(self)@ }),
    {
        self.pending_scroll = s;
        proof {
            lemma_same_frame(old(self)@, self@);
        }
    }

    /// Take the move of the view that the client is to show.
    pub fn take_pending_scroll(&mut self) -> (r: Option<PendingScroll>)
        requires
            old(self).wf(),
        ensures
            final(self).wf(),
            r == old(self)@.pending_scroll,
            final(self)@ == (World { pending_scroll: None, ..old(self)@ }),
    {
        let r = self.pending_scroll;
        self.set_pending_scroll(None);
        r
    }

    /// The mark of a name that reaches across buffers.
    pub fn global_mark(&self, name: char) -> (r: Option<MarkAt>)
        requires
            self.wf(),
        ensures
            r == if self@.marks.contains_key(name as u64) {
                Some(self@.marks[name as u64])
            } else {
                None
            },
    {
        match self.marks.get(name as u64) {
            Some(m) => Some(*m),
            None => None,
        }
    }

    pub fn set_global_mark(&mut self, name: char, at: MarkAt)
        requires
            old(self).wf(),
        ensures
            final(self).wf(),
            final(self)@ == (World {
                marks: old(self)@.marks.insert(name as u64, at),
                ..old(self)@
            }),
    {
        self.marks.insert(name as u64, at);
        proof {
            lemma_same_frame(old(self)@, self@);
        }
    }

    /// The size of the screen.
    pub fn size(&self) -> (r: (usize, usize))
        ensures
            r == (self@.width, self@.height),
    {
        (self.width, self.height)
    }

    /// The open panel.
    pub fn panel(&self) -> (r: Option<&Panel>)
        requires
            self.wf(),
        ensures
            match r {
                Some(p) => self@.panel == Some(p@) && p@.cursor <= last_entry(p@.lines),
                None => self@.panel is None,
            },
    {
        proof {
            reveal(consistent);
        }
        match &self.panel {
            Some(p) => Some(p),
            None => None,
        }
    }

    /// Put a panel in place of the open one, which is given back.
    pub fn swap_panel(&mut self, p: Option<Panel>) -> (r: Option<Panel>)
        requires
            old(self).wf(),
            p is Some ==> (p->0)@.cursor <= last_entry((p->0)@.lines),
        ensures
            final(self).wf(),
            panel_of(r) == old(self)@.panel,
            r is Some ==> (r->0)@.cursor <= last_entry((r->0)@.lines),
            final(self)@ == (World { panel: panel_of(p), ..old(self)@ }),
    {
        let mut q = p;
        core::mem::swap(&mut q, &mut self.panel);
        proof {
            reveal(consistent);
        }
        q
    }

    /// The panel that was last open.
    pub fn last_panel(&self) -> (r: Option<&Panel>)
        ensures
            match r {
                Some(p) => self@.last_panel == Some(p@),
                None => self@.last_panel is None,
            },
    {
        match &self.last_panel {
            Some(p) => Some(p),
            None => None,
        }
    }

    pub fn set_last_panel(&mut self, p: Option<Panel>)
        requires
            old(self).wf(),
        ensures
            final(self).wf(),
            final(self)@ == (World { last_panel: panel_of(p), ..old(self)@ }),
    {
        self.last_panel = p;
        proof {
            lemma_same_frame(old(self)@, self@);
        }
    }

    fn panel_rows(&self) -> (n: usize)
        requires
            self.wf(),
        ensures
            n == panel_rows(self@),
            n < self@.height,
    {
        proof {
            reveal(consistent);
        }
        match &self.panel {
            None => 0,
            Some(p) => if p.height < self.height - 1 {
                p.height + 1
            } else {
                self.height - 1
            },
        }
    }

    /// How many rows of the panel's lines show, and how many columns.
    pub fn panel_size(&self) -> (r: (usize, usize))
        requires
            self.wf(),
        ensures
            r.0 == less(panel_rows(self@), 1),
            r.1 == self@.width,
    {
        (self.panel_rows().saturating_sub(1), self.width)
    }

    /// Change the size of the screen; the windows are still to be laid out.
    pub(crate) fn set_size(&mut self, width: usize, height: usize)
        requires
            old(self).wf(),
            width >= 1,
            height >= 1,
        ensures
            final(self).wf(),
            final(self)@ == (World { width, height, ..old(self)@ }),
    {
        self.width = width;
        self.height = height;
        proof {
            reveal(consistent);
        }
    }

    /// The text area of the focused window.
    pub fn frame(&self) -> (f: Frame)
        requires
            self.wf(),
        ensures
            f == frame(self@),
    {
        proof {
            self.is_consistent();
        }
        let w = self.windows.cur();
        let lines: usize = self.desk.buffer().line_count();
        let inset: usize = border_of(w);
        Frame {
            height: rows_of_text(w),
            width: w.rect.width.saturating_sub(2 * inset).saturating_sub(
                number_width_for(w.options, lines),
            ),
            scrolloff: w.options.scrolloff,
            sidescroll: w.options.sidescroll,
            sidescrolloff: w.options.sidescrolloff,
            wrap: w.options.wrap,
        }
    }

    /// Move the view so that the cursor shows.
    pub fn ensure_visible(&mut self)
        requires
            old(self).wf(),
        ensures
            final(self).wf(),
            final(self)@ == seen(old(self)@),
    {
        proof {
            reveal(seen);
        }
        let f = self.frame();
        let top = self.top_by_rows(f);
        let d = self.desk_mut();
        d.ensure_visible(f);
        if let Some(top) = top {
            let mut live = d.live();
            live.top = top;
            d.set_live(live);
        }
    }

    /// The rows that the view goes by.
    fn rows_in_use(&self) -> (r: Option<&RowView>)
        requires
            self.wf(),
        ensures
            match r {
                Some(v) => rows_in_use(self@) == Some(v@) && v@.wf(),
                None => rows_in_use(self@) is None,
            },
    {
        match &self.rows {
            Some(v) => {
                let lines: usize = self.desk.buffer().line_count();
                if v.win == self.windows.current && v.map.lines.len() == lines
                    && self.desk.live().cursor.line < lines {
                    Some(v)
                } else {
                    None
                }
            },
            None => None,
        }
    }

    fn top_by_rows(&self, f: Frame) -> (r: Option<usize>)
        requires
            self.wf(),
        ensures
            match rows_in_use(self@) {
                Some(v) => r is Some && r->0 == v.rows.settled(
                    self@.live.top as int,
                    self@.live.cursor.line as int,
                    cursor_seg(self@, v),
                    f.scrolloff as nat,
                    f.height as nat,
                ),
                None => r is None,
            },
    {
        match self.rows_in_use() {
            Some(v) => {
                let live = self.desk.live();
                let seg: usize = v.cursor_wrap_seg(live.cursor.line, live.cursor.col);
                Some(v.map.visible_top(live.top, live.cursor.line, seg, f.scrolloff, f.height))
            },
            None => None,
        }
    }

    /// The last line that a scroll may bring to the top of the focused window.
    pub(crate) fn scroll_limit(&self) -> (n: usize)
        requires
            self.wf(),
        ensures
            n == scroll_limit(self@),
    {
        let f = self.frame();
        match self.rows_in_use() {
            Some(v) => v.map.max_scroll_top(f.scrolloff, f.height),
            None => self.desk.deepest_top(f),
        }
    }

    /// Move the view so that as much of the selection as possible shows.
    pub fn reveal_selection(&mut self)
        requires
            old(self).wf(),
        ensures
            final(self).wf(),
            final(self)@ == selection_seen(old(self)@),
    {
        let f = self.frame();
        let live = self.desk.live();
        let top = match self.rows_in_use() {
            Some(v) => {
                let line: usize = live.cursor.line;
                let seg: usize = v.cursor_wrap_seg(line, live.cursor.col);
                let start: usize = min_of(live.visual_anchor.line, line);
                Some(v.map.reveal_top(live.top, start, line, seg, f.height))
            },
            None => None,
        };
        let d = self.desk_mut();
        match top {
            Some(top) => {
                let mut to = live;
                to.top = top;
                d.set_live(to);
            },
            None => d.reveal_selection(f),
        }
    }

    /// The host tells the rows of the text in a window, or that none are known. Rows that
    /// can be those of no text are not taken.
    pub fn set_rows(&mut self, rows: Option<RowView>) -> (r: bool)
        requires
            old(self).wf(),
        ensures
            final(self).wf(),
            r == (rows matches Some(v) ==> v@.wf()),
            final(self)@ == if r {
                World { rows: sight_of_rows(rows), ..old(self)@ }
            } else {
                old(self)@
            },
    {
        if let Some(v) = &rows {
            if !v.is_wf() {
                return false;
            }
        }
        self.rows = rows;
        proof {
            lemma_same_frame(old(self)@, self@);
        }
        true
    }

    /// Lay the windows out anew.
    pub fn relayout(&mut self)
        requires
            old(self).wf(),
        ensures
            final(self).wf(),
            final(self)@ == relaid(old(self)@),
    {
        proof {
            self.is_consistent();
            reveal(relaid);
            layout_keeps_windows(self@.windows, total_area(self@), cursor_offset(self@));
            reveal(arranged);
        }
        let live = self.desk.live();
        let rows: usize = self.panel_rows();
        let off: (usize, usize) = (
            self.desk.column(live.cursor.col),
            live.cursor.line.saturating_sub(live.top),
        );
        let area = Rect { x: 0, y: 0, width: self.width, height: self.height - rows };
        self.windows.layout(area, off);
        proof {
            lemma_laid(old(self)@, self@);
        }
    }

    /// An editor on one buffer.
    pub fn with_buffer(buffer: Buffer) -> (e: Self)
        requires
            buffer.settled(),
        ensures
            e.wf(),
            e@ == relaid(fresh_world(opened(buffer@), e@.complete)),
            default_config(e@.complete),
    {
        let live = Live {
            mode: Mode::Normal,
            cursor: Cursor::default(),
            top: 0,
            leftcol: 0,
            desired_col: 0,
            desired_eol: false,
            preserve_desired: false,
            eol_request: false,
            pending: PendingCommand::default(),
            last_find: None,
            snapshot_taken: false,
            soft_tab: None,
            visual_anchor: Cursor::default(),
            scroll_from: None,
        };
        let ghost o = opened(buffer@);
        let mut e = Editor {
            desk: Desk::new(OpenBuffer::new(buffer), live, Registers::new()),
            others: IdMap::new(),
            next_buffer: 2,
            windows: WindowTree::with_one(BufferId(1)),
            alternate: None,
            line: CommandLine::new(),
            log: Log::new(),
            panel: None,
            last_panel: None,
            search: SearchState {
                last: None,
                operator: None,
                count: 1,
                active: false,
                origin: Cursor::default(),
                awaited: false,
            },
            options: Options::default(),
            width: 80,
            height: 24,
            pending_scroll: None,
            out: Outbox::new(),
            should_quit: false,
            marks: IdMap::new(),
            repeat: Repeat {
                recording: Vec::new(),
                last: Vec::new(),
                buf: BufferId(1),
                tick: 0,
                skip: false,
                replaying: false,
                queue: Vec::new(),
            },
            waiting: None,
            decor: Decor::new(),
            complete: CompleteConfig::default(),
            cwd: String::new(),
            rows: None,
        };
        let ghost c = e.complete;
        proof {
            assert(models(e.others@) =~= Map::<u64, OpenModel>::empty());
            assert(e@ == fresh_world(o, c));
            lemma_fresh(o, c);
        }
        e.relayout();
        proof {
            reveal(relaid);
        }
        e
    }

    /// An editor on an empty buffer.
    pub fn new() -> (e: Self)
        ensures
            e.wf(),
            e@ == relaid(fresh_world(opened(empty_buffer()), e@.complete)),
            default_config(e@.complete),
    {
        Editor::with_buffer(Buffer::empty())
    }
}

/// The focused window shows another buffer.
pub open spec fn bound_to(w: World, id: BufferId) -> World {
    World {
        windows: WindowsModel {
            windows: w.windows.windows.insert(
                w.windows.current.0,
                Window { buffer: id, ..w.win() },
            ),
            ..w.windows
        },
        ..w
    }
}

/// Another window has the focus.
pub open spec fn focus_on(w: World, id: WindowId) -> World {
    World { windows: WindowsModel { current: id, ..w.windows }, ..w }
}

/// A buffer opened.
pub open spec fn buffer_added(w: World, o: OpenModel) -> World {
    World {
        buffers: w.buffers.insert(w.next_buffer, o),
        next_buffer: (w.next_buffer + 1) as u64,
        ..w
    }
}

/// A buffer changed.
pub open spec fn with_open(w: World, id: BufferId, o: OpenModel) -> World {
    World { buffers: w.buffers.insert(id.0, o), ..w }
}

impl Editor {
    /// Bring another buffer to hand in place of the one that is.
    fn load(&mut self, from: u64, to: u64)
        requires
            old(self).desk.wf(),
            old(self).others.wf(),
            forall|k: u64| #[trigger]
                old(self).others@.contains_key(k) ==> old(self).others@[k].wf(),
            !old(self).others@.contains_key(from),
            from == to || old(self).others@.contains_key(to),
        ensures
            final(self).desk.wf(),
            final(self).others.wf(),
            forall|k: u64| #[trigger]
                final(self).others@.contains_key(k) ==> final(self).others@[k].wf(),
            !final(self).others@.contains_key(to),
            models(final(self).others@).insert(to, final(self).desk@.open) == models(
                old(self).others@,
            ).insert(from, old(self).desk@.open),
            final(self).desk@.live == old(self).desk@.live,
            final(self).desk@.regs == old(self).desk@.regs,
            *final(self) == (Editor {
                desk: final(self).desk,
                others: final(self).others,
                ..*old(self)
            }),
    {
        if from == to {
            return;
        }
        let taken = self.others.remove(to);
        match taken {
            Some(o) => {
                let out = self.desk.swap_open(o);
                self.others.insert(from, out);
                assert(models(self.others@).insert(to, self.desk@.open) =~= models(
                    old(self).others@,
                ).insert(from, old(self).desk@.open));
            },
            None => {},
        }
    }

    /// Let the focused window show another buffer.
    pub fn bind_current(&mut self, id: BufferId)
        requires
            old(self).wf(),
            old(self)@.buffers.contains_key(id.0),
        ensures
            final(self).wf(),
            final(self)@ == bound_to(old(self)@, id),
    {
        proof {
            self.is_consistent();
        }
        let from: u64 = self.windows.cur().buffer.0;
        self.load(from, id.0);
        let w = self.windows.cur_mut();
        w.buffer = id;
        proof {
            reveal(consistent);
            let t = old(self)@.windows;
            assert(self@.windows.windows.dom() =~= t.windows.dom());
            crate::wins::lemma_same_windows(t, self@.windows.windows);
            assert(self@.windows == WindowsModel { windows: self@.windows.windows, ..t });
        }
    }

    /// Give another window the focus.
    pub fn focus_on(&mut self, id: WindowId)
        requires
            old(self).wf(),
            old(self)@.windows.windows.contains_key(id.0),
        ensures
            final(self).wf(),
            final(self)@ == focus_on(old(self)@, id),
    {
        proof {
            self.is_consistent();
            reveal(consistent);
        }
        let from: u64 = self.windows.cur().buffer.0;
        let to: u64 = self.windows.get(id).buffer.0;
        self.load(from, to);
        self.windows.current = id;
        proof {
            crate::wins::lemma_same_focus(old(self)@.windows, id);
        }
    }

    /// Open a buffer. There is no number for it once all numbers were given out.
    pub fn add_buffer(&mut self, buffer: Buffer) -> (r: Option<BufferId>)
        requires
            old(self).wf(),
            buffer.settled(),
        ensures
            final(self).wf(),
            r == if old(self)@.next_buffer < u64::MAX {
                Some(BufferId(old(self)@.next_buffer))
            } else {
                None
            },
            final(self)@ == if old(self)@.next_buffer < u64::MAX {
                buffer_added(old(self)@, opened(buffer@))
            } else {
                old(self)@
            },
    {
        if self.next_buffer == u64::MAX {
            return None;
        }
        proof {
            self.is_consistent();
            reveal(consistent);
        }
        let id: u64 = self.next_buffer;
        let ghost o = opened(buffer@);
        assert(!self@.buffers.contains_key(id));
        self.others.insert(id, OpenBuffer::new(buffer));
        self.next_buffer = id + 1;
        proof {
            assert(self@.buffers =~= buffer_added(old(self)@, o).buffers);
            assert forall|k: u64| #[trigger] self@.windows.windows.contains_key(
                k,
            ) implies self@.buffers.contains_key(self@.windows.windows[k].buffer.0) by {
                assert(old(self)@.windows.windows.contains_key(k));
            }
            assert forall|k: u64| #[trigger] self@.buffers.contains_key(k) implies k
                < self@.next_buffer by {
                if k != id {
                    assert(old(self)@.buffers.contains_key(k));
                }
            }
        }
        Some(BufferId(id))
    }

    /// An open buffer.
    pub fn open_at(&self, id: BufferId) -> (r: Option<&OpenBuffer>)
        requires
            self.wf(),
        ensures
            match r {
                Some(o) => o.wf() && self@.buffers.contains_key(id.0) && o@ == self@.buffers[id.0],
                None => !self@.buffers.contains_key(id.0),
            },
    {
        proof {
            self.is_consistent();
        }
        if id == self.windows.cur().buffer {
            return Some(self.desk.open());
        }
        self.others.get(id.0)
    }

    /// Whether a buffer is open.
    pub fn buffer_is_valid(&self, id: BufferId) -> (b: bool)
        requires
            self.wf(),
        ensures
            b == self@.buffers.contains_key(id.0),
    {
        self.open_at(id).is_some()
    }

    /// An open buffer, to be changed.
    pub fn open_at_mut(&mut self, id: BufferId) -> (o: &mut OpenBuffer)
        requires
            old(self).wf(),
            old(self)@.buffers.contains_key(id.0),
        ensures
            o.wf(),
            o@ == old(self)@.buffers[id.0],
            final(o).wf() ==> final(self).wf(),
            final(self)@ == with_open(old(self)@, id, final(o)@),
    {
        let ghost w = self@;
        let ghost m = models(self.others@);
        let ghost all = self.others@;
        let ghost c = w.cur().0;
        proof {
            self.is_consistent();
            assert forall|o: OpenModel| #[trigger] m.insert(c, o) == w.buffers.insert(c, o) by {
                assert(m.insert(c, o) =~= w.buffers.insert(c, o));
            }
            assert forall|o: OpenModel| consistent(#[trigger] with_open(w, id, o)) by {
                assert(with_open(w, id, o).buffers.dom() =~= w.buffers.dom());
                lemma_same_frame(w, with_open(w, id, o));
            }
            assert forall|o: OpenBuffer| id.0 != c implies models(
                #[trigger] all.insert(id.0, o),
            ).insert(c, w.buffers[c]) == w.buffers.insert(id.0, o@) by {
                assert(models(all.insert(id.0, o)).insert(c, w.buffers[c]) =~= w.buffers.insert(
                    id.0,
                    o@,
                ));
            }
        }
        if id == self.windows.cur().buffer {
            self.desk.open_mut()
        } else {
            self.others.at_mut(id.0)
        }
    }

    /// The numbers of all open buffers, in order.
    pub fn buffer_ids(&self) -> (r: Vec<BufferId>)
        requires
            self.wf(),
        ensures
            r@ == numbered(ordered(self@.buffers.dom())),
    {
        proof {
            self.is_consistent();
            self.others.ids_are_keys();
        }
        let cur: u64 = self.windows.cur().buffer.0;
        let ghost ids = self.others.ids();
        let mut r: Vec<BufferId> = Vec::new();
        let ghost mut s: Seq<u64> = Seq::empty();
        let mut placed = false;
        let mut i: usize = 0;
        while i < self.others.len()
            invariant
                self.wf(),
                ids == self.others.ids(),
                ascending(ids),
                !ids.contains(cur),
                i <= ids.len(),
                r@ == numbered(s),
                ascending(s),
                placed ==> s.to_set() == ids.take(i as int).to_set().insert(cur),
                !placed ==> s == ids.take(i as int),
                placed ==> s.len() > 0,
                forall|k: int| 0 <= k < s.len() ==> #[trigger] s[k] < cur || placed,
                forall|k: int|
                    0 <= k < s.len() && i < ids.len() ==> #[trigger] s[k] < ids[i as int],
            decreases ids.len() - i,
        {
            let id: u64 = self.others.id_at(i);
            proof {
                assert(ids.contains(id));
                assert(ids.take(i + 1) =~= ids.take(i as int).push(id));
            }
            if !placed && cur < id {
                r.push(BufferId(cur));
                proof {
                    lemma_push_ascending(s, cur);
                    assert(r@ =~= numbered(s.push(cur)));
                    s = s.push(cur);
                }
                placed = true;
            }
            r.push(BufferId(id));
            proof {
                lemma_push_ascending(s, id);
                assert(r@ =~= numbered(s.push(id)));
                lemma_push_set(ids.take(i as int), id);
                s = s.push(id);
                if i + 1 < ids.len() {
                    assert(ids[i as int] < ids[i + 1]);
                }
                if placed {
                    assert(s.to_set() =~= ids.take(i + 1).to_set().insert(cur));
                }
                if !placed {
                    assert(id < cur) by {
                        assert(id != cur);
                    }
                }
            }
            i += 1;
        }
        if !placed {
            r.push(BufferId(cur));
            proof {
                lemma_push_ascending(s, cur);
                assert(r@ =~= numbered(s.push(cur)));
                s = s.push(cur);
            }
        }
        proof {
            assert(ids.take(i as int) =~= ids);
            assert(s.to_set() =~= self@.buffers.dom());
            lemma_ordered(s);
        }
        r
    }
}

/// Numbers as those of buffers.
pub open spec fn numbered(s: Seq<u64>) -> Seq<BufferId> {
    s.map_values(|k: u64| BufferId(k))
}

proof fn lemma_push_ascending(s: Seq<u64>, id: u64)
    requires
        ascending(s),
        forall|k: int| 0 <= k < s.len() ==> #[trigger] s[k] < id,
    ensures
        ascending(s.push(id)),
        s.push(id).to_set() == s.to_set().insert(id),
{
    lemma_push_set(s, id);
}

proof fn lemma_push_set(s: Seq<u64>, id: u64)
    ensures
        s.push(id).to_set() == s.to_set().insert(id),
{
    let p = s.push(id);
    assert forall|k: u64| p.to_set().contains(k) <==> s.to_set().insert(id).contains(k) by {
        if s.contains(k) {
            assert(p[s.index_of(k)] == k);
        }
        assert(p[s.len() as int] == id);
    }
    assert(p.to_set() =~= s.to_set().insert(id));
}

fn border_of(w: &Window) -> (n: usize)
    ensures
        n == inset(*w),
{
    match &w.float {
        Some(cfg) => if cfg.border == BorderStyle::Borderless {
            0
        } else {
            1
        },
        None => 0,
    }
}

/// How many rows of text a window shows.
pub fn rows_of_text(w: &Window) -> (n: usize)
    ensures
        n == text_rows(*w),
{
    let status: usize = if w.float.is_none() {
        1
    } else {
        0
    };
    let rows: usize = w.rect.height.saturating_sub(2 * border_of(w)).saturating_sub(status);
    if rows < 1 {
        1
    } else {
        rows
    }
}

/// An editor on one buffer is consistent.
proof fn lemma_fresh(o: OpenModel, c: CompleteConfig)
    ensures
        consistent(fresh_world(o, c)),
{
    reveal(consistent);
    reveal(arranged);
    let w = fresh_world(o, c);
    let t = w.windows;
    let id = WindowId(1);
    assert forall|x: WindowId| #[trigger]
        crate::splits::times_in(t.root, x) == crate::wins::once(crate::wins::is_tiled(t, x)) by {
        let s = crate::layout::leaves_of(t.root);
        assert(s =~= seq![id]);
        assert(s.drop_last() =~= Seq::<WindowId>::empty());
        assert(crate::splits::occurrences(s.drop_last(), x) == 0);
    }
    assert forall|x: WindowId| #[trigger]
        crate::splits::occurrences(t.floats, x) == crate::wins::once(
            crate::wins::is_float(t, x),
        ) by {}
}

/// Laying the windows out keeps a world consistent.
pub proof fn lemma_laid(a: World, b: World)
    requires
        consistent(a),
        b == relaid(a),
    ensures
        consistent(b),
        b.cur() == a.cur(),
        b.pane() == a.pane(),
        b.windows.windows.dom() == a.windows.windows.dom(),
{
    reveal(consistent);
    reveal(relaid);
    layout_keeps_windows(a.windows, total_area(a), cursor_offset(a));
    assert(a.windows.windows.contains_key(a.windows.current.0));
    assert forall|k: u64| #[trigger]
        b.windows.windows.contains_key(k) implies b.buffers.contains_key(
        b.windows.windows[k].buffer.0,
    ) by {
        assert(a.windows.windows.contains_key(k));
    }
}

} // verus!
