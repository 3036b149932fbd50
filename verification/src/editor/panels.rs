//! The panel of the editor.

use vstd::prelude::*;

use crate::buffer::opt_chars;
use crate::changes::change_table;
use crate::editor::buffers::{buffer_rows, current_row, documents};
use crate::editor::files::jumped;
use crate::editor::{panel_rows, relaid, seen, Editor, World};
use crate::input::Key;
use crate::num::{least, less};
use crate::panel::{
    entry_at, in_view, last_entry, new_panel, panel_ask, panel_keyed, places, Panel, PanelAsk,
    PanelModel, PanelStep, PanelView, Target,
};
use crate::pending::OutModel;
use crate::strings::texts;

verus! {

/// How many rows of the panel's lines show.
pub open spec fn panel_height(w: World) -> int {
    less(panel_rows(w), 1)
}

/// The panel scrolled so that the chosen line shows.
pub open spec fn panel_shown(w: World) -> World {
    match w.panel {
        Some(p) => World {
            panel: Some(in_view(p, panel_height(w), w.width as int)),
            ..w
        },
        None => w,
    }
}

/// A panel opened in place of the open one, which can be reopened.
pub open spec fn panel_opened(w: World, p: PanelModel) -> World {
    panel_shown(
        seen(
            relaid(
                World {
                    panel: Some(p),
                    last_panel: if w.panel is Some {
                        w.panel
                    } else {
                        w.last_panel
                    },
                    ..w
                },
            ),
        ),
    )
}

/// The panel closed; it can be reopened.
pub open spec fn panel_closed(w: World) -> World {
    seen(
        relaid(
            World {
                panel: None,
                last_panel: if w.panel is Some {
                    w.panel
                } else {
                    w.last_panel
                },
                ..w
            },
        ),
    )
}

/// A panel that was closed, held to the lines it has.
pub open spec fn revived(p: PanelModel) -> PanelModel {
    PanelModel {
        cursor: least(p.cursor, last_entry(p.lines)),
        top: least(p.top, last_entry(p.lines)),
        gpending: false,
        ..p
    }
}

/// The panel that was last open, open again.
pub open spec fn panel_reopened(w: World) -> World {
    match w.last_panel {
        Some(p) => panel_shown(seen(relaid(World { panel: Some(revived(p)), ..w }))),
        None => w,
    }
}

/// The open panel replaced by what it becomes.
pub open spec fn with_panel(w: World, p: PanelModel) -> World {
    World { panel: Some(p), ..w }
}

/// A key while the panel is open.
#[verifier::opaque]
pub open spec fn panel_key(w0: World, key: Key) -> World {
    let w = w0.hushed();
    match w.panel {
        None => w,
        Some(p) => {
            let h = panel_height(w);
            let a = with_panel(w, panel_keyed(p, key, h, w.width as int));
            match panel_ask(p, key) {
                PanelAsk::Stay => a,
                PanelAsk::Close => panel_closed(a),
                PanelAsk::Jump(t) => jumped(panel_closed(a), t.path, t.line, t.col),
                PanelAsk::Select(i, s) => World {
                    out: OutModel {
                        panel_selects: a.out.panel_selects.push((i as usize, s)),
                        ..a.out
                    },
                    ..a
                },
            }
        },
    }
}

/// The list of the buffers shown.
pub open spec fn buffers_shown(w: World) -> World {
    let s = documents(w);
    let a = panel_opened(
        w,
        new_panel(
            "Buffers"@,
            buffer_rows(w, s, s.len() as int),
            false,
            current_row(w),
        ),
    );
    World {
        out: OutModel {
            lua_queue: a.out.lua_queue.push("vim.panel.on_select(vim._panel_select_buffer)"@),
            ..a.out
        },
        ..a
    }
}

/// The messages shown, from the newest.
pub open spec fn messages_shown(w: World) -> World {
    panel_opened(
        w,
        new_panel("Messages"@, w.log.messages, false, last_entry(w.log.messages)),
    )
}

/// The changes of the current buffer shown.
pub open spec fn changes_shown(w: World) -> World {
    panel_opened(
        w,
        new_panel("[Changes]"@, change_table(w.buffers[w.cur().0].buffer), false, 0),
    )
}

impl Editor {
    fn scroll_panel_into_view(&mut self)
        requires
            old(self).wf(),
        ensures
            final(self).wf(),
            final(self)@ == panel_shown(old(self)@),
    {
        let (h, width) = self.panel_size();
        if let Some(p) = self.swap_panel(None) {
            let mut p = p;
            p.scroll_into_view(h, width);
            let _none = self.swap_panel(Some(p));
        }
    }

    fn put_panel(&mut self, p: Panel)
        requires
            old(self).wf(),
            p@.cursor <= last_entry(p@.lines),
        ensures
            final(self).wf(),
            final(self)@ == panel_shown(
                seen(relaid(World { panel: Some(p@), ..old(self)@ })),
            ),
    {
        let _was = self.swap_panel(Some(p));
        self.relayout();
        self.ensure_visible();
        self.scroll_panel_into_view();
    }

    /// Remember the open panel as the one to be reopened, and take it away.
    fn retire_panel(&mut self)
        requires
            old(self).wf(),
        ensures
            final(self).wf(),
            final(self)@ == (World {
                panel: None,
                last_panel: if old(self)@.panel is Some {
                    old(self)@.panel
                } else {
                    old(self)@.last_panel
                },
                ..old(self)@
            }),
    {
        if let Some(p) = self.swap_panel(None) {
            self.set_last_panel(Some(p));
        }
    }

    /// Open a panel, on a line.
    pub fn open_panel(
        &mut self,
        title: String,
        lines: Vec<String>,
        wants_select: bool,
        cursor: usize,
    )
        requires
            old(self).wf(),
        ensures
            final(self).wf(),
            final(self)@ == panel_opened(
                old(self)@,
                new_panel(title@, texts(lines@), wants_select, cursor as int),
            ),
    {
        let p = Panel::new(title, lines, wants_select, cursor);
        self.retire_panel();
        self.put_panel(p);
    }

    /// Close the panel.
    pub fn close_panel(&mut self)
        requires
            old(self).wf(),
        ensures
            final(self).wf(),
            final(self)@ == panel_closed(old(self)@),
    {
        self.retire_panel();
        self.relayout();
        self.ensure_visible();
    }

    /// Reopen the panel that was last open. The result says whether there was one.
    pub fn reopen_last_panel(&mut self) -> (r: bool)
        requires
            old(self).wf(),
        ensures
            final(self).wf(),
            final(self)@ == panel_reopened(old(self)@),
            r == old(self)@.last_panel is Some,
    {
        let mut p = match self.last_panel() {
            Some(p) => p.copy(),
            None => {
                return false;
            },
        };
        p.revive();
        self.put_panel(p);
        true
    }

    pub fn panel_is_open(&self) -> (b: bool)
        requires
            self.wf(),
        ensures
            b == self@.panel is Some,
    {
        self.panel().is_some()
    }

    /// The title of the open panel.
    pub fn panel_title(&self) -> (r: Option<String>)
        requires
            self.wf(),
        ensures
            opt_chars(r) == match self@.panel {
                Some(p) => Some(p.title),
                None => None,
            },
    {
        match self.panel() {
            Some(p) => Some(p.title.clone()),
            None => None,
        }
    }

    /// Give the lines of the open panel places to jump to.
    pub fn set_panel_targets(&mut self, targets: Vec<Option<Target>>)
        requires
            old(self).wf(),
        ensures
            final(self).wf(),
            final(self)@ == match old(self)@.panel {
                Some(p) => with_panel(
                    old(self)@,
                    PanelModel { targets: places(targets@), ..p },
                ),
                None => old(self)@,
            },
    {
        if let Some(p) = self.swap_panel(None) {
            let mut p = p;
            p.set_targets(targets);
            let _none = self.swap_panel(Some(p));
        }
    }

    /// Say whether the enter key reports the chosen line of the open panel.
    pub fn set_panel_on_select(&mut self, wants: bool)
        requires
            old(self).wf(),
        ensures
            final(self).wf(),
            final(self)@ == match old(self)@.panel {
                Some(p) => with_panel(old(self)@, PanelModel { wants_select: wants, ..p }),
                None => old(self)@,
            },
    {
        if let Some(p) = self.swap_panel(None) {
            let mut p = p;
            p.set_on_select(wants);
            let _none = self.swap_panel(Some(p));
        }
    }

    /// Choose a line of the open panel.
    pub fn set_panel_cursor(&mut self, index: usize)
        requires
            old(self).wf(),
        ensures
            final(self).wf(),
            final(self)@ == match old(self)@.panel {
                Some(p) => panel_shown(
                    with_panel(
                        old(self)@,
                        PanelModel { cursor: least(index as int, last_entry(p.lines)), ..p },
                    ),
                ),
                None => old(self)@,
            },
    {
        let (h, width) = self.panel_size();
        if let Some(p) = self.swap_panel(None) {
            let mut p = p;
            p.set_cursor(index, h, width);
            let _none = self.swap_panel(Some(p));
        }
    }

    /// Choose the line of the open panel that is shown in a row.
    pub fn set_panel_cursor_by_row(&mut self, row: usize)
        requires
            old(self).wf(),
        ensures
            final(self).wf(),
            final(self)@ == match old(self)@.panel {
                Some(p) => panel_shown(
                    with_panel(
                        old(self)@,
                        PanelModel {
                            cursor: entry_at(
                                p.lines,
                                p.top,
                                0,
                                row as int,
                                panel_height(old(self)@),
                                old(self)@.width as int,
                                least(p.top, last_entry(p.lines)),
                            ),
                            ..p
                        },
                    ),
                ),
                None => old(self)@,
            },
    {
        let (h, width) = self.panel_size();
        if let Some(p) = self.swap_panel(None) {
            let mut p = p;
            proof {
                lemma_entry_fits(
                    p@.lines,
                    p@.top,
                    0,
                    row as int,
                    h as int,
                    width as int,
                    least(p@.top, last_entry(p@.lines)),
                );
            }
            p.set_cursor_by_row(row, h, width);
            let _none = self.swap_panel(Some(p));
        }
    }

    /// Replace the lines of the open panel.
    pub fn set_panel_lines(&mut self, lines: Vec<String>)
        requires
            old(self).wf(),
        ensures
            final(self).wf(),
            final(self)@ == match old(self)@.panel {
                Some(p) => panel_shown(
                    with_panel(
                        old(self)@,
                        PanelModel {
                            lines: texts(lines@),
                            cursor: least(p.cursor, last_entry(texts(lines@))),
                            top: least(p.top, last_entry(texts(lines@))),
                            targets: Seq::empty(),
                            ..p
                        },
                    ),
                ),
                None => old(self)@,
            },
    {
        let (h, width) = self.panel_size();
        if let Some(p) = self.swap_panel(None) {
            let mut p = p;
            p.set_lines(lines, h, width);
            let _none = self.swap_panel(Some(p));
        }
    }

    /// What is to be drawn of the open panel.
    pub fn panel_view(&self) -> (r: Option<PanelView>)
        requires
            self.wf(),
        ensures
            r is Some == self@.panel is Some,
            r is Some ==> crate::panel::drawn(
                self@.panel->0,
                r->0,
                panel_height(self@),
                self@.width as int,
            ),
    {
        let (h, width) = self.panel_size();
        match self.panel() {
            Some(p) => Some(p.view_rows(h, width)),
            None => None,
        }
    }

    /// Take a key while the panel is open.
    pub fn handle_panel(&mut self, key: Key)
        requires
            old(self).wf(),
        ensures
            final(self).wf(),
            final(self)@ == panel_key(old(self)@, key),
    {
        proof {
            reveal(panel_key);
        }
        self.hush();
        let (h, width) = self.panel_size();
        let ghost w = self@;
        let mut p = match self.swap_panel(None) {
            Some(p) => p,
            None => {
                return;
            },
        };
        let step = p.handle_panel(key, h, width);
        let _none = self.swap_panel(Some(p));
        match step {
            PanelStep::Stay => {},
            PanelStep::Close => self.close_panel(),
            PanelStep::Jump(t) => {
                self.close_panel();
                self.jump_to(t.path.as_str(), t.line, t.col);
            },
            PanelStep::Select(i, s) => {
                let o = self.outbox_mut();
                o.push_select(i, s);
            },
        }
    }

    /// `:buffers`: show the list of the buffers.
    pub fn ex_buffers(&mut self)
        requires
            old(self).wf(),
        ensures
            final(self).wf(),
            final(self)@ == buffers_shown(old(self)@),
    {
        let (lines, row) = self.buffer_lines();
        self.open_panel("Buffers".to_owned(), lines, false, row);
        let o = self.outbox_mut();
        o.push_lua("vim.panel.on_select(vim._panel_select_buffer)".to_owned());
    }

    /// `:messages`: show the messages.
    pub fn ex_messages(&mut self)
        requires
            old(self).wf(),
        ensures
            final(self).wf(),
            final(self)@ == messages_shown(old(self)@),
    {
        let lines = crate::cmdline::copy_strings(&self.log().messages);
        let n: usize = lines.len();
        assert(texts(lines@).len() == lines@.len());
        self.open_panel("Messages".to_owned(), lines, false, n.saturating_sub(1));
    }

    /// `:changes`: show the changes of the current buffer.
    pub fn ex_changes(&mut self)
        requires
            old(self).wf(),
        ensures
            final(self).wf(),
            final(self)@ == changes_shown(old(self)@),
    {
        let lines = self.desk().buffer().change_lines();
        self.open_panel("[Changes]".to_owned(), lines, false, 0);
    }
}

proof fn lemma_entry_fits(
    lines: Seq<Seq<char>>,
    i: int,
    display: int,
    row: int,
    height: int,
    width: int,
    found: int,
)
    requires
        found <= last_entry(lines),
    ensures
        entry_at(lines, i, display, row, height, width, found) <= last_entry(lines),
    decreases lines.len() - i,
{
    if display < height && 0 <= i < lines.len() {
        let span = crate::wrap::rows_of(lines[i], width).len();
        if row >= display + span {
            lemma_entry_fits(lines, i + 1, display + span, row, height, width, i);
        }
    }
}

} // verus!
