//! What comes with a file that is opened: its encoding, its marks, a picture, a listing.

use vstd::prelude::*;
use vstd::utf8::*;

use crate::buffer::{
    empty_buffer, lemma_normalized, mark_key, normalized, opt_chars, removed, tick, Buffer,
    BufferKind, BufferModel, FileStat,
};
use crate::decor::DecorModel;
use crate::editor::files::{file_asked, found_by_path, loaded_into};
use crate::editor::host::{read_of, reloaded};
use crate::editor::normal::tab_asked;
use crate::editor::panels::panel_opened;
use crate::editor::{buffer_added, with_open, Editor, World};
use crate::open::{opened, OpenBuffer, OpenModel};
use crate::options::BufferOptions;
use crate::panel::new_panel;
use crate::pending::{OutModel, TabRequest};
use crate::points::Point;
use crate::strings::texts;
use crate::window::BufferId;

verus! {

/// A text with the encoding that it was read from.
pub open spec fn encoded_as(o: OpenModel, label: Seq<char>, bomb: bool) -> OpenModel {
    OpenModel {
        buffer: BufferModel {
            fileencoding: label,
            options: BufferOptions { bomb, ..o.buffer.options },
            ..o.buffer
        },
        ..o
    }
}

/// A buffer that shows the picture at a path, whose text is empty.
#[verifier::opaque]
pub open spec fn picture_shown(
    o: OpenModel,
    path: Seq<char>,
    stat: Option<FileStat>,
) -> OpenModel {
    let b = normalized(removed(o.buffer, 0, o.buffer.text.len() as int));
    OpenModel {
        buffer: BufferModel {
            kind: BufferKind::Image,
            path: Some(path),
            disk: stat,
            modified: false,
            image_gen: tick(b.image_gen),
            ..b
        },
        ..o
    }
}

/// Marks with the first `n` of those that were kept added; a mark that is set stays.
pub open spec fn marks_seeded(
    m: Map<u64, Point>,
    kept: Seq<(char, Point)>,
    n: int,
) -> Map<u64, Point>
    decreases n,
{
    if n <= 0 {
        m
    } else {
        let r = marks_seeded(m, kept, n - 1);
        let key = mark_key(kept[n - 1].0);
        if r.contains_key(key) {
            r
        } else {
            r.insert(key, kept[n - 1].1)
        }
    }
}

/// A buffer with the marks and the changes that were kept for its file. A change list that
/// has begun stays.
pub open spec fn seeded(
    o: OpenModel,
    marks: Seq<(char, Point)>,
    changes: Seq<Point>,
) -> OpenModel {
    let b = o.buffer;
    let fresh = b.changelist.len() == 0 && changes.len() > 0;
    OpenModel {
        buffer: BufferModel {
            marks: marks_seeded(b.marks, marks, marks.len() as int),
            changelist: if fresh {
                changes
            } else {
                b.changelist
            },
            changelistidx: if fresh {
                changes.len() as usize
            } else {
                b.changelistidx
            },
            ..b
        },
        ..o
    }
}

impl OpenBuffer {
    fn show_picture(&mut self, path: String, stat: Option<FileStat>)
        requires
            old(self).wf(),
        ensures
            final(self).wf(),
            final(self)@ == picture_shown(old(self)@, path@, stat),
    {
        let len: usize = self.buffer.len_bytes();
        proof {
            is_char_boundary_start_end_of_seq(self.buffer@.text);
        }
        self.buffer.remove(0, len);
        proof {
            lemma_normalized(self.buffer@);
            reveal(picture_shown);
        }
        self.buffer.normalize();
        self.buffer.kind = BufferKind::Image;
        self.buffer.path = Some(path);
        self.buffer.disk = stat;
        self.buffer.modified = false;
        self.buffer.image_gen = self.buffer.image_gen.wrapping_add(1);
    }

    fn seed(&mut self, marks: &Vec<(char, Point)>, changes: Vec<Point>)
        requires
            old(self).wf(),
        ensures
            final(self).wf(),
            final(self)@ == seeded(old(self)@, marks@, changes@),
    {
        if self.buffer.changelist.len() == 0 && changes.len() > 0 {
            self.buffer.changelistidx = changes.len();
            self.buffer.changelist = changes;
        }
        let ghost was = self@;
        let ghost m = old(self)@.buffer.marks;
        let mut i: usize = 0;
        while i < marks.len()
            invariant
                i <= marks@.len(),
                self.wf(),
                was.buffer.marks == m,
                self@ == (OpenModel {
                    buffer: BufferModel {
                        marks: marks_seeded(m, marks@, i as int),
                        ..was.buffer
                    },
                    ..was
                }),
            decreases marks@.len() - i,
        {
            let key: u64 = marks[i].0 as u64;
            if !self.buffer.marks.contains(key) {
                self.buffer.marks.insert(key, marks[i].1);
            }
            i += 1;
        }
    }
}

impl Editor {
    /// Put what was read in a buffer, with the label of its encoding and whether it began
    /// with a byte order mark. Nothing happens where the buffer has been closed.
    pub fn load_bytes_into(
        &mut self,
        id: BufferId,
        name: Option<String>,
        contents: &str,
        label: String,
        bomb: bool,
    )
        requires
            old(self).wf(),
        ensures
            final(self).wf(),
            final(self)@ == if old(self)@.buffers.contains_key(id.0) {
                let o = encoded_as(old(self)@.buffers[id.0], label@, bomb);
                loaded_into(with_open(old(self)@, id, o), id, opt_chars(name), contents@)
            } else {
                old(self)@
            },
    {
        if !self.buffer_is_valid(id) {
            return;
        }
        let o = self.open_at_mut(id);
        o.buffer.fileencoding = label;
        o.buffer.options.bomb = bomb;
        self.load_str_into(id, name, contents);
    }

    /// The buffer of a path, with what the host read where it is not open yet. It does not
    /// become current.
    pub fn ensure_buffer_loaded(&mut self, path: &str, read: Result<Buffer, String>) -> (r: Option<
        BufferId,
    >)
        requires
            old(self).wf(),
            read is Ok ==> read->Ok_0.settled(),
        ensures
            final(self).wf(),
            match found_by_path(old(self)@, path@) {
                Some(id) => r == Some(id) && final(self)@ == old(self)@,
                None => match read_of(read) {
                    Ok(b) => if old(self)@.next_buffer < u64::MAX {
                        &&& r == Some(BufferId(old(self)@.next_buffer))
                        &&& final(self)@ == buffer_added(old(self)@, opened(b))
                    } else {
                        r is None && final(self)@ == old(self)@
                    },
                    Err(e) => r is None && final(self)@ == old(self)@.said(e),
                },
            },
    {
        if let Some(id) = self.find_buffer_by_path(path) {
            return Some(id);
        }
        match read {
            Ok(b) => self.add_buffer(b),
            Err(e) => {
                self.echo(e);
                None
            },
        }
    }

    /// Ask for the file of a buffer. Where pictures are shown, one is not read: its buffer is
    /// bound to it, and what the host knows of the file is noted. `image` says whether the
    /// path is that of a picture.
    pub fn enqueue_open(
        &mut self,
        id: BufferId,
        path: String,
        image: bool,
        stat: Option<FileStat>,
    )
        requires
            old(self).wf(),
        ensures
            final(self).wf(),
            final(self)@ == if !(old(self)@.options.imagepreview && image) {
                file_asked(old(self)@, id, path@)
            } else if old(self)@.buffers.contains_key(id.0) {
                with_open(
                    old(self)@,
                    id,
                    picture_shown(old(self)@.buffers[id.0], path@, stat),
                )
            } else {
                old(self)@
            },
    {
        if !(self.global_options().imagepreview && image) {
            let o = self.outbox_mut();
            o.push_open(id, path);
        } else if self.buffer_is_valid(id) {
            let o = self.open_at_mut(id);
            o.show_picture(path, stat);
        }
    }

    /// Show the current buffer as a picture, where pictures are shown now, its path is that of
    /// one, and it is not shown yet.
    pub fn reconcile_image_preview(&mut self, image: bool, stat: Option<FileStat>)
        requires
            old(self).wf(),
        ensures
            final(self).wf(),
            ({
                let w = old(self)@;
                let b = w.buffers[w.cur().0].buffer;
                final(self)@ == if w.options.imagepreview && image && !(b.kind is Image)
                    && b.path is Some {
                    reloaded(
                        w,
                        w.cur(),
                        BufferModel {
                            path: b.path,
                            kind: BufferKind::Image,
                            disk: stat,
                            ..empty_buffer()
                        },
                    )
                } else {
                    w
                }
            }),
    {
        proof {
            self.is_consistent();
        }
        if !self.global_options().imagepreview || !image || self.desk().buffer().is_image() {
            return;
        }
        let path = match &self.desk().buffer().path {
            Some(p) => p.clone(),
            None => {
                return;
            },
        };
        let id = self.current_buffer_id();
        self.reload_buffer(id, Ok(Buffer::from_image_file(path, stat)));
    }

    /// Ask for a new tab page that shows an open buffer.
    pub fn open_buffer_in_tab(&mut self, buf: BufferId)
        requires
            old(self).wf(),
        ensures
            final(self).wf(),
            final(self)@ == if old(self)@.buffers.contains_key(buf.0) {
                tab_asked(old(self)@, TabRequest::Open(buf))
            } else {
                old(self)@
            },
    {
        if self.buffer_is_valid(buf) {
            self.ask_tab(TabRequest::Open(buf));
        }
    }

    /// Ask for a new tab page that shows the buffer of a path, with the cursor at a line and
    /// a column. The buffer is opened where it is not open yet, and its file asked for.
    pub fn jump_to_tab(&mut self, path: &str, line: usize, col: usize)
        requires
            old(self).wf(),
        ensures
            final(self).wf(),
            ({
                let w = old(self)@;
                let b = BufferModel { path: Some(path@), ..empty_buffer() };
                final(self)@ == match found_by_path(w, path@) {
                    Some(id) => tab_asked(w, TabRequest::OpenAt(id, line, col)),
                    None => if w.next_buffer < u64::MAX {
                        let id = BufferId(w.next_buffer);
                        tab_asked(
                            file_asked(buffer_added(w, opened(b)), id, path@),
                            TabRequest::OpenAt(id, line, col),
                        )
                    } else {
                        w
                    },
                }
            }),
    {
        if let Some(id) = self.enqueue_replica_open(path) {
            self.ask_tab(TabRequest::OpenAt(id, line, col));
        }
    }

    /// Give a buffer the marks and the changes that were kept for its file.
    pub fn seed_pending_file_marks(
        &mut self,
        id: BufferId,
        marks: &Vec<(char, Point)>,
        changes: Vec<Point>,
    )
        requires
            old(self).wf(),
        ensures
            final(self).wf(),
            final(self)@ == if old(self)@.buffers.contains_key(id.0) {
                with_open(
                    old(self)@,
                    id,
                    seeded(old(self)@.buffers[id.0], marks@, changes@),
                )
            } else {
                old(self)@
            },
    {
        if self.buffer_is_valid(id) {
            let o = self.open_at_mut(id);
            o.seed(marks, changes);
        }
    }

    /// The buffers that were read anew in place.
    pub fn take_loaded_in_place(&mut self) -> (v: Vec<BufferId>)
        requires
            old(self).wf(),
        ensures
            final(self).wf(),
            v@ == old(self)@.out.loaded,
            final(self)@ == (World {
                out: OutModel { loaded: Seq::empty(), ..old(self)@.out },
                ..old(self)@
            }),
    {
        let mut v: Vec<BufferId> = Vec::new();
        let o = self.outbox_mut();
        core::mem::swap(&mut v, &mut o.loaded);
        v
    }

    /// Open a list to be read in the panel, on a line.
    pub fn open_scratch_listing(&mut self, name: String, lines: Vec<String>, cursor: usize)
        requires
            old(self).wf(),
        ensures
            final(self).wf(),
            final(self)@ == panel_opened(
                old(self)@,
                new_panel(name@, texts(lines@), false, cursor as int),
            ),
    {
        self.open_panel(name, lines, false, cursor);
    }

    /// Open a list of the buffers in the panel, on a line. The line that is chosen is
    /// reported.
    pub fn open_buffer_listing(&mut self, lines: Vec<String>, cursor: usize)
        requires
            old(self).wf(),
        ensures
            final(self).wf(),
            final(self)@ == panel_opened(
                old(self)@,
                new_panel("Buffers"@, texts(lines@), true, cursor as int),
            ),
    {
        self.open_panel("Buffers".to_owned(), lines, true, cursor);
    }

    /// Note that the marks of a name space come and go with the view.
    pub fn mark_extmark_namespace_ephemeral(&mut self, ns: u32)
        requires
            old(self).wf(),
        ensures
            final(self).wf(),
            final(self)@ == (World {
                decor: DecorModel {
                    ephemeral: old(self)@.decor.ephemeral.insert(ns as u64, true),
                    ..old(self)@.decor
                },
                ..old(self)@
            }),
    {
        let d = self.decor_mut();
        d.mark_extmark_namespace_ephemeral(ns);
    }
}

/// Marks that were set stay where they are when those of an earlier session come.
pub proof fn set_marks_stay(m: Map<u64, Point>, kept: Seq<(char, Point)>, n: int, key: u64)
    requires
        0 <= n <= kept.len(),
        m.contains_key(key),
    ensures
        marks_seeded(m, kept, n).contains_key(key),
        marks_seeded(m, kept, n)[key] == m[key],
    decreases n,
{
    if n > 0 {
        set_marks_stay(m, kept, n - 1, key);
    }
}

/// Every mark that was kept is set afterwards.
pub proof fn kept_marks_are_set(m: Map<u64, Point>, kept: Seq<(char, Point)>, n: int, i: int)
    requires
        0 <= i < n <= kept.len(),
    ensures
        marks_seeded(m, kept, n).contains_key(mark_key(kept[i].0)),
    decreases n,
{
    if i < n - 1 {
        kept_marks_are_set(m, kept, n - 1, i);
    }
}

} // verus!
