//! Keys: what each does, and how the last change is repeated.

use vstd::prelude::*;

use crate::batch::is_fixed;
use crate::command::clean_command;
use crate::editor::host::views_noted;
use crate::editor::normal::{normal_keyed, refusal};
use crate::editor::panels::panel_key;
use crate::editor::prompts::line_keyed;
use crate::editor::searches::{key_begun, key_ended};
use crate::editor::{Editor, RepeatModel, World};
use crate::input::{Key, KeyCode};
use crate::mode::{typing, Mode};
use crate::typing::typed_key;

verus! {

/// What a key does while text is typed. Where the text may not be changed, the key is refused
/// unless it ends the typing.
pub open spec fn typing_keyed(w: World, key: Key) -> World {
    if is_fixed(w.buffers[w.cur().0].buffer) && !(key.code is Esc) {
        w.said(refusal())
    } else {
        w.with_pane(typed_key(w.pane(), key))
    }
}

/// What a key does in the mode that the editor is in.
#[verifier::opaque]
pub open spec fn mode_keyed(w: World, key: Key) -> World {
    if typing(w.live.mode) {
        typing_keyed(w, key)
    } else if w.live.mode == Mode::Command {
        line_keyed(w, key)
    } else {
        normal_keyed(w, key)
    }
}

/// What a key does. An open panel takes every key.
#[verifier::opaque]
pub open spec fn key_done(w: World, key: Key) -> World {
    if w.panel is Some {
        panel_key(w, key)
    } else {
        key_ended(mode_keyed(key_begun(w), key))
    }
}

/// Nothing is under way.
pub open spec fn at_rest(w: World) -> bool {
    w.live.mode == Mode::Normal && w.live.pending == clean_command() && !w.search.awaited
}

/// A key added to those of the command under way.
#[verifier::opaque]
pub open spec fn record_begun(w: World, key: Key) -> World {
    if w.repeat.replaying {
        w
    } else {
        let first = w.repeat.recording.len() == 0;
        World {
            repeat: RepeatModel {
                buf: if first {
                    w.cur()
                } else {
                    w.repeat.buf
                },
                tick: if first {
                    w.buffers[w.cur().0].buffer.changedtick
                } else {
                    w.repeat.tick
                },
                recording: w.repeat.recording.push(key),
                ..w.repeat
            },
            ..w
        }
    }
}

/// The command under way has changed the text.
pub open spec fn text_changed(w: World) -> bool {
    w.repeat.buf == w.cur() && w.repeat.tick != w.buffers[w.cur().0].buffer.changedtick
}

/// Once nothing is under way, the keys of a command that changed the text are those that
/// are repeated, unless it is one that is not to be repeated.
#[verifier::opaque]
pub open spec fn record_settled(w: World) -> World {
    if w.repeat.replaying || !at_rest(w) {
        w
    } else {
        World {
            repeat: RepeatModel {
                last: if w.repeat.recording.len() > 0 && text_changed(w) && !w.repeat.skip {
                    w.repeat.recording
                } else {
                    w.repeat.last
                },
                recording: Seq::empty(),
                skip: false,
                ..w.repeat
            },
            ..w
        }
    }
}

/// The first `n` keys done.
pub open spec fn keys_done(w: World, keys: Seq<Key>, n: int) -> World
    decreases n,
{
    if n <= 0 {
        w
    } else {
        key_done(keys_done(w, keys, n - 1), keys[n - 1])
    }
}

/// The keys that wait to be repeated done.
#[verifier::opaque]
pub open spec fn queue_done(w: World) -> World {
    let keys = w.repeat.queue;
    let a = World {
        repeat: RepeatModel { replaying: true, queue: Seq::empty(), ..w.repeat },
        ..w
    };
    let b = keys_done(a, keys, keys.len() as int);
    World {
        repeat: RepeatModel { replaying: false, queue: Seq::empty(), ..b.repeat },
        ..b
    }
}

/// A key taken: what it does, and then what it repeats. The windows that have to be
/// decorated anew are found.
pub open spec fn input_done(w: World, key: Key) -> World {
    let a = record_settled(key_done(record_begun(w, key), key));
    views_noted(
        if a.repeat.queue.len() > 0 {
            queue_done(a)
        } else {
            a
        },
    )
}

impl Editor {
    fn handle_typing(&mut self, key: Key)
        requires
            old(self).wf(),
        ensures
            final(self).wf(),
            final(self)@ == typing_keyed(old(self)@, key),
    {
        if key.code != KeyCode::Esc && !self.modifiable() {
            self.refuse();
            return;
        }
        let d = self.desk_mut();
        d.handle_insert(key);
    }

    fn key_in_mode(&mut self, key: Key)
        requires
            old(self).wf(),
        ensures
            final(self).wf(),
            final(self)@ == mode_keyed(old(self)@, key),
    {
        proof {
            reveal(mode_keyed);
        }
        match self.desk().live().mode {
            Mode::Insert | Mode::Replace => self.handle_typing(key),
            Mode::Command => self.handle_command(key),
            _ => self.handle_normal(key),
        }
    }

    fn one_key(&mut self, key: Key)
        requires
            old(self).wf(),
        ensures
            final(self).wf(),
            final(self)@ == key_done(old(self)@, key),
    {
        proof {
            reveal(key_done);
        }
        if self.panel_is_open() {
            self.handle_panel(key);
            return;
        }
        self.begin_key();
        self.key_in_mode(key);
        self.end_key();
    }

    fn begin_record(&mut self, key: Key)
        requires
            old(self).wf(),
        ensures
            final(self).wf(),
            final(self)@ == record_begun(old(self)@, key),
    {
        proof {
            reveal(record_begun);
        }
        if self.repeat().replaying {
            return;
        }
        let buf = self.current_buffer_id();
        let tick: u64 = self.desk().buffer().changedtick;
        let r = self.repeat_mut();
        if r.recording.len() == 0 {
            r.buf = buf;
            r.tick = tick;
        }
        r.recording.push(key);
    }

    /// Keep the keys of the last command that changed the text.
    pub(crate) fn settle_record(&mut self)
        requires
            old(self).wf(),
        ensures
            final(self).wf(),
            final(self)@ == record_settled(old(self)@),
    {
        proof {
            reveal(record_settled);
        }
        let live = self.desk().live();
        if self.repeat().replaying || live.mode != Mode::Normal || !live.pending.is_clean()
            || self.search().awaited {
            return;
        }
        let buf = self.current_buffer_id();
        let tick: u64 = self.desk().buffer().changedtick;
        let r = self.repeat_mut();
        let mut keys: Vec<Key> = Vec::new();
        core::mem::swap(&mut keys, &mut r.recording);
        if keys.len() > 0 && r.buf == buf && r.tick != tick && !r.skip {
            r.last = keys;
        }
        r.skip = false;
    }

    fn drain_queue(&mut self)
        requires
            old(self).wf(),
        ensures
            final(self).wf(),
            final(self)@ == queue_done(old(self)@),
    {
        proof {
            reveal(queue_done);
        }
        let r = self.repeat_mut();
        let mut keys: Vec<Key> = Vec::new();
        core::mem::swap(&mut keys, &mut r.queue);
        r.replaying = true;
        let ghost a = self@;
        let mut i: usize = 0;
        while i < keys.len()
            invariant
                self.wf(),
                i <= keys@.len(),
                self@ == keys_done(a, keys@, i as int),
            decreases keys@.len() - i,
        {
            self.one_key(keys[i]);
            i += 1;
        }
        let r = self.repeat_mut();
        r.replaying = false;
        r.queue = Vec::new();
    }

    /// Take a key.
    pub fn input(&mut self, key: Key)
        requires
            old(self).wf(),
        ensures
            final(self).wf(),
            final(self)@ == input_done(old(self)@, key),
    {
        self.begin_record(key);
        self.one_key(key);
        self.settle_record();
        if self.repeat().queue.len() > 0 {
            self.drain_queue();
        }
        self.recompute_decor_dirty();
    }
}

} // verus!
