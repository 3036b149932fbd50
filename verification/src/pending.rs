//! What the host is asked to do.

use vstd::prelude::*;

use crate::cmdcomplete::{CmdlineCompleteReq, ReqModel};
use crate::command::NamedOperator;
use crate::search::{SearchDir, SearchOffset};
use crate::strings::texts;
use crate::window::BufferId;

verus! {

/// A write that the host is to do. The text is that of the moment when it was asked for.
pub struct PendingSave {
    /// The number of the request.
    pub seq: u64,
    pub buffer: BufferId,
    pub path: String,
    /// What is to be written, with the line ends of the file and not yet encoded.
    pub text: String,
    pub lines: usize,
    /// Quit once the write is done, by force where the flag says so.
    pub then_quit: Option<bool>,
}

/// A quit that waits for writes.
pub struct PendingQuitAll {
    /// Quit by force.
    pub bang: bool,
    /// The numbers of the writes.
    pub seqs: Vec<u64>,
}

/// A file that the host is to read into a buffer.
pub struct PendingOpen {
    pub buffer: BufferId,
    pub path: String,
}

/// How the file of a buffer changed.
#[derive(Debug, Clone, Copy, PartialEq, Eq, Structural)]
pub enum FileChangeReason {
    /// The file is gone.
    Deleted,
    /// The file changed, and so did the buffer.
    Conflict,
    /// The file changed, and the buffer did not.
    Changed,
}

/// What is to be done about a file that changed.
#[derive(Debug, Clone, Copy, PartialEq, Eq, Structural)]
pub enum FileChangeAction {
    /// Nothing: the file is as it was.
    Nothing,
    /// The buffer is read anew.
    Reloaded,
    /// The host decides.
    Autocmd(FileChangeReason),
}

/// The name of a reason.
pub open spec fn reason_name(r: FileChangeReason) -> Seq<char> {
    match r {
        FileChangeReason::Deleted => "deleted"@,
        FileChangeReason::Conflict => "conflict"@,
        FileChangeReason::Changed => "changed"@,
    }
}

impl FileChangeReason {
    /// The name of the reason.
    pub fn as_str(self) -> (s: &'static str)
        ensures
            s@ == reason_name(self),
    {
        match self {
            FileChangeReason::Deleted => "deleted",
            FileChangeReason::Conflict => "conflict",
            FileChangeReason::Changed => "changed",
        }
    }
}

/// What a search is for.
#[derive(Debug, Clone, Copy, PartialEq, Eq, Structural)]
pub enum SearchUse {
    /// To go to a match, or to apply an operator up to it.
    Go { count: usize, op: Option<NamedOperator> },
    /// To show where it would go while it is typed.
    Show,
}

/// A pattern that the host is to look for in the lines of the current buffer.
pub struct SearchRequest {
    pub pattern: String,
    pub ignorecase: bool,
    pub dir: SearchDir,
    pub offset: SearchOffset,
    pub purpose: SearchUse,
}

/// What the host is to do with the tab pages.
#[derive(Debug, Clone, Copy, PartialEq, Eq, Structural)]
pub enum TabRequest {
    Next(Option<usize>),
    Prev(Option<usize>),
    /// Move the focused window to a tab page of its own.
    NewFromWindow,
    /// Show a buffer in a new tab page.
    Open(BufferId),
    /// Show a buffer in a new tab page, with the cursor at a line and a column.
    OpenAt(BufferId, usize, usize),
}

/// What a [`PendingSave`] says.
pub ghost struct SaveModel {
    pub seq: u64,
    pub buffer: BufferId,
    pub path: Seq<char>,
    pub text: Seq<char>,
    pub lines: usize,
    pub then_quit: Option<bool>,
}

/// What a [`PendingQuitAll`] says.
pub ghost struct QuitModel {
    pub bang: bool,
    pub seqs: Seq<u64>,
}

/// What a [`PendingOpen`] says.
pub ghost struct OpenAsk {
    pub buffer: BufferId,
    pub path: Seq<char>,
}

/// What a [`SearchRequest`] says.
pub ghost struct SearchAsk {
    pub pattern: Seq<char>,
    pub ignorecase: bool,
    pub dir: SearchDir,
    pub offset: SearchOffset,
    pub purpose: SearchUse,
}

impl View for PendingSave {
    type V = SaveModel;

    open spec fn view(&self) -> SaveModel {
        SaveModel {
            seq: self.seq,
            buffer: self.buffer,
            path: self.path@,
            text: self.text@,
            lines: self.lines,
            then_quit: self.then_quit,
        }
    }
}

impl View for PendingQuitAll {
    type V = QuitModel;

    open spec fn view(&self) -> QuitModel {
        QuitModel { bang: self.bang, seqs: self.seqs@ }
    }
}

impl View for PendingOpen {
    type V = OpenAsk;

    open spec fn view(&self) -> OpenAsk {
        OpenAsk { buffer: self.buffer, path: self.path@ }
    }
}

impl View for SearchRequest {
    type V = SearchAsk;

    open spec fn view(&self) -> SearchAsk {
        SearchAsk {
            pattern: self.pattern@,
            ignorecase: self.ignorecase,
            dir: self.dir,
            offset: self.offset,
            purpose: self.purpose,
        }
    }
}

/// A step through the menu of the command line.
#[derive(Debug, Clone, Copy, PartialEq, Eq, Structural)]
pub enum MenuMove {
    Next,
    Prev,
}

/// What waits for the host.
pub struct Outbox {
    /// The answers to prompts; nothing for one that was cancelled.
    pub prompt_results: Vec<Option<String>>,
    /// The lines chosen in a panel.
    pub panel_selects: Vec<(usize, String)>,
    /// Scripts to run.
    pub lua_queue: Vec<String>,
    /// Commands that are not known here.
    pub deferred_commands: Vec<String>,
    /// How long to wait, in milliseconds.
    pub sleep: Option<u64>,
    pub saves: Vec<PendingSave>,
    /// The number of the next write.
    pub next_save: u64,
    pub quit_all: Option<PendingQuitAll>,
    pub opens: Vec<PendingOpen>,
    /// Buffers whose files are to be looked at.
    pub checktime: Vec<BufferId>,
    pub searches: Vec<SearchRequest>,
    pub tabs: Vec<TabRequest>,
    /// Buffers that were written, and where to.
    pub written: Vec<(BufferId, String)>,
    /// The word of the command line that is to be completed, as last asked for.
    pub completion: Option<CmdlineCompleteReq>,
    /// The word of a prompt that is to be completed, as last asked for.
    pub prompt_completion: Option<CmdlineCompleteReq>,
    /// Buffers that were read anew in place.
    pub loaded: Vec<BufferId>,
    /// Steps through the menu of the command line.
    pub menu_moves: Vec<MenuMove>,
    /// All highlights are to be cleared.
    pub clear_highlights: bool,
}

/// What an [`Outbox`] holds.
pub ghost struct OutModel {
    pub prompt_results: Seq<Option<Seq<char>>>,
    pub panel_selects: Seq<(usize, Seq<char>)>,
    pub lua_queue: Seq<Seq<char>>,
    pub deferred_commands: Seq<Seq<char>>,
    pub sleep: Option<u64>,
    pub saves: Seq<SaveModel>,
    pub next_save: u64,
    pub quit_all: Option<QuitModel>,
    pub opens: Seq<OpenAsk>,
    pub checktime: Seq<BufferId>,
    pub searches: Seq<SearchAsk>,
    pub tabs: Seq<TabRequest>,
    pub written: Seq<(BufferId, Seq<char>)>,
    pub completion: Option<ReqModel>,
    pub prompt_completion: Option<ReqModel>,
    pub loaded: Seq<BufferId>,
    pub menu_moves: Seq<MenuMove>,
    pub clear_highlights: bool,
}

pub open spec fn answers(v: Seq<Option<String>>) -> Seq<Option<Seq<char>>> {
    v.map_values(|s: Option<String>| crate::buffer::opt_chars(s))
}

pub open spec fn chosen(v: Seq<(usize, String)>) -> Seq<(usize, Seq<char>)> {
    v.map_values(|p: (usize, String)| (p.0, p.1@))
}

pub open spec fn saves_of(v: Seq<PendingSave>) -> Seq<SaveModel> {
    v.map_values(|s: PendingSave| s@)
}

pub open spec fn opens_of(v: Seq<PendingOpen>) -> Seq<OpenAsk> {
    v.map_values(|o: PendingOpen| o@)
}

pub open spec fn asks_of(v: Seq<SearchRequest>) -> Seq<SearchAsk> {
    v.map_values(|s: SearchRequest| s@)
}

pub open spec fn written_of(v: Seq<(BufferId, String)>) -> Seq<(BufferId, Seq<char>)> {
    v.map_values(|p: (BufferId, String)| (p.0, p.1@))
}

pub open spec fn req_of(r: Option<CmdlineCompleteReq>) -> Option<ReqModel> {
    match r {
        Some(r) => Some(r@),
        None => None,
    }
}

impl View for Outbox {
    type V = OutModel;

    open spec fn view(&self) -> OutModel {
        OutModel {
            prompt_results: answers(self.prompt_results@),
            panel_selects: chosen(self.panel_selects@),
            lua_queue: texts(self.lua_queue@),
            deferred_commands: texts(self.deferred_commands@),
            sleep: self.sleep,
            saves: saves_of(self.saves@),
            next_save: self.next_save,
            quit_all: match self.quit_all {
                Some(q) => Some(q@),
                None => None,
            },
            opens: opens_of(self.opens@),
            checktime: self.checktime@,
            searches: asks_of(self.searches@),
            tabs: self.tabs@,
            written: written_of(self.written@),
            completion: req_of(self.completion),
            prompt_completion: req_of(self.prompt_completion),
            loaded: self.loaded@,
            menu_moves: self.menu_moves@,
            clear_highlights: self.clear_highlights,
        }
    }
}

/// Nothing waits.
pub open spec fn empty_outbox() -> OutModel {
    OutModel {
        prompt_results: Seq::empty(),
        panel_selects: Seq::empty(),
        lua_queue: Seq::empty(),
        deferred_commands: Seq::empty(),
        sleep: None,
        saves: Seq::empty(),
        next_save: 1,
        quit_all: None,
        opens: Seq::empty(),
        checktime: Seq::empty(),
        searches: Seq::empty(),
        tabs: Seq::empty(),
        written: Seq::empty(),
        completion: None,
        prompt_completion: None,
        loaded: Seq::empty(),
        menu_moves: Seq::empty(),
        clear_highlights: false,
    }
}

/// Whether a buffer waits for its file.
pub open spec fn awaited(o: OutModel, id: BufferId) -> bool {
    exists|i: int| 0 <= i < o.opens.len() && (#[trigger] o.opens[i]).buffer == id
}

impl Outbox {
    pub fn new() -> (o: Self)
        ensures
            o@ == empty_outbox(),
    {
        let o = Outbox {
            prompt_results: Vec::new(),
            panel_selects: Vec::new(),
            lua_queue: Vec::new(),
            deferred_commands: Vec::new(),
            sleep: None,
            saves: Vec::new(),
            next_save: 1,
            quit_all: None,
            opens: Vec::new(),
            checktime: Vec::new(),
            searches: Vec::new(),
            tabs: Vec::new(),
            written: Vec::new(),
            completion: None,
            prompt_completion: None,
            loaded: Vec::new(),
            menu_moves: Vec::new(),
            clear_highlights: false,
        };
        assert(o@.prompt_results =~= Seq::<Option<Seq<char>>>::empty());
        assert(o@.panel_selects =~= Seq::<(usize, Seq<char>)>::empty());
        assert(o@.lua_queue =~= Seq::<Seq<char>>::empty());
        assert(o@.deferred_commands =~= Seq::<Seq<char>>::empty());
        assert(o@.saves =~= Seq::<SaveModel>::empty());
        assert(o@.opens =~= Seq::<OpenAsk>::empty());
        assert(o@.searches =~= Seq::<SearchAsk>::empty());
        assert(o@.written =~= Seq::<(BufferId, Seq<char>)>::empty());
        o
    }

    pub fn push_answer(&mut self, s: Option<String>)
        ensures
            final(self)@ == (OutModel {
                prompt_results: old(self)@.prompt_results.push(crate::buffer::opt_chars(s)),
                ..old(self)@
            }),
    {
        let ghost c = crate::buffer::opt_chars(s);
        self.prompt_results.push(s);
        assert(self@.prompt_results =~= old(self)@.prompt_results.push(c));
    }

    pub fn push_select(&mut self, i: usize, s: String)
        ensures
            final(self)@ == (OutModel {
                panel_selects: old(self)@.panel_selects.push((i, s@)),
                ..old(self)@
            }),
    {
        let ghost c = s@;
        self.panel_selects.push((i, s));
        assert(self@.panel_selects =~= old(self)@.panel_selects.push((i, c)));
    }

    pub fn push_lua(&mut self, s: String)
        ensures
            final(self)@ == (OutModel {
                lua_queue: old(self)@.lua_queue.push(s@),
                ..old(self)@
            }),
    {
        let ghost c = s@;
        self.lua_queue.push(s);
        assert(self@.lua_queue =~= old(self)@.lua_queue.push(c));
    }

    pub fn defer_command(&mut self, s: String)
        ensures
            final(self)@ == (OutModel {
                deferred_commands: old(self)@.deferred_commands.push(s@),
                ..old(self)@
            }),
    {
        let ghost c = s@;
        self.deferred_commands.push(s);
        assert(self@.deferred_commands =~= old(self)@.deferred_commands.push(c));
    }

    /// Ask for a write under a number of its own.
    pub fn push_save(
        &mut self,
        buffer: BufferId,
        path: String,
        text: String,
        lines: usize,
        then_quit: Option<bool>,
    ) -> (seq: u64)
        ensures
            seq == old(self)@.next_save,
            final(self)@ == save_asked(
                old(self)@,
                SaveModel { seq, buffer, path: path@, text: text@, lines, then_quit },
            ),
    {
        let seq: u64 = self.next_save;
        let s = PendingSave { seq, buffer, path, text, lines, then_quit };
        let ghost m = s@;
        self.saves.push(s);
        self.next_save = seq.wrapping_add(1);
        assert(self@.saves =~= old(self)@.saves.push(m));
        seq
    }

    pub fn push_open(&mut self, buffer: BufferId, path: String)
        ensures
            final(self)@ == open_asked(old(self)@, OpenAsk { buffer, path: path@ }),
    {
        let o = PendingOpen { buffer, path };
        let ghost m = o@;
        self.opens.push(o);
        assert(self@.opens =~= old(self)@.opens.push(m));
    }

    pub fn push_search(&mut self, s: SearchRequest)
        ensures
            final(self)@ == (OutModel {
                searches: old(self)@.searches.push(s@),
                ..old(self)@
            }),
    {
        let ghost m = s@;
        self.searches.push(s);
        assert(self@.searches =~= old(self)@.searches.push(m));
    }

    pub fn push_written(&mut self, buffer: BufferId, path: String)
        ensures
            final(self)@ == (OutModel {
                written: old(self)@.written.push((buffer, path@)),
                ..old(self)@
            }),
    {
        let ghost c = path@;
        self.written.push((buffer, path));
        assert(self@.written =~= old(self)@.written.push((buffer, c)));
    }

    /// A word is to be completed, of a prompt or of a command, in place of what was asked for
    /// before.
    pub fn ask_completion(&mut self, r: CmdlineCompleteReq, prompt: bool)
        ensures
            final(self)@ == word_asked(old(self)@, r@, prompt),
    {
        if prompt {
            self.prompt_completion = Some(r);
        } else {
            self.completion = Some(r);
        }
    }

    /// Whether a buffer waits for its file.
    pub fn has_pending_open(&self, id: BufferId) -> (b: bool)
        ensures
            b == awaited(self@, id),
    {
        let mut i: usize = 0;
        while i < self.opens.len()
            invariant
                i <= self.opens@.len(),
                forall|j: int| 0 <= j < i ==> (#[trigger] self@.opens[j]).buffer != id,
            decreases self.opens@.len() - i,
        {
            assert(self@.opens[i as int] == self.opens@[i as int]@);
            if self.opens[i].buffer == id {
                return true;
            }
            i += 1;
        }
        false
    }
}

/// A write asked for.
pub open spec fn save_asked(o: OutModel, s: SaveModel) -> OutModel {
    OutModel {
        saves: o.saves.push(s),
        next_save: crate::buffer::tick(o.next_save),
        ..o
    }
}

/// The completion of a word asked for, of a prompt or of a command. What was asked for before
/// is superseded.
pub open spec fn word_asked(o: OutModel, r: ReqModel, prompt: bool) -> OutModel {
    if prompt {
        OutModel { prompt_completion: Some(r), ..o }
    } else {
        OutModel { completion: Some(r), ..o }
    }
}

/// A file asked for.
pub open spec fn open_asked(o: OutModel, a: OpenAsk) -> OutModel {
    OutModel { opens: o.opens.push(a), ..o }
}

} // verus!
