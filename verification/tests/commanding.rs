use nxvim_core::buffer::{Buffer, FileStat};
use nxvim_core::cmdline::{CmdlineCompleteConfig, CmdlineKind, CommandLine, LineEdit};
use nxvim_core::decor::DecorScope;
use nxvim_core::editor::Editor;
use nxvim_core::editor::files::written_message;
use nxvim_core::editor::host::format_register_line;
use nxvim_core::input::{Key, KeyCode};
use nxvim_core::layout::{SplitDir, WinDir, WindowId};
use nxvim_core::log::Log;
use nxvim_core::mode::Mode;
use nxvim_core::panel::{Panel, PanelStep, Target};
use nxvim_core::pending::{FileChangeAction, FileChangeReason, SearchUse, TabRequest};
use nxvim_core::search::SearchDir;
use nxvim_core::searching::Hits;
use nxvim_core::window::{BufferId, FloatConfig};

fn read(path: &str, text: &str, mtime: u64) -> Buffer {
    Buffer::from_file(
        path.to_string(),
        Some((text.to_string(), "utf-8".to_string(), false)),
        Some(FileStat { mtime: Some(mtime), size: 1 }),
    )
}

fn editor(text: &str) -> Editor {
    let mut e = Editor::with_buffer(read("/t/a.txt", text, 1));
    e.resize(80, 24);
    e
}

fn keys(e: &mut Editor, s: &str) {
    for c in s.chars() {
        e.input(match c {
            '\n' => Key::new(KeyCode::Enter),
            '\u{1b}' => Key::new(KeyCode::Esc),
            '\u{8}' => Key::new(KeyCode::Backspace),
            '\u{17}' => Key::ctrl('w'),
            c => Key::char(c),
        });
    }
}

fn message(e: &Editor) -> &str {
    &e.log().message
}

fn chars(s: &str) -> String {
    s.to_string()
}

/// Where a word stands in each line of the buffer.
fn hits(e: &Editor, word: &str) -> Hits {
    Hits {
        lines: e
            .lines()
            .iter()
            .map(|l| l.match_indices(word).map(|(i, m)| (i, i + m.len())).collect())
            .collect(),
    }
}

fn serve(e: &mut Editor) {
    for req in e.take_searches() {
        let h = hits(e, &req.pattern);
        assert!(e.hits_fit(&h));
        e.finish_search(&req, Ok(&h));
    }
}

fn spot(e: &Editor) -> (usize, usize) {
    (e.live().cursor.line, e.live().cursor.col)
}

#[test]
fn a_line_is_edited() {
    let mut l = CommandLine::new();
    l.open(CmdlineKind::Ex, Mode::Normal);
    assert!(l.is_empty());
    l.insert_str("abd");
    l.edit(LineEdit::Left);
    l.insert('c');
    assert_eq!(l.text(), "abcd");
    l.edit(LineEdit::Backspace);
    assert_eq!((l.text(), l.cmdline_cursor()), (chars("abd"), 2));
    l.edit(LineEdit::Delete);
    l.edit(LineEdit::ToStart);
    l.edit(LineEdit::Left);
    l.insert(':');
    l.edit(LineEdit::ToEnd);
    assert_eq!((l.text(), l.cmdline_cursor()), (chars(":ab"), 3));
    assert_eq!(l.cmdline_prefix(), ':');
    assert_eq!(l.cmdline_prompt(), "");
    assert_eq!(l.cmdline_prompt_width(), 1);
}

#[test]
fn history_is_walked_and_left() {
    let mut l = CommandLine::new();
    l.remember_ex("one");
    l.remember_ex("two");
    l.remember_ex("two");
    l.remember_ex("");
    l.open(CmdlineKind::Ex, Mode::Normal);
    l.edit(LineEdit::HistoryPrev);
    assert_eq!(l.text(), "two");
    l.edit(LineEdit::HistoryPrev);
    l.edit(LineEdit::HistoryPrev);
    assert_eq!(l.text(), "one");
    l.edit(LineEdit::HistoryNext);
    l.edit(LineEdit::HistoryNext);
    assert_eq!(l.text(), "");
    assert_eq!(l.last_command(), Some(chars("two")));
    l.remember_search("pat");
    l.open(CmdlineKind::Search(SearchDir::Backward), Mode::Normal);
    l.edit(LineEdit::HistoryPrev);
    assert_eq!(l.text(), "pat");
    assert_eq!(l.cmdline_prefix(), '?');
}

#[test]
fn previews_leave_what_was_typed() {
    let mut l = CommandLine::new();
    l.open(CmdlineKind::Ex, Mode::Normal);
    l.configure_complete(false);
    l.insert_str("set nu");
    assert_eq!(l.cmdline_complete_token(), Some(4));
    let req = l.cmdline_complete_trigger(false).unwrap();
    assert_eq!((req.line.as_str(), req.prefix.as_str(), req.anchor), ("set nu", "nu", 4));
    l.cmdline_complete_preview(Some((4, 6, "number")));
    assert_eq!(l.text(), "set number");
    l.cmdline_complete_preview(Some((4, 6, "relativenumber")));
    assert_eq!(l.text(), "set relativenumber");
    l.cmdline_complete_revert();
    assert_eq!(l.text(), "set nu");
    assert!(l.cmdline_complete_accept(Some((4, 6, "number"))));
    assert_eq!((l.text(), l.cmdline_cursor()), (chars("set number"), 10));
    assert!(!l.cmdline_complete_accept(None));
}

#[test]
fn prompts_and_questions_are_answered() {
    let mut e = editor("x\n");
    e.open_prompt(chars("Name: "), chars("bo"), Some(chars("names")), false, false);
    assert_eq!(e.cmdline_type(), "@");
    assert_eq!(e.line().cmdline_prompt(), "Name: ");
    keys(&mut e, "b\n");
    assert_eq!(e.outbox_mut().prompt_results, vec![Some(chars("bob"))]);
    assert_eq!(e.live().mode, Mode::Normal);
    e.outbox_mut().prompt_results.clear();
    e.open_prompt(chars("Name: "), chars(""), Some(chars("names")), false, false);
    e.line_mut().edit(LineEdit::HistoryPrev);
    assert_eq!(e.line().text(), "bob");
    keys(&mut e, "\u{1b}");
    assert_eq!(e.outbox().prompt_results, vec![None]);
    e.outbox_mut().prompt_results.clear();
    e.open_confirm(chars("Sure?"), vec![chars("y"), chars("n")], 1);
    assert!(e.cmdline_reads_raw());
    keys(&mut e, "zn");
    assert_eq!(e.outbox().prompt_results, vec![Some(chars("2"))]);
    e.outbox_mut().prompt_results.clear();
    e.open_confirm(chars("Sure?"), vec![chars("y"), chars("n")], 1);
    keys(&mut e, "\n");
    assert_eq!(e.outbox().prompt_results, vec![Some(chars("1"))]);
    e.outbox_mut().prompt_results.clear();
    e.open_confirm(chars("Sure?"), vec![chars("y"), chars("n")], 1);
    keys(&mut e, "\u{1b}");
    assert_eq!(e.outbox().prompt_results, vec![Some(chars("0"))]);
    let none = CmdlineCompleteConfig { enabled: false, docs: false };
    assert_eq!(e.line().completion().1, none);
}

#[test]
fn actions_on_the_line_have_names() {
    let mut e = editor("x\n");
    e.enter_command();
    assert_eq!(e.cmdline_type(), ":");
    keys(&mut e, "abc");
    assert_eq!(e.apply_cmdline_action("backspace"), Ok(()));
    assert_eq!(e.line().text(), "ab");
    assert!(e.apply_cmdline_action("jump").is_err());
    e.cancel_cmdline();
    assert_eq!(e.live().mode, Mode::Normal);
    // Backspace on an empty line leaves it.
    keys(&mut e, ":\u{8}");
    assert_eq!(e.live().mode, Mode::Normal);
}

#[test]
fn searches_go_ahead_and_back() {
    let mut e = editor("foo bar\nbar foo\nbaz\n");
    keys(&mut e, "/foo\n");
    serve(&mut e);
    assert_eq!(spot(&e), (1, 4));
    keys(&mut e, "n");
    serve(&mut e);
    assert_eq!(spot(&e), (0, 0));
    assert_eq!(message(&e), "search hit BOTTOM, continuing at TOP");
    keys(&mut e, "N");
    serve(&mut e);
    assert_eq!(spot(&e), (1, 4));
    assert_eq!(message(&e), "search hit TOP, continuing at BOTTOM");
    keys(&mut e, "/nothing\n");
    serve(&mut e);
    assert_eq!(message(&e), "E486: Pattern not found: nothing");
    assert_eq!(spot(&e), (1, 4));
    keys(&mut e, "gg/bar/e\n");
    serve(&mut e);
    assert_eq!(spot(&e), (0, 6));
    keys(&mut e, "gg*");
    let reqs = e.take_searches();
    assert_eq!(reqs.len(), 1);
    assert_eq!(reqs[0].pattern, "\\bfoo\\b");
    assert_eq!(reqs[0].purpose, SearchUse::Go { count: 1, op: None });
    e.finish_search(&reqs[0], Err(chars("E383: bad pattern")));
    assert_eq!(message(&e), "E383: bad pattern");
}

#[test]
fn a_counted_search_that_wrapped_says_so() {
    let mut e = editor("x\nfoo\nfoo\n");
    keys(&mut e, "G");
    keys(&mut e, "2/foo\n");
    serve(&mut e);
    assert_eq!(spot(&e), (2, 0));
    assert_eq!(message(&e), "search hit BOTTOM, continuing at TOP");
}

#[test]
fn searches_serve_operators_and_previews() {
    let mut e = editor("foo bar baz\n");
    keys(&mut e, "d/baz\n");
    serve(&mut e);
    assert_eq!(e.lines(), vec!["baz"]);
    let mut e = editor("foo bar baz\n");
    keys(&mut e, "/ba");
    let reqs = e.take_searches();
    let last = reqs.last().unwrap();
    assert_eq!(last.purpose, SearchUse::Show);
    let h = hits(&e, "ba");
    e.finish_search(last, Ok(&h));
    assert_eq!(spot(&e), (0, 4));
    keys(&mut e, "\u{1b}");
    assert_eq!(spot(&e), (0, 0));
    assert_eq!(e.register_text(Some('/')).map(|r| r.text), None);
    let mut e = editor("foo\n");
    keys(&mut e, "n");
    assert_eq!(message(&e), "E35: No previous regular expression");
}

#[test]
fn highlights_are_those_of_the_shown_lines() {
    let e = editor("foo bar\nbar\nfoo foo\n");
    let h = hits(&e, "foo");
    let (all, current) =
        e.buffer().search_highlights_in(&h, e.live().cursor, false, 0, 3);
    assert_eq!(all, vec![vec![(0, 3)], vec![], vec![(0, 3), (4, 7)]]);
    assert_eq!(current.len(), 3);
    let bad = Hits { lines: vec![vec![(2, 1)]] };
    assert!(!e.hits_fit(&bad));
}

#[test]
fn numbers_and_settings_from_the_line() {
    let mut e = editor("a\nb\nc\n");
    keys(&mut e, ":3\n");
    assert_eq!(spot(&e), (2, 0));
    keys(&mut e, ":99\n");
    assert_eq!(spot(&e), (2, 0));
    e.command("set nu ts=4");
    assert!(e.windows().cur().options.number);
    e.command("set ts?");
    assert_eq!(message(&e), "tabstop=4");
    e.command("set bogus");
    assert_eq!(message(&e), "E518: Unknown option: bogus");
    e.command("hi clear");
    assert!(e.outbox().clear_highlights);
    assert!(e.outbox().deferred_commands.is_empty());
    e.command("frobnicate now");
    assert_eq!(e.outbox().deferred_commands, vec!["frobnicate now"]);
    e.command("sleep 20m");
    assert_eq!(e.take_sleep(), Some(20));
    assert_eq!(e.take_sleep(), None);
    e.command("lua f()");
    assert_eq!(e.outbox().lua_queue, vec!["f()"]);
    assert_eq!(e.register_text(Some(':')).map(|r| r.text), Some(chars("99")));
}

#[test]
fn writes_wait_for_their_outcome() {
    let mut e = editor("a\r\nb\r\n");
    keys(&mut e, "xw");
    e.command("w");
    let saves = e.take_pending_saves();
    assert_eq!(saves.len(), 1);
    let s = &saves[0];
    assert_eq!((s.path.as_str(), s.text.as_str(), s.lines), ("/t/a.txt", "\r\nb\r\n", 2));
    assert_eq!(s.then_quit, None);
    assert!(e.buffer().modified);
    let id = s.buffer;
    e.finalize_save(id, s.path.clone(), Some(FileStat { mtime: Some(9), size: 5 }));
    assert!(!e.buffer().modified);
    assert_eq!(e.take_write_events(), vec![(id, chars("/t/a.txt"))]);
    assert!(!e.has_write_events());
    assert_eq!(written_message("a", 2, 5), "\"a\" 2L, 5B written");
    e.command("wq");
    assert_eq!(e.take_pending_saves()[0].then_quit, Some(false));
    assert!(!e.should_quit());
}

#[test]
fn changes_are_not_thrown_away() {
    let mut e = editor("a\n");
    keys(&mut e, "x");
    e.command("q");
    assert!(!e.should_quit());
    assert_eq!(message(&e), "E37: No write since last change (add ! to override)");
    e.command("e /t/b.txt");
    assert!(e.buffer().path.as_deref() == Some("/t/b.txt"));
    e.command("qa");
    assert!(!e.should_quit());
    assert_eq!(
        message(&e),
        "E37: No write since last change for buffer 1 (add ! to override)"
    );
    e.command("bd 1");
    assert!(e.buffer_is_valid(BufferId(1)));
    e.command("bd! 1");
    assert!(!e.buffer_is_valid(BufferId(1)));
    e.command("qa");
    assert!(e.should_quit());
    let mut e = editor("a\n");
    keys(&mut e, "x");
    e.command("q!");
    assert!(e.should_quit());
}

#[test]
fn files_are_opened_and_read() {
    let mut e = editor("a\n");
    e.command("e /t/b.txt");
    let opens = e.take_pending_opens();
    assert_eq!(opens.len(), 1);
    assert_eq!(opens[0].path, "/t/b.txt");
    e.load_pending_open(&opens[0], Ok(read("/t/b.txt", "one\ntwo\n", 1)));
    assert_eq!(e.lines(), vec!["one", "two"]);
    assert_eq!(e.find_buffer_by_path("/t/./b.txt"), Some(opens[0].buffer));
    e.command("e /t/a.txt");
    assert_eq!(e.current_buffer_id(), BufferId(1));
    assert!(e.take_pending_opens().is_empty());
    e.jump_to("/t/b.txt", 1, 1);
    assert_eq!(spot(&e), (1, 1));
    e.command("e");
    assert_eq!(message(&e), "E32: No file name");
    e.command("e /t/b.txt");
    assert_eq!(e.take_pending_opens().len(), 1);
    let fresh = Editor::open_or_named(chars("/t/new"), Err(chars("cannot read")));
    assert_eq!(fresh.buffer().path.as_deref(), Some("/t/new"));
    assert_eq!(message(&fresh), "E484: Can't open file /t/new: cannot read");
}

#[test]
fn files_that_change_are_noticed() {
    let mut e = editor("a\n");
    let id = e.current_buffer_id();
    e.checktime("");
    assert_eq!(e.take_pending_checktime(), vec![id]);
    let same = Some(FileStat { mtime: Some(1), size: 1 });
    let other = Some(FileStat { mtime: Some(2), size: 1 });
    assert_eq!(e.begin_file_change(id, same), FileChangeAction::Nothing);
    assert!(e.autoread());
    assert_eq!(e.begin_file_change(id, other), FileChangeAction::Reloaded);
    e.reload_buffer(id, Ok(read("/t/a.txt", "b\n", 2)));
    assert_eq!(e.lines(), vec!["b"]);
    keys(&mut e, "x");
    let again = e.begin_file_change(id, Some(FileStat { mtime: Some(3), size: 1 }));
    assert_eq!(again, FileChangeAction::Autocmd(FileChangeReason::Conflict));
    assert_eq!(FileChangeReason::Conflict.as_str(), "conflict");
    e.warn_file_change(id, FileChangeReason::Deleted);
    assert!(message(&e).contains("/t/a.txt"));
    let gone = e.begin_file_change(id, None);
    assert_eq!(gone, FileChangeAction::Autocmd(FileChangeReason::Deleted));
}

#[test]
fn buffers_are_walked() {
    let mut e = editor("a\n");
    e.command("e /t/b");
    e.command("e /t/c");
    assert_eq!(e.buffer_ids(), vec![BufferId(1), BufferId(2), BufferId(3)]);
    e.command("bn");
    assert_eq!(e.current_buffer_id(), BufferId(1));
    e.command("bp");
    assert_eq!(e.current_buffer_id(), BufferId(3));
    e.command("bfirst");
    assert_eq!(e.current_buffer_id(), BufferId(1));
    e.command("b 2");
    assert_eq!(e.current_buffer_id(), BufferId(2));
    assert_eq!(e.alternate(), Some(BufferId(1)));
    e.goto_alternate();
    assert_eq!((e.current_buffer_id(), e.alternate()), (BufferId(1), Some(BufferId(2))));
    e.command("b /t/c");
    assert_eq!(e.current_buffer_id(), BufferId(3));
    e.command("b 77");
    assert_eq!(message(&e), "E86: Buffer 77 does not exist");
    e.command("b /t/");
    assert!(message(&e).starts_with("E93"));
    e.command("b zzz");
    assert!(message(&e).starts_with("E94"));
    e.command("ls");
    assert!(e.panel_is_open());
    assert_eq!(e.panel().unwrap().lines.len(), 3);
    assert_eq!(e.panel_title().as_deref(), Some("Buffers"));
}

#[test]
fn windows_are_split_and_closed() {
    let mut e = editor("a\nb\n");
    let first = e.current_window_id();
    keys(&mut e, "j\u{17}v");
    assert_eq!(e.window_count(), 2);
    let second = e.current_window_id();
    assert_ne!(first, second);
    assert_eq!(spot(&e), (1, 0));
    keys(&mut e, "k");
    e.focus_cycle(true);
    assert_eq!((e.current_window_id(), spot(&e)), (first, (1, 0)));
    e.focus_window(second);
    assert_eq!(spot(&e), (0, 0));
    let (_, _, w1, _) = e.window_rect(first).unwrap();
    let (_, _, w2, _) = e.window_rect(second).unwrap();
    assert_eq!(w1 + w2 + 1, 80);
    e.set_window_width(second, 20);
    assert_eq!(e.window_rect(second).unwrap().2, 20);
    e.equalize_windows();
    assert_eq!(e.window_rect(second).unwrap().2, w2);
    e.focus_dir(WinDir::Right);
    e.focus_dir(WinDir::Left);
    assert!(e.close_window_by_id(second, false));
    assert_eq!(e.window_ids(), vec![first]);
    e.close_window();
    assert_eq!(message(&e), "E444: Cannot close last window");
    assert!(!e.close_window_by_id(WindowId(99), true));
    e.split(SplitDir::Horizontal);
    e.split(SplitDir::Horizontal);
    e.only_window();
    assert_eq!(e.window_count(), 1);
    keys(&mut e, "\u{17}T");
    assert_eq!(e.outbox().tabs, vec![TabRequest::NewFromWindow]);
}

#[test]
fn floats_stand_over_the_tiles() {
    let mut e = editor("a\n");
    let mut c = FloatConfig::default();
    c.width = 20;
    c.height = 3;
    c.title = Some(chars("t"));
    let buf = e.create_buffer().unwrap();
    let id = e.open_float_window(buf, c, false).unwrap();
    assert_eq!(e.current_window_id(), WindowId(1));
    assert_eq!(e.window_buffer(id), Some(buf));
    assert_eq!(e.window_float_config(id).unwrap().title.as_deref(), Some("t"));
    let all = e.window_layouts();
    assert_eq!(all.len(), 2);
    assert!(all[1].floating && !all[1].focused);
    e.set_current_window(id);
    assert_eq!(e.current_buffer_id(), buf);
    e.close_window();
    assert_eq!(e.current_window_id(), WindowId(1));
    assert!(e.open_float_window(BufferId(99), FloatConfig::default(), true).is_none());
}

#[test]
fn the_panel_takes_keys() {
    let mut e = editor("a\n");
    let lines: Vec<String> = (0..30).map(|i| format!("line {i}")).collect();
    e.open_panel(chars("List"), lines, true, 0);
    keys(&mut e, "jjG");
    assert_eq!(e.panel().unwrap().cursor, 29);
    keys(&mut e, "gg");
    assert_eq!(e.panel().unwrap().cursor, 0);
    keys(&mut e, "j\n");
    assert_eq!(e.outbox().panel_selects, vec![(1, chars("line 1"))]);
    e.set_panel_cursor(99);
    assert_eq!(e.panel().unwrap().cursor, 29);
    keys(&mut e, "q");
    assert!(!e.panel_is_open());
    assert!(e.reopen_last_panel());
    assert_eq!(e.panel().unwrap().lines.len(), 30);
    e.close_panel();
    assert_eq!(e.lines(), vec!["a"]);

    let mut p = Panel::new(chars("P"), vec![chars("x"), chars("y")], false, 0);
    p.set_targets(vec![None, Some(Target { path: chars("/t/z"), line: 3, col: 1 })]);
    assert!(matches!(p.handle_panel(Key::char('j'), 10, 80), PanelStep::Stay));
    match p.handle_panel(Key::new(KeyCode::Enter), 10, 80) {
        PanelStep::Jump(t) => assert_eq!((t.path.as_str(), t.line, t.col), ("/t/z", 3, 1)),
        _ => panic!("no jump"),
    }
    let long = Panel::new(chars("P"), vec!["word ".repeat(40), chars("y")], false, 1);
    let v = long.view_rows(5, 20);
    assert!(v.cursor_row < v.height);
}

#[test]
fn messages_are_kept() {
    let mut l = Log::new();
    l.echo(chars("one\ntwo"));
    assert_eq!(l.message, "one\ntwo");
    assert_eq!(l.messages, vec!["one", "two"]);
    for i in 0..1500 {
        l.echo(format!("{i}"));
    }
    assert_eq!(l.messages.len(), 1000);
    assert_eq!(l.messages[999], "1499");
    l.clear();
    assert_eq!(l.message, "");
}

#[test]
fn views_are_refreshed_once() {
    let mut e = editor("a\nb\n");
    e.recompute_decor_dirty();
    let dirty = e.take_decor_dirty();
    assert_eq!(dirty.len(), 1);
    assert_eq!((dirty[0].win, dirty[0].buf, dirty[0].top), (WindowId(1), BufferId(1), 0));
    e.settle_decor_pass();
    e.recompute_decor_dirty();
    assert!(e.take_decor_dirty().is_empty());
    e.invalidate_decor(DecorScope::Window(WindowId(1)));
    assert!(e.decor_invalidation_pending());
    e.recompute_decor_dirty();
    assert_eq!(e.take_decor_dirty().len(), 1);
    e.settle_decor_pass();
    e.recompute_decor_dirty();
    assert!(e.take_decor_dirty().is_empty());
}

#[test]
fn registers_are_listed() {
    assert_eq!(format_register_line('"', "a\nb", false), "  c  \"\"   a^Jb");
    let mut e = editor("abc\n");
    keys(&mut e, "yy");
    e.ex_registers("");
    assert_eq!(e.panel().unwrap().lines, vec![
        chars("Type Name Content"),
        chars("  l  \"\"   abc^J"),
        chars("  c  \"%   /t/a.txt"),
    ]);
}

#[test]
fn options_and_edits_from_outside() {
    let mut e = editor("one\ntwo\n");
    let id = e.current_buffer_id();
    e.set_buffer_option_num(id, "tabstop", 3);
    assert_eq!(e.tabstop(), 3);
    e.set_buffer_option_str(id, "fileformat", "dos", &vec![]);
    assert_eq!(e.buffer().to_save_text(), "one\r\ntwo\r\n");
    assert_eq!(e.api_set_lines(id, 0, 1, &vec![chars("1")]), Ok(()));
    assert_eq!(e.lines_of(id), Some(vec![chars("1"), chars("two")]));
    assert!(e.api_set_lines(BufferId(9), 0, 1, &vec![]).is_err());
    assert_eq!(e.line_count_of(id), Some(2));
    assert!(e.buffer_modified(id));
    keys(&mut e, "u");
    assert_eq!(e.lines(), vec!["one", "two"]);
}

#[test]
fn what_comes_with_a_file() {
    let mut e = editor("a\nb\n");
    let id = e.current_buffer_id();
    e.set_mark('a');
    e.seed_pending_file_marks(id, &vec![('a', (1, 0)), ('b', (1, 0))], vec![(0, 0), (1, 0)]);
    assert_eq!(e.mark_location('a').map(|m| (m.line, m.col)), Some((0, 0)));
    assert_eq!(e.mark_location('b').map(|m| (m.line, m.col)), Some((1, 0)));
    assert_eq!(e.buffer().changelist, vec![(0, 0), (1, 0)]);
    e.seed_pending_file_marks(id, &vec![], vec![(1, 0)]);
    assert_eq!(e.buffer().changelist.len(), 2);
    e.load_bytes_into(id, Some(chars("/t/l")), "x", chars("latin1"), false);
    assert_eq!((e.lines(), e.buffer().fileencoding.as_str()), (vec![chars("x")], "latin1"));
    e.load_into_current(Ok(read("/t/l", "y\n", 1)));
    assert_eq!(e.take_loaded_in_place(), vec![id]);
    assert!(e.take_loaded_in_place().is_empty());
    let other = e.ensure_buffer_loaded("/t/o", Ok(read("/t/o", "o\n", 1)));
    assert_eq!(other, Some(BufferId(2)));
    assert_eq!(e.ensure_buffer_loaded("/t/./o", Err(chars("no"))), other);
    assert_eq!(e.ensure_buffer_loaded("/t/p", Err(chars("no"))), None);
    assert_eq!(message(&e), "no");
    e.enqueue_open(BufferId(2), chars("/t/p.png"), true, None);
    assert_eq!(e.take_pending_opens().len(), 1);
    let mut options = e.global_options();
    options.imagepreview = true;
    e.set_global_options(options);
    e.enqueue_open(BufferId(2), chars("/t/p.png"), true, None);
    assert!(e.buffer_of(BufferId(2)).unwrap().is_image());
    assert!(e.take_pending_opens().is_empty());
    e.enqueue_open(BufferId(2), chars("/t/o"), false, None);
    assert_eq!(e.take_pending_opens().len(), 1);
    e.mark_extmark_namespace_ephemeral(7);
    e.mark_extmark_namespace_ephemeral(3);
    e.mark_extmark_namespace_ephemeral(7);
    assert_eq!(e.decor().ephemeral_extmark_namespaces(), vec![3, 7]);
    e.open_scratch_listing(chars("[Info]"), vec![chars("one"), chars("two")], 1);
    assert_eq!(e.panel().unwrap().cursor, 1);
}

#[test]
fn a_listing_is_not_edited() {
    let mut e = Editor::with_buffer(Buffer::from_dir_entries(chars("/d"), vec![]));
    e.resize(80, 24);
    for run in ["x", "dd", "cw", "i", "p", "rx", "J", "~", "Vd", "u", "o"] {
        keys(&mut e, run);
        assert_eq!(message(&e), "E21: Cannot make changes, 'modifiable' is off", "{run}");
        keys(&mut e, "\u{1b}");
        assert_eq!(e.lines(), vec!["../"], "{run}");
    }
    keys(&mut e, "yyl");
    assert_eq!(e.register_text(Some('"')).map(|r| r.text), Some(chars("../\n")));
    assert_eq!(spot(&e), (0, 1));
    assert!(!e.modifiable());
}

#[test]
fn what_cannot_be_done_is_said() {
    let mut e = editor("foo\n+ +\n");
    keys(&mut e, "j*");
    assert_eq!(message(&e), "E348: No string under cursor");
    keys(&mut e, "/\n");
    assert_eq!(message(&e), "E35: No previous regular expression");
    e.command("set nows");
    keys(&mut e, "/foo\n");
    serve(&mut e);
    assert_eq!(message(&e), "E385: search hit BOTTOM without match for: foo");
    keys(&mut e, "gg?foo\n");
    serve(&mut e);
    assert_eq!(message(&e), "E384: search hit TOP without match for: foo");
    keys(&mut e, "m!");
    assert_eq!(message(&e), "E191: Argument must be a letter or forward/backward quote");
    e.goto_alternate();
    assert_eq!(message(&e), "E23: No alternate file");
    e.command("set ts=0");
    assert_eq!(message(&e), "E487: Argument must be positive: tabstop=0");
    e.command("sleep x");
    assert_eq!(message(&e), "E475: Invalid argument: x");
    e.command("enew");
    e.command("w");
    assert_eq!(message(&e), "E32: No file name");
}

#[test]
fn all_buffers_are_written_before_quitting() {
    let mut e = editor("a\n");
    keys(&mut e, "x");
    e.command("wqa");
    assert!(!e.should_quit());
    let saves = e.take_pending_saves();
    assert_eq!(saves.len(), 1);
    let q = e.take_pending_quit_all().unwrap();
    assert_eq!((q.bang, q.seqs), (false, vec![saves[0].seq]));
    e.finalize_save(saves[0].buffer, saves[0].path.clone(), None);
    e.ex_quit_all(q.bang);
    assert!(e.should_quit());
    let mut e = editor("a\n");
    e.command("xa");
    assert!(e.should_quit());
}
