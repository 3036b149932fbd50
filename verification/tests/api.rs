use nxvim_core::batch::TextEdit;
use nxvim_core::buffer::{Buffer, BufferKind, FileStat};
use nxvim_core::cmdline::{CmdlineKind, CommandLine, LineEdit};
use nxvim_core::editor::Editor;
use nxvim_core::input::{Key, KeyCode};
use nxvim_core::idmap::IdMap;
use nxvim_core::layout::WindowId;
use nxvim_core::mode::Mode;
use nxvim_core::panel::Target;
use nxvim_core::pending::{MenuMove, TabRequest};
use nxvim_core::rows::{Fold, RowView};
use nxvim_core::scroll::{Frame, ViewPlace};
use nxvim_core::virt::{row_map, VirtMark};
use nxvim_core::window::{BufferId, Cursor};

fn text(s: &str) -> String {
    s.to_string()
}

fn editor(contents: &str) -> Editor {
    let mut e = Editor::with_buffer(Buffer::from_file(
        text("/t/a"),
        Some((text(contents), text("utf-8"), false)),
        Some(FileStat { mtime: Some(1), size: 1 }),
    ));
    e.resize(80, 24);
    e
}

fn keys(e: &mut Editor, s: &str) {
    for c in s.chars() {
        e.input(match c {
            '\n' => Key::new(KeyCode::Enter),
            '\t' => Key::new(KeyCode::Tab),
            '\u{1b}' => Key::new(KeyCode::Esc),
            c => Key::char(c),
        });
    }
}

fn at(e: &Editor) -> (usize, usize) {
    (e.live().cursor.line, e.live().cursor.col)
}

#[test]
fn edits_move_the_cursor_with_the_text() {
    let mut e = editor("one\ntwo\n");
    keys(&mut e, "jl");
    let edit = |start: usize, end: usize, s: &str| TextEdit { start, end, text: text(s) };
    e.apply_edits(vec![edit(0, 3, "1\n1")], 4);
    assert_eq!(e.lines(), vec!["1", "1", "two"]);
    assert_eq!(at(&e), (2, 0));
    let id = e.current_buffer_id();
    e.apply_edits_to(id, vec![edit(0, 0, "x"), edit(0, 0, "y")]);
    assert_eq!(e.lines()[0], "yx1");
    keys(&mut e, "u");
    assert_eq!(e.lines()[0], "1");
    keys(&mut e, "u");
    assert_eq!(e.lines(), vec!["one", "two"]);
    assert!(!e.buffer().modified);
}

#[test]
fn buffers_answer_questions() {
    let mut e = editor("one\ntwo\n");
    let id = e.current_buffer_id();
    keys(&mut e, "x");
    assert!(e.changedtick_of(id).unwrap() > 0);
    assert_eq!(e.changedtick_of(BufferId(9)), None);
    assert!(!e.take_lsp_edits_of(id).unwrap().is_empty());
    assert!(e.take_lsp_edits_of(id).unwrap().is_empty());
    assert!(!e.take_lua_ts_edits_of(id).unwrap().is_empty());
    assert!(e.take_lsp_edits_of(BufferId(9)).is_none());
    assert!(!e.buffer_is_new_file(id));
    let (path, stat) = e.buffer_watch_key(id).unwrap();
    assert_eq!((path.as_str(), stat.unwrap().mtime), ("/t/a", Some(1)));
    let other = e.create_buffer().unwrap();
    assert!(e.buffer_watch_key(other).is_none());
    e.set_current_buffer(other);
    assert_eq!(e.current_buffer_id(), other);
    e.load_str(Some(text("/t/n")), "new\n");
    assert_eq!(e.lines(), vec!["new"]);
    let here = e.current_buffer_id();
    assert!(e.buffer_is_new_file(here));
    e.mark_replica_read_from_disk(here, None);
    assert!(!e.buffer_is_new_file(here));
    keys(&mut e, "x");
    e.mark_saved(Some(text("/t/m")));
    assert!(!e.buffer().modified);
    assert_eq!(e.buffer().path.as_deref(), Some("/t/m"));
    e.set_cwd(text("/t"));
    assert_eq!(e.find_buffer_by_path("m"), Some(here));
    assert!(e.current_buffer_is("../t/m"));
    assert_eq!(e.enqueue_replica_open("/t/q").map(|b| e.buffer_is_valid(b)), Some(true));
    assert_eq!(e.take_pending_opens().len(), 1);
}

#[test]
fn windows_answer_questions() {
    let mut e = editor("one\ntwo\nthree\n");
    let first = e.current_window_id();
    let id = e.current_buffer_id();
    let second = e.open_split_window(id, true);
    assert_eq!(e.next_window_id(), WindowId(second.0 + 1));
    e.set_window_cursor(first, 2, 99);
    assert_eq!(e.window_cursor(first).map(|c| c.0), Some(2));
    e.set_window_option_bool(first, "number", true);
    assert!(e.window_options(first).unwrap().number);
    assert!(!e.window_options(second).unwrap().number);
    e.set_global_option_bool("ignorecase", true);
    assert!(e.global_options().ignorecase);
    e.split(nxvim_core::layout::SplitDir::Horizontal);
    let third = e.current_window_id();
    e.set_window_height(third, 5);
    assert_eq!(e.window_rect(third).unwrap().3, 6);
    let other = e.create_buffer().unwrap();
    e.set_window_buffer(first, other);
    assert_eq!(e.window_buffer(first), Some(other));
    assert!(!e.separators().is_empty());
    e.open_buffer_in_split(other, false);
    assert_eq!(e.current_buffer_id(), other);
    e.jump_to_split("/t/a", 1, 1, true);
    assert_eq!((e.current_buffer_id(), at(&e)), (id, (1, 1)));
    e.checktime_buffer(id);
    assert!(e.has_pending_checktime());
}

#[test]
fn the_panel_is_set_from_outside() {
    let mut e = editor("a\nb\n");
    e.open_panel(text("P"), vec![text("x"), text("y"), text("z")], false, 0);
    e.set_panel_on_select(true);
    e.set_panel_cursor_by_row(2);
    assert_eq!(e.panel().unwrap().cursor, 2);
    e.set_panel_lines(vec![text("only")]);
    assert_eq!(e.panel().unwrap().cursor, 0);
    let v = e.panel_view().unwrap();
    assert_eq!((v.title.as_str(), v.lines, v.cursor_row), ("P", vec![text("only")], 0));
    e.set_panel_on_select(false);
    e.set_panel_targets(vec![Some(Target { path: text("/t/a"), line: 1, col: 0 })]);
    keys(&mut e, "\n");
    assert!(!e.panel_is_open());
    assert_eq!(at(&e), (1, 0));
    keys(&mut e, "x");
    e.ex_changes();
    assert!(e.panel_is_open());
    e.close_panel();
    e.open_buffer_listing(vec![text("1"), text("2")], 1);
    assert_eq!(e.panel().unwrap().cursor, 1);
}

#[test]
fn edits_apart_are_made_at_once() {
    let mut e = editor("one two three\n");
    let id = e.current_buffer_id();
    let edit = |start: usize, end: usize, s: &str| TextEdit { start, end, text: text(s) };
    let edits = vec![edit(4, 7, "2"), edit(0, 3, "first"), edit(13, 14, ""), edit(8, 8, "x")];
    e.apply_edits_to(id, edits);
    assert_eq!(e.lines(), vec!["first 2 xthree"]);
    keys(&mut e, "u");
    assert_eq!(e.lines(), vec!["one two three"]);
}

#[test]
fn redo_gives_marks_and_cursor_back() {
    let mut e = editor("one\ntwo\nthree\n");
    keys(&mut e, "jmajx");
    let id = e.current_buffer_id();
    let tick = e.changedtick_of(id);
    assert_eq!(at(&e), (2, 0));
    keys(&mut e, "ggu");
    assert_eq!((e.lines()[2].as_str(), at(&e)), ("three", (2, 0)));
    keys(&mut e, "gg");
    e.redo();
    assert_eq!((e.lines()[2].as_str(), at(&e)), ("hree", (0, 0)));
    assert_eq!(e.mark_location('a').unwrap().line, 1);
    assert!(e.changedtick_of(id) > tick);
}

#[test]
fn menus_of_the_line_are_walked() {
    let mut e = editor("a\n");
    e.configure_cmdline_complete(true);
    assert!(e.cmdline_complete_docs());
    keys(&mut e, ":set nu\t");
    assert_eq!(e.outbox().completion.as_ref().unwrap().prefix, "nu");
    assert!(e.outbox().prompt_completion.is_none());
    assert!(!e.cmdline_menu_open());
    e.open_cmdline_menu(4);
    keys(&mut e, "\t");
    assert_eq!(e.apply_cmdline_action("complete_prev"), Ok(()));
    assert_eq!(e.apply_cmdline_action("history_next"), Ok(()));
    assert_eq!(e.apply_cmdline_action("history_prev"), Ok(()));
    assert_eq!(
        e.outbox().menu_moves,
        vec![MenuMove::Next, MenuMove::Prev, MenuMove::Next, MenuMove::Prev]
    );
    e.line_mut().cmdline_complete_preview(Some((4, 6, "number")));
    assert_eq!(e.line().text(), "set number");
    // The first escape brings the typed line back, the second one leaves it.
    keys(&mut e, "\u{1b}");
    assert_eq!((e.line().text(), e.live().mode), (text("set nu"), Mode::Command));
    assert!(!e.cmdline_menu_open());
    e.open_cmdline_menu(4);
    keys(&mut e, "m");
    // Only the last request is kept.
    assert_eq!(e.outbox().completion.as_ref().unwrap().prefix, "num");
    assert!(e.cmdline_menu_open());
    // A new word closes the menu.
    keys(&mut e, " ");
    assert!(!e.cmdline_menu_open());
    assert_eq!(e.outbox().completion.as_ref().unwrap().prefix, "num");
    keys(&mut e, "\u{1b}");
    assert_eq!(e.live().mode, Mode::Normal);
    assert_eq!(
        e.apply_cmdline_action("no\n\"pe"),
        Err(text("unknown cmdline action \"no\\n\\\"pe\""))
    );
}

#[test]
fn menus_of_prompts_have_spans() {
    let mut l = CommandLine::new();
    l.open(CmdlineKind::Ex, Mode::Normal);
    assert!(l.open_prompt_complete_menu(&vec![]).is_none());
    let mut e = editor("a\n");
    e.open_prompt(text("> "), text("\u{e9}x.fo"), None, true, true);
    let m = e
        .line_mut()
        .open_prompt_complete_menu(&vec![None, Some((0, 2)), Some((3, 99))])
        .unwrap();
    assert_eq!((m.prefix.as_str(), m.anchor, m.anchor_width), ("fo", 4, 3));
    assert_eq!(m.spans, vec![None, Some((0, 3)), Some((4, 6))]);
    assert!(m.docs);
    assert_eq!(e.line().cmdline_char_span_to_bytes(1, 1), (2, 3));
    keys(&mut e, "o");
    assert!(e.outbox().completion.is_none());
    assert!(e.outbox().prompt_completion.as_ref().unwrap().refresh);
    let mut l = CommandLine::new();
    l.open(CmdlineKind::Ex, Mode::Normal);
    l.insert_str("e old");
    l.cmdline_replace_arg("/new/path");
    assert_eq!(l.text(), "e /new/path");
    l.edit(LineEdit::ToStart);
    l.cmdline_replace_arg("x");
    assert_eq!(l.text(), "e /new/path");
    let mut l = CommandLine::new();
    l.open(CmdlineKind::Ex, Mode::Normal);
    l.insert_str("e");
    l.cmdline_replace_arg("x.rs");
    assert_eq!((l.text(), l.cmdline_cursor()), (text("e"), 1));
    l.insert_str(" ");
    l.cmdline_replace_arg("x.rs");
    assert_eq!(l.text(), "e x.rs");
}

#[test]
fn the_view_goes_by_rows() {
    let long: String = (0..40).map(|i| format!("line {i}\n")).collect();
    let mut e = editor(&long);
    let height = e.frame().height;
    let win = e.current_window_id();
    // Every line takes three rows.
    let map = row_map(&vec![3; 40], &IdMap::new(), vec![]);
    let breaks = vec![vec![0, 2, 4]; 40];
    assert!(e.set_rows(Some(RowView { win, map, breaks })));
    keys(&mut e, "20G");
    let top = e.live().top;
    let rows = row_map(&vec![3; 40], &IdMap::new(), vec![]);
    assert!(rows.cursor_screen_row(top, 19, 0) < height);
    assert_eq!(rows.scroll_top_for_bottom(19, 0, height), top);
    // With a fold over what is above, the same line needs no scrolling.
    let folds = vec![Fold { start: 0, end: 17 }];
    let map = row_map(&vec![1; 40], &IdMap::new(), folds);
    assert!(e.set_rows(Some(RowView { win, map, breaks: vec![vec![0]; 40] })));
    keys(&mut e, "gg20G");
    assert_eq!(e.live().top, 0);
    keys(&mut e, "gg30G");
    assert_eq!(e.live().top, 0);
    // Rows of no text are not taken, and those of another text are not used.
    let bad = row_map(&vec![0; 40], &IdMap::new(), vec![]);
    assert!(!e.set_rows(Some(RowView { win, map: bad, breaks: vec![vec![]; 40] })));
    assert!(e.set_rows(None));
    keys(&mut e, "gg30G");
    assert_eq!(e.live().top, 30 - height);
    keys(&mut e, "ggVG");
    let mut live = e.live();
    live.top = 5;
    e.desk_mut().set_live(live);
    e.reveal_selection();
    assert_eq!(e.live().top, 40 - height);
}

#[test]
fn rows_count_what_marks_draw() {
    let b = Buffer::empty();
    let marks = vec![VirtMark {
        start: 0,
        priority: 0,
        id: 1,
        above: true,
        rows: vec![text("x"), text("y")],
    }];
    let m = row_map(&vec![1, 1], &b.virt_lines_by_line(&marks), vec![]);
    assert_eq!(m.cursor_screen_row(0, 0, 0), 2);
    assert_eq!(m.cursor_screen_row(0, 1, 0), 3);
}

#[test]
fn wrapped_lines_are_not_moved_sideways() {
    let mut e = editor(&format!("{}\n", "x".repeat(300)));
    keys(&mut e, "$");
    assert!(e.live().leftcol > 0);
    let win = e.current_window_id();
    e.set_window_option_bool(win, "wrap", true);
    keys(&mut e, "0$");
    assert_eq!(e.live().leftcol, 0);
}

#[test]
fn tab_pages_are_asked_for() {
    let mut e = editor("a\n");
    e.open_buffer_in_tab(BufferId(1));
    e.open_buffer_in_tab(BufferId(9));
    e.jump_to_tab("/t/b", 3, 4);
    assert_eq!(
        e.outbox().tabs,
        vec![TabRequest::Open(BufferId(1)), TabRequest::OpenAt(BufferId(2), 3, 4)]
    );
    assert!(e.has_pending_open(BufferId(2)));
}

#[test]
fn a_picture_that_was_read_as_text_is_shown() {
    let mut e = editor("bytes\n");
    e.reconcile_image_preview(true, None);
    assert!(!e.buffer().is_image());
    let mut o = e.global_options();
    o.imagepreview = true;
    e.set_global_options(o);
    e.reconcile_image_preview(true, None);
    assert!(e.buffer().is_image());
    assert_eq!(e.lines(), vec![""]);
    assert_eq!(e.buffer().path.as_deref(), Some("/t/a"));
}

#[test]
fn histories_are_as_long_as_the_option_says() {
    let mut e = editor("a\n");
    let mut o = e.global_options();
    assert_eq!(o.history, 10_000);
    o.history = 2;
    e.set_global_options(o);
    for line in ["one", "two", "three"] {
        e.open_prompt(text("> "), text(line), Some(text("k")), false, false);
        keys(&mut e, "\n");
    }
    e.open_prompt(text("> "), text(""), Some(text("k")), false, false);
    for want in ["three", "two", "two"] {
        e.line_mut().edit(LineEdit::HistoryPrev);
        assert_eq!(e.line().text(), want);
    }
}

#[test]
fn a_buffer_in_another_window_is_active() {
    let mut e = editor("a\n");
    e.open_split_window(BufferId(1), false);
    let other = e.create_buffer().unwrap();
    e.set_current_buffer(other);
    let (rows, here) = e.buffer_lines();
    assert_eq!(rows[0], "  1 #a   \"/t/a\" line 1");
    assert_eq!((rows[1].as_str(), here), ("  2 %a   \"[No Name]\" line 1", 1));
    e.only_window();
    assert_eq!(e.buffer_lines().0[0], "  1 #h   \"/t/a\" line 1");
}

#[test]
fn a_file_opens_the_same_however_it_is_reached() {
    let mut e = editor("a\n");
    let id = e.create_buffer().unwrap();
    e.load_bytes_into(id, Some(text("/t/d")), "a\r\nb\r\n", text("utf-8"), false);
    let read = Buffer::from_file(
        text("/t/d"),
        Some((text("a\r\nb\r\n"), text("utf-8"), false)),
        None,
    );
    let b = e.buffer_of(id).unwrap();
    assert_eq!(b.text_string(), "a\nb\n");
    assert_eq!((b.text_string(), b.options), (read.text_string(), read.options));
    assert!(!b.modified);
}

#[test]
fn views_are_placed() {
    let long: String = (0..100).map(|i| format!("  {i}\n")).collect();
    let mut e = editor(&long);
    let f = Frame {
        height: 10,
        width: 80,
        scrolloff: 0,
        sidescroll: 1,
        sidescrolloff: 0,
        wrap: false,
    };
    e.desk_mut().set_cursor(Cursor { line: 50, col: 0 });
    e.desk_mut().view_reposition(ViewPlace::Top, false, None, f);
    assert_eq!(e.live().top, 50);
    e.desk_mut().view_reposition(ViewPlace::Center, false, None, f);
    assert_eq!(e.live().top, 45);
    e.desk_mut().view_reposition(ViewPlace::Bottom, true, Some(61), f);
    assert_eq!((e.live().top, at(&e)), (51, (60, 2)));
    keys(&mut e, "ggVjj");
    let mut live = e.live();
    live.top = 90;
    e.desk_mut().set_live(live);
    e.desk_mut().reveal_selection(f);
    assert_eq!(e.live().top, 0);
}

#[test]
fn the_painted_pattern_is_the_last_one() {
    let mut e = editor("foo\n");
    assert_eq!(e.highlight_pattern(true), None);
    keys(&mut e, "/fo");
    assert_eq!(e.highlight_pattern(true), Some((text("fo"), true)));
    assert_eq!(e.highlight_pattern(false), None);
    keys(&mut e, "\n");
    assert_eq!(e.highlight_pattern(true), Some((text("fo"), false)));
    e.command("noh");
    assert_eq!(e.highlight_pattern(true), None);
}

#[test]
fn views_of_plugins_are_not_walked_through() {
    let mut e = editor("a\n");
    let mut view = Buffer::empty();
    view.kind = BufferKind::View(7);
    let v = e.add_buffer(view).unwrap();
    let last = e.create_buffer().unwrap();
    assert_eq!(e.buffer_ids(), vec![BufferId(1), v, last]);
    assert_eq!(e.focused_buffer_ids(), vec![BufferId(1), last]);
    e.command("bn");
    assert_eq!(e.current_buffer_id(), last);
    e.command("bp 3");
    assert_eq!(e.current_buffer_id(), BufferId(1));
    assert_eq!(e.neighbor_of(BufferId(1)), Some(last));
    assert_eq!(e.neighbor_of(v), Some(BufferId(1)));
    e.set_current_buffer(v);
    e.command("bn");
    assert_eq!(e.current_buffer_id(), v);
    e.command("blast");
    assert_eq!(e.current_buffer_id(), last);
    e.command("ls");
    assert_eq!(e.panel().unwrap().lines.len(), 2);
    assert_eq!(e.panel().unwrap().lines[1], "  3 %a   \"[No Name]\" line 1");
}
