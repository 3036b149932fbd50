use nxvim_core::buffer::{Buffer, FileStat};
use nxvim_core::complete::{CompleteAction, CompleteConfig};
use nxvim_core::editor::Editor;
use nxvim_core::input::{Key, KeyCode};
use nxvim_core::mode::Mode;
use nxvim_core::options::BufferOptions;

fn editor(text: &str) -> Editor {
    let mut e = Editor::with_buffer(Buffer::from_file(
        "f".to_string(),
        Some((text.to_string(), "utf-8".to_string(), false)),
        Some(FileStat { mtime: Some(1), size: 1 }),
    ));
    e.resize(80, 24);
    e
}

/// Types `s`; `<` and `>` enclose the keys that have names.
fn feed(e: &mut Editor, s: &str) {
    let mut rest = s.chars();
    while let Some(c) = rest.next() {
        let key = if c == '<' {
            let name: String = rest.by_ref().take_while(|c| *c != '>').collect();
            match name.as_str() {
                "esc" => Key::new(KeyCode::Esc),
                "cr" => Key::new(KeyCode::Enter),
                "bs" => Key::new(KeyCode::Backspace),
                "del" => Key::new(KeyCode::Delete),
                "tab" => Key::new(KeyCode::Tab),
                "up" => Key::new(KeyCode::Up),
                "lt" => Key::char('<'),
                _ => Key::ctrl(name.chars().last().unwrap()),
            }
        } else {
            Key::char(c)
        };
        e.input(key);
    }
}

fn text(e: &Editor) -> String {
    e.buffer().text_string()
}

fn at(e: &Editor) -> (usize, usize) {
    let c = e.live().cursor;
    (c.line, c.col)
}

fn after(start: &str, keys: &str) -> (String, (usize, usize)) {
    let mut e = editor(start);
    feed(&mut e, keys);
    (text(&e), at(&e))
}

fn gives(start: &str, keys: &str, end: &str, cursor: (usize, usize)) {
    assert_eq!(after(start, keys), (end.to_string(), cursor), "{start:?} {keys}");
}

#[test]
fn motions_move() {
    gives("one two\nthree\n", "w", "one two\nthree\n", (0, 4));
    gives("one two\nthree\n", "ww", "one two\nthree\n", (1, 0));
    gives("one two\nthree\n", "$", "one two\nthree\n", (0, 6));
    gives("one two\nthree\n", "$j", "one two\nthree\n", (1, 4));
    gives("one two\nthree\n", "llllllj", "one two\nthree\n", (1, 4));
    gives("one two\nthree\n", "G", "one two\nthree\n", (1, 0));
    gives("one two\nthree\n", "Ggg", "one two\nthree\n", (0, 0));
    gives("one two\nthree\n", "fw", "one two\nthree\n", (0, 5));
    gives("one two\nthree\n", "tw", "one two\nthree\n", (0, 4));
    gives("a.a.a\n", "f.;", "a.a.a\n", (0, 3));
    gives("a.a.a\n", "f.;,", "a.a.a\n", (0, 1));
    gives("a.b.c\n", "$T.;", "a.b.c\n", (0, 2));
    gives(".bc\n", "$T.;", ".bc\n", (0, 1));
    gives("one two\n", "e", "one two\n", (0, 2));
    gives("one two\n", "$b", "one two\n", (0, 4));
    gives("  one\n", "^", "  one\n", (0, 2));
    gives("e\u{301}x\n", "l", "e\u{301}x\n", (0, 3));
}

#[test]
fn vertical_moves_keep_the_screen_column() {
    gives("\tab\n12345678xy\n", "lj", "\tab\n12345678xy\n", (1, 8));
    gives("abc\na\nabc\n", "lljj", "abc\na\nabc\n", (2, 2));
}

#[test]
fn operators_take_motions() {
    gives("one two three\n", "dw", "two three\n", (0, 0));
    gives("one two three\n", "d2w", "three\n", (0, 0));
    gives("one two three\n", "2dw", "three\n", (0, 0));
    gives("one two three\n", "de", " two three\n", (0, 0));
    gives("one\ntwo\nthree\n", "dd", "two\nthree\n", (0, 0));
    gives("one\ntwo\nthree\n", "2dd", "three\n", (0, 0));
    gives("one\ntwo\nthree\n", "dj", "three\n", (0, 0));
    gives("one\n", "dd", "\n", (0, 0));
    gives("one two\n", "cwxy<esc>", "xy two\n", (0, 1));
    gives("one\ntwo\n", "ccx<esc>", "x\ntwo\n", (0, 0));
    gives("one two\n", "wD", "one \n", (0, 3));
    gives("one two\n", "wCx<esc>", "onex \n", (0, 3));
    gives("a(b c)d\n", "fbdi(", "a()d\n", (0, 2));
    gives("a(b c)d\n", "fbda(", "ad\n", (0, 1));
    gives("say \"hi\" now\n", "ci\"yo<esc>", "say \"yo\" now\n", (0, 6));
    gives("one two\n", "daw", "two\n", (0, 0));
    gives("a\nb\n\nc\n", "dip", "\nc\n", (0, 0));
    gives("a,b,c\n", "df,", "b,c\n", (0, 0));
}

#[test]
fn what_is_cut_can_be_put() {
    gives("one\ntwo\n", "ddp", "two\none\n", (1, 0));
    gives("one\ntwo\n", "yyP", "one\none\ntwo\n", (0, 0));
    gives("abc\n", "xp", "bac\n", (0, 1));
    gives("abc\n", "yl3p", "aaaabc\n", (0, 3));
    let mut e = editor("one two\n");
    feed(&mut e, "yw");
    assert_eq!(e.register_text(Some('"')).map(|r| r.text), Some("one ".to_string()));
    assert_eq!(e.register_text(Some('%')).map(|r| r.text), Some("f".to_string()));
}

#[test]
fn small_edits() {
    gives("abc\n", "x", "bc\n", (0, 0));
    gives("abc\n", "2x", "c\n", (0, 0));
    gives("abc\n", "$X", "ac\n", (0, 1));
    gives("abc\n", "rz", "zbc\n", (0, 0));
    gives("abc\n", "2rz", "zzc\n", (0, 1));
    gives("abc\n", "5rz", "abc\n", (0, 0));
    gives("abC\n", "3~", "ABc\n", (0, 2));
    gives("stra\u{df}e\n", "4l~", "stra\u{df}e\n".replace("\u{df}", "SS").as_str(), (0, 5));
    gives("a\n  b\nc\n", "J", "a b\nc\n", (0, 1));
    gives("a\n  b\nc\n", "3J", "a b c\n", (0, 3));
    gives("a\n", "ob<esc>", "a\nb\n", (1, 0));
    gives("a\n", "Ob<esc>", "b\na\n", (0, 0));
    gives("ab\n", "sx<esc>", "xb\n", (0, 0));
    gives("ab\n", "aX<esc>", "aXb\n", (0, 1));
    gives("ab\n", "AX<esc>", "abX\n", (0, 2));
    gives("  ab\n", "$IX<esc>", "  Xab\n", (0, 2));
}

#[test]
fn typing_and_its_keys() {
    gives("\n", "iab<bs>c<esc>", "ac\n", (0, 1));
    gives("ab\n", "a<cr>x<esc>", "a\nxb\n", (1, 0));
    gives("a\nb\n", "ji<bs><esc>", "ab\n", (0, 0));
    gives("abc\n", "i<del><esc>", "bc\n", (0, 0));
    gives("abc\n", "Rxy<esc>", "xyc\n", (0, 1));
}

#[test]
fn tabs_follow_the_options() {
    let mut e = editor("\n");
    e.command("set et sw=4 ts=4");
    assert_eq!(e.tabstop(), 4);
    feed(&mut e, "ia<tab>b<esc>");
    assert_eq!(text(&e), "a   b\n");
    // A backspace right after a tab takes all of its blanks away.
    feed(&mut e, "A<tab><bs><esc>");
    assert_eq!(text(&e), "a   b\n");
    feed(&mut e, "A<tab><tab><bs><esc>");
    assert_eq!(text(&e), "a   b   \n");
    let mut e = editor("x\nab\r\n");
    e.command("set et sw=4 ts=4");
    feed(&mut e, "jA<tab>");
    assert_eq!((text(&e), at(&e)), ("x\nab  \r\n".to_string(), (1, 4)));
    feed(&mut e, "<bs>");
    assert_eq!((text(&e), at(&e)), ("x\nab\r\n".to_string(), (1, 2)));
    let o = BufferOptions::default();
    assert!(o.effective_tabstop() >= 1);
}

#[test]
fn selections_are_operated_on() {
    gives("abcd\n", "vld", "cd\n", (0, 0));
    gives("a\nb\nc\n", "Vjd", "c\n", (0, 0));
    gives("abcd\n", "vlcX<esc>", "Xcd\n", (0, 0));
    gives("one two\n", "viwd", " two\n", (0, 0));
    let mut e = editor("abcd\n");
    feed(&mut e, "vll");
    assert_eq!(e.live().mode, Mode::Visual);
    feed(&mut e, "y");
    assert_eq!(e.live().mode, Mode::Normal);
    assert_eq!(e.register_text(Some('"')).map(|r| r.text), Some("abc".to_string()));
    assert_eq!(at(&e), (0, 0));
}

#[test]
fn undo_and_redo_follow_each_other() {
    let mut e = editor("one two\n");
    feed(&mut e, "dwix<esc>");
    assert_eq!(text(&e), "xtwo\n");
    feed(&mut e, "u");
    assert_eq!(text(&e), "two\n");
    feed(&mut e, "u");
    assert_eq!(text(&e), "one two\n");
    assert!(!e.buffer().modified);
    feed(&mut e, "u");
    assert_eq!(e.log().message, "Already at oldest change");
    feed(&mut e, "<c-r><c-r>");
    assert_eq!(text(&e), "xtwo\n");
    assert!(e.buffer().modified);
    feed(&mut e, "<c-r>");
    assert_eq!(e.log().message, "Already at newest change");
    feed(&mut e, "ux<c-r>");
    assert_eq!(text(&e), "wo\n");
}

#[test]
fn changes_are_repeated() {
    gives("a b c d\n", "dw.", "c d\n", (0, 0));
    gives("abcdef\n", "x2.", "def\n", (0, 0));
    gives("a\nb\n", "Ax<esc>j.", "ax\nbx\n", (1, 1));
    gives("abc\n", "xu.", "bc\n", (0, 0));
}

#[test]
fn marks_are_kept_and_moved() {
    gives("one\ntwo\nthree\n", "jlmaggOx<esc>`a", "x\none\ntwo\nthree\n", (2, 1));
    gives("one\n  two\n", "jmagg'a", "one\n  two\n", (1, 2));
    gives("a\nb\nc\n", "majjd'a", "\n", (0, 0));
    let mut e = editor("one\ntwo\n");
    feed(&mut e, "jmAgg");
    let m = e.mark_location('A').unwrap();
    assert_eq!((m.line, m.col), (1, 0));
    assert!(e.mark_location('b').is_none());
    feed(&mut e, "`b");
    assert_eq!(e.log().message, "E20: Mark not set");
    feed(&mut e, "`A");
    assert_eq!(at(&e), (1, 0));
}

#[test]
fn changes_are_walked() {
    let mut e = editor("a\nb\nc\nd\n");
    feed(&mut e, "xjjx");
    feed(&mut e, "gg");
    e.change_older(1);
    assert_eq!(at(&e), (2, 0));
    e.change_older(1);
    assert_eq!(at(&e), (0, 0));
    e.change_older(1);
    assert_eq!(e.log().message, "E662: At start of changelist");
    e.change_newer(1);
    assert_eq!(at(&e), (2, 0));
    e.change_newer(1);
    assert_eq!(e.log().message, "E663: At end of changelist");
    let mut e = editor("a\n");
    e.change_older(1);
    assert_eq!(e.log().message, "E664: changelist is empty");
}

#[test]
fn a_locked_text_is_not_changed() {
    let mut e = editor("abc\n");
    let id = e.current_buffer_id();
    e.set_buffer_option_bool(id, "modifiable", false);
    feed(&mut e, "x");
    assert_eq!(text(&e), "abc\n");
    assert_eq!(e.log().message, "E21: Cannot make changes, 'modifiable' is off");
    feed(&mut e, "ix");
    assert_eq!(text(&e), "abc\n");
    assert_eq!(e.live().mode, Mode::Normal);
}

#[test]
fn the_cursor_line_is_on_the_screen() {
    let long: String = (0..200).map(|i| format!("{i}\n")).collect();
    let mut e = editor(&long);
    feed(&mut e, "G");
    let live = e.live();
    assert_eq!(live.cursor.line, 199);
    let f = e.frame();
    assert!(live.top <= 199 && 199 < live.top + f.height);
    feed(&mut e, "gg");
    assert_eq!(e.live().top, 0);
    feed(&mut e, "<c-d>");
    assert_eq!(at(&e), (f.height / 2, 0));
    assert_eq!(e.live().top, f.height / 2);
    feed(&mut e, "<c-u>");
    assert_eq!((at(&e), e.live().top), ((0, 0), 0));
    feed(&mut e, "<c-e>");
    assert_eq!(e.live().top, 1);
    assert!(e.take_pending_scroll().is_some());
    assert!(e.take_pending_scroll().is_none());
}

#[test]
fn completion_takes_the_words_of_the_text() {
    let mut e = editor("hello help\nhe\n");
    feed(&mut e, "jA");
    assert!(e.complete_trigger().is_none());
    let mut config = CompleteConfig::default();
    config.enabled = true;
    e.configure_complete(config);
    assert_eq!(e.complete_action(Key::ctrl('n')), Some(CompleteAction::Next));
    assert_eq!(e.complete_action(Key::char('n')), None);
    let (anchor, prefix, found) = e.complete_trigger().unwrap();
    assert_eq!((anchor, prefix.as_str()), (11, "he"));
    assert_eq!(found, vec!["hello", "help"]);
    e.desk_mut().complete_accept(anchor, "help");
    assert_eq!(text(&e), "hello help\nhelp\n");
    assert_eq!(at(&e), (1, 4));
}
