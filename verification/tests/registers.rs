use nxvim_core::buffer::{Buffer, FileStat};
use nxvim_core::complete::push_word;
use nxvim_core::command::NamedOperator;
use nxvim_core::editor::Editor;
use nxvim_core::input::{Key, KeyCode};
use nxvim_core::mode::Mode;
use nxvim_core::pending::SearchUse;
use nxvim_core::registers::{Register, Registers};
use nxvim_core::searching::Hits;

fn editor(contents: &str) -> Editor {
    let mut e = Editor::with_buffer(Buffer::from_file(
        "/t/a".to_string(),
        Some((contents.to_string(), "utf-8".to_string(), false)),
        Some(FileStat { mtime: Some(1), size: 1 }),
    ));
    e.resize(80, 24);
    e
}

fn keys(e: &mut Editor, s: &str) {
    for c in s.chars() {
        e.input(match c {
            '\n' => Key::new(KeyCode::Enter),
            '\u{1b}' => Key::new(KeyCode::Esc),
            '\u{12}' => Key::ctrl('r'),
            c => Key::char(c),
        });
    }
}

fn held(e: &Editor, name: char) -> Option<(String, bool)> {
    e.register_text(Some(name)).map(|r| (r.text, r.linewise))
}

fn inline(s: &str) -> Option<(String, bool)> {
    Some((s.to_string(), false))
}

fn lines(s: &str) -> Option<(String, bool)> {
    Some((s.to_string(), true))
}

fn reg(s: &str, linewise: bool) -> Register {
    Register { text: s.to_string(), linewise }
}

#[test]
fn named_registers_keep_their_texts() {
    let mut e = editor("one\ntwo\nthree\n");
    keys(&mut e, "\"ayyj\"byyj\"cyw");
    assert_eq!(held(&e, 'a'), lines("one\n"));
    assert_eq!(held(&e, 'b'), lines("two\n"));
    assert_eq!(held(&e, 'c'), inline("three"));
    assert_eq!(held(&e, '"'), inline("three"));
    assert_eq!(held(&e, 'd'), None);
    keys(&mut e, "gg\"bp");
    assert_eq!(e.lines(), vec!["one", "two", "two", "three"]);
    keys(&mut e, "\"dp");
    assert_eq!(e.lines().len(), 4);
    keys(&mut e, "\"0yyG\"0P");
    assert_eq!(e.lines(), vec!["one", "two", "two", "two", "three"]);
}

#[test]
fn deletes_and_changes_go_by_name() {
    let mut e = editor("abc def\nx\n");
    keys(&mut e, "\"qx");
    assert_eq!(held(&e, 'q'), inline("a"));
    keys(&mut e, "\"rD");
    assert_eq!(held(&e, 'r'), inline("bc def"));
    assert_eq!(held(&e, 'q'), inline("a"));
    keys(&mut e, "j\"sccnew\u{1b}");
    assert_eq!(held(&e, 's'), lines("x\n"));
    assert_eq!(e.lines(), vec!["", "new"]);
    keys(&mut e, "0vl\"td");
    assert_eq!(held(&e, 't'), inline("ne"));
}

#[test]
fn capital_letters_add() {
    let mut e = editor("one\ntwo\n");
    keys(&mut e, "\"ayl\"Aylj\"Ayy");
    assert_eq!(held(&e, 'a'), lines("oo\ntwo\n"));
    assert_eq!(held(&e, 'A'), lines("oo\ntwo\n"));
    assert_eq!(held(&e, '"'), lines("oo\ntwo\n"));
    keys(&mut e, "\"Zyl");
    assert_eq!(held(&e, 'z'), inline("t"));
}

#[test]
fn black_hole_takes_and_keeps_nothing() {
    let mut e = editor("one\ntwo\nthree\n");
    keys(&mut e, "yyj\"_dd");
    assert_eq!(e.lines(), vec!["one", "three"]);
    assert_eq!(held(&e, '"'), lines("one\n"));
    keys(&mut e, "\"_x\"_p");
    assert_eq!(e.lines(), vec!["one", "hree"]);
    assert_eq!(held(&e, '"'), lines("one\n"));
}

#[test]
fn readonly_registers_stop_operators() {
    let mut e = editor("one\ntwo\n");
    for s in ["\"%dd", "\"%yy", "\"/dw", "\":cc", "\".diw", "\"%x", "\"%d/"] {
        keys(&mut e, s);
        assert_eq!(e.lines(), vec!["one", "two"], "{s}");
        assert_eq!(e.live().mode, Mode::Normal, "{s}");
        assert_eq!(held(&e, '"'), None, "{s}");
    }
    assert!(!e.buffer().modified);
    keys(&mut e, "vl\"%d");
    assert_eq!(e.lines(), vec!["one", "two"]);
    keys(&mut e, "\u{1b}0\"%P");
    assert_eq!(e.lines()[0], "/t/aone");
}

#[test]
fn clipboard_is_missed_aloud() {
    let mut e = editor("one\ntwo\n");
    keys(&mut e, "yl");
    for s in ["\"+yy", "\"*dd", "\"+p", "\"*P", "\"+x", "\"+d/"] {
        e.hush();
        keys(&mut e, s);
        assert_eq!(e.log().message, "clipboard: No provider", "{s}");
        assert_eq!(e.lines(), vec!["one", "two"], "{s}");
        assert_eq!(held(&e, '"'), inline("o"), "{s}");
    }
    assert!(e.take_copied().is_none());
    keys(&mut e, ":a\u{12}+");
    assert_eq!(e.line().text(), "a");
    assert_eq!(e.log().message, "clipboard: No provider");
}

#[test]
fn clipboard_is_read_and_filled() {
    let mut e = editor("one\ntwo\n");
    e.set_clipboard(Some(reg("", false)));
    keys(&mut e, "\"+p");
    assert_eq!(e.lines(), vec!["one", "two"]);
    keys(&mut e, "\"+yy");
    assert_eq!(held(&e, '"'), None);
    let r = e.take_copied().unwrap();
    assert_eq!((r.text.as_str(), r.linewise), ("one\n", true));
    assert!(e.take_copied().is_none());
    keys(&mut e, "j\"*p");
    assert_eq!(e.lines(), vec!["one", "two", "one"]);
    e.set_clipboard(Some(reg("far", false)));
    keys(&mut e, ":a\u{12}+");
    assert_eq!(e.line().text(), "afar");
    keys(&mut e, "\u{1b}gg\"+P");
    assert_eq!(e.lines()[0], "farone");
}

#[test]
fn searches_keep_the_register_of_their_operator() {
    let mut e = editor("one two\n");
    keys(&mut e, "\"kd/two\n");
    let reqs = e.take_searches();
    let last = reqs.last().unwrap();
    let op = NamedOperator { op: 'd', register: Some('k') };
    assert_eq!(last.purpose, SearchUse::Go { count: 1, op: Some(op) });
    e.finish_search(last, Ok(&Hits { lines: vec![vec![(4, 7)]] }));
    assert_eq!(e.lines(), vec!["two"]);
    assert_eq!(held(&e, 'k'), inline("one "));
    assert_eq!(e.live().pending.register, None);
}

#[test]
fn registers_are_put_in_the_line_and_listed() {
    let mut e = editor("one\ntwo\n");
    keys(&mut e, "\"ayyj\"9yw\"-yl");
    keys(&mut e, ":x\u{12}a\u{12}9\u{12}_");
    assert_eq!(e.line().text(), "xonetwo");
    keys(&mut e, "\u{1b}");
    e.ex_registers("");
    assert_eq!(e.panel().unwrap().lines, vec![
        "Type Name Content",
        "  c  \"\"   t",
        "  c  \"9   two",
        "  c  \"-   t",
        "  l  \"a   one^J",
        "  c  \"%   /t/a",
    ]);
    e.close_panel();
    e.ex_registers("a 9");
    assert_eq!(e.panel().unwrap().lines.len(), 3);
}

#[test]
fn reindent_without_rules_changes_nothing() {
    let mut e = editor("  one\ntwo\n");
    keys(&mut e, "yl==");
    assert_eq!(e.lines(), vec!["  one", "two"]);
    assert_eq!(held(&e, '"'), inline(" "));
    keys(&mut e, "Vj=");
    assert_eq!(e.live().mode, Mode::Normal);
    assert_eq!(e.lines(), vec!["  one", "two"]);
    assert_eq!(held(&e, '"'), inline(" "));
    keys(&mut e, "u");
    assert_eq!(e.log().message, "Already at oldest change");
}

#[test]
fn registers_stand_apart() {
    let mut r = Registers::new();
    assert!(r.get(None).is_none());
    assert!(!r.has_clipboard());
    r.put(Some('+'), reg("lost", false));
    assert!(r.get(Some('+')).is_none());
    r.put(Some('b'), reg("b", false));
    r.put(None, reg("x", false));
    assert_eq!(r.get(Some('b')).unwrap().text, "b");
    assert_eq!(r.get(Some('"')).unwrap().text, "x");
    r.put(Some('_'), reg("gone", false));
    r.put(Some('%'), reg("gone", false));
    assert!(r.get(Some('_')).is_none());
    assert!(r.get(Some('%')).is_none());
    assert_eq!(r.get(None).unwrap().text, "x");
}

#[test]
fn words_are_added_once() {
    let mut out = vec!["a".to_string()];
    assert!(!push_word("", "b", &mut out));
    assert!(!push_word("a", "b", &mut out));
    assert!(!push_word("b", "b", &mut out));
    assert!(push_word("c", "b", &mut out));
    assert_eq!(out, vec!["a", "c"]);
}
