use nxvim_core::batch::TextEdit;
use nxvim_core::buffer::{Buffer, BufferKind, DirEntry, DiskChange, FileStat};
use nxvim_core::changes::align_right;
use nxvim_core::eol::{apply_eol, detect_fileformat, normalize_eol, strip_eol};
use nxvim_core::idmap::IdMap;
use nxvim_core::nav::{char_class, CharClass};
use nxvim_core::options::{FileFormat, FoldMethod};
use nxvim_core::paths::{normalize_path, same_path};
use nxvim_core::points::{add_to_changelist, shift_changelist, shift_point};
use nxvim_core::strings::{chars_of, fmt_i64, fmt_u64, parse_u64, trim};
use nxvim_core::typing::fill_indent;
use nxvim_core::unicode::{
    byte_at_virtcol, floor_grapheme, next_grapheme, prev_grapheme, virtcol,
};
use nxvim_core::window::Cursor;
use nxvim_core::wrap::wrap_to_width;

fn buffer(text: &str) -> Buffer {
    Buffer::from_file(
        "f".to_string(),
        Some((text.to_string(), "utf-8".to_string(), false)),
        None,
    )
}

#[test]
fn numbers_read_back_what_they_write() {
    for n in [0u64, 7, 10, 1234567890, u64::MAX] {
        let s = fmt_u64(n);
        assert_eq!(s, n.to_string());
        let v = chars_of(&s);
        assert_eq!(parse_u64(&v, 0, v.len()), Some(n));
    }
    assert_eq!(fmt_i64(i64::MIN), i64::MIN.to_string());
    let over = chars_of("18446744073709551616");
    assert_eq!(parse_u64(&over, 0, over.len()), None);
    let plus = chars_of("+12");
    assert_eq!(parse_u64(&plus, 0, 3), Some(12));
    let bad = chars_of("1x");
    assert_eq!(parse_u64(&bad, 0, 2), None);
}

#[test]
fn trimming_takes_unicode_blanks() {
    assert_eq!(trim(" \t a b\u{a0}\n"), "a b");
    assert_eq!(trim("\u{2003}"), "");
}

#[test]
fn formats_are_detected_by_the_first_break() {
    assert_eq!(detect_fileformat("a\nb\r\n"), FileFormat::Unix);
    assert_eq!(detect_fileformat("a\r\nb\n"), FileFormat::Dos);
    assert_eq!(detect_fileformat("a\rb\r"), FileFormat::Mac);
    assert_eq!(detect_fileformat("a"), FileFormat::Unix);
}

#[test]
fn breaks_survive_a_round_trip() {
    for (text, ff) in [
        ("a\nb\n", FileFormat::Unix),
        ("a\r\nb\r\n", FileFormat::Dos),
        ("a\rb\r", FileFormat::Mac),
    ] {
        let inner = normalize_eol(text, ff);
        assert_eq!(inner, "a\nb\n");
        assert_eq!(apply_eol(&inner, ff), text);
    }
    assert_eq!(strip_eol("x\r\n"), "x");
    assert_eq!(strip_eol("x\n"), "x");
    assert_eq!(strip_eol("x"), "x");
}

#[test]
fn labels_name_formats_and_fold_methods() {
    assert_eq!(FileFormat::from_label(&"dos".to_string()), Some(FileFormat::Dos));
    assert_eq!(FileFormat::from_label(&"DOS".to_string()), None);
    assert_eq!(FoldMethod::from_label(&"marker".to_string()), Some(FoldMethod::Marker));
    assert_eq!(FoldMethod::from_label(&"diff".to_string()), None);
}

#[test]
fn graphemes_are_stepped_whole() {
    let s = "ae\u{301}\u{1f468}\u{200d}\u{1f469}z";
    assert_eq!(next_grapheme(s, 0), 1);
    assert_eq!(next_grapheme(s, 1), 4);
    assert_eq!(next_grapheme(s, 4), 15);
    assert_eq!(prev_grapheme(s, 15), 4);
    assert_eq!(floor_grapheme(s, 3), 1);
    assert_eq!(prev_grapheme(s, 0), 0);
    assert_eq!(next_grapheme(s, s.len()), s.len());
}

#[test]
fn screen_columns_count_tabs_and_wide_cells() {
    assert_eq!(virtcol("\tx", 1, 8), 8);
    assert_eq!(virtcol("ab\tx", 3, 4), 4);
    assert_eq!(virtcol("\u{4e2d}x", 3, 8), 2);
    assert_eq!(byte_at_virtcol("\tx", 3, 8), 0);
    assert_eq!(byte_at_virtcol("\tx", 8, 8), 1);
    assert_eq!(byte_at_virtcol("ab", 9, 8), 2);
}

#[test]
fn rows_keep_words_whole() {
    assert_eq!(wrap_to_width("one two three", 8), vec!["one two", "three"]);
    assert_eq!(wrap_to_width("aa bb cc", 5), vec!["aa", "bb cc"]);
    assert_eq!(wrap_to_width(" abcd ef", 5), vec![" abcd", "ef"]);
    assert_eq!(wrap_to_width("hello world", 5), vec!["hello", "world"]);
    assert_eq!(wrap_to_width("hello  world", 5), vec!["hello", "", "world"]);
    assert_eq!(wrap_to_width(" abcdefgh", 5), vec![" abcd", "efgh"]);
    assert_eq!(wrap_to_width("abcdefgh", 3), vec!["abc", "def", "gh"]);
    assert_eq!(wrap_to_width("", 5), vec![""]);
    assert_eq!(wrap_to_width("\u{4e2d}\u{4e2d}", 1), vec!["\u{4e2d}", "\u{4e2d}"]);
}

#[test]
fn indent_mixes_tabs_and_blanks() {
    assert_eq!(fill_indent(0, 10, 8, false), "\t  ");
    assert_eq!(fill_indent(0, 10, 8, true), "          ");
    assert_eq!(fill_indent(3, 8, 8, false), "\t");
    assert_eq!(fill_indent(5, 5, 8, false), "");
}

#[test]
fn classes_of_characters() {
    assert_eq!(char_class(' '), CharClass::Blank);
    assert_eq!(char_class('_'), CharClass::Word);
    assert_eq!(char_class('\u{e9}'), CharClass::Word);
    assert_eq!(char_class('+'), CharClass::Punct);
}

#[test]
fn a_read_buffer_ends_in_a_line_feed() {
    let b = buffer("a\r\nb");
    assert_eq!(b.text_string(), "a\nb\n");
    assert_eq!(b.options.fileformat, FileFormat::Dos);
    assert_eq!(b.to_save_text(), "a\r\nb\r\n");
    assert_eq!(b.line_count(), 2);
    assert_eq!(b.line(1), "b");
    assert_eq!(b.line(9), "");
    assert_eq!(b.line_len(0), 1);
    assert!(!b.modified);
    assert_eq!(b.lines(), vec!["a", "b"]);
}

#[test]
fn edits_are_journaled() {
    let mut b = buffer("one\ntwo\n");
    b.insert(3, "!\n");
    assert_eq!(b.text_string(), "one!\n\ntwo\n");
    assert!(b.modified);
    assert_eq!(b.changedtick, 1);
    let batch = b.take_edits();
    assert_eq!(batch.edits.len(), 1);
    assert!(!batch.resync);
    assert!(!batch.is_empty());
    let e = &batch.edits[0];
    assert_eq!((e.start_byte, e.old_end_byte, e.new_end_byte), (3, 3, 5));
    assert_eq!((e.start_point, e.old_end_point, e.new_end_point), ((0, 3), (0, 3), (1, 0)));
    assert_eq!(e.text, "!\n");
    assert!(b.take_edits().is_empty());
    assert_eq!(b.take_lsp_edits().edits.len(), 1);
    assert_eq!(b.take_lua_ts_edits().edits.len(), 1);
    assert_eq!(b.take_jump_edits().len(), 1);
    b.remove(3, 5);
    assert_eq!(b.text_string(), "one\ntwo\n");
    b.mark_resync();
    assert!(b.take_edits().resync);
}

#[test]
fn normalizing_adds_a_missing_line_feed() {
    let mut b = buffer("one\n");
    b.remove(0, 4);
    b.normalize();
    assert_eq!(b.text_string(), "\n");
    let before = b.changedtick;
    b.normalize();
    assert_eq!(b.changedtick, before);
}

#[test]
fn targets_of_a_write() {
    let mut b = Buffer::empty();
    assert_eq!(b.save_target(None), Err("E32: No file name".to_string()));
    assert_eq!(b.save_target(Some("x".to_string())), Ok("x".to_string()));
    b.set_path(Some("y".to_string()));
    assert_eq!(b.save_target(None), Ok("y".to_string()));
    let stat = FileStat { mtime: Some(5), size: 1 };
    b.mark_written("z".to_string(), Some(stat));
    assert_eq!(b.path, Some("z".to_string()));
    assert_eq!(b.disk_change(Some(stat)), DiskChange::Unchanged);
    assert_eq!(b.disk_change(None), DiskChange::Vanished);
    assert_eq!(
        b.disk_change(Some(FileStat { mtime: Some(6), size: 1 })),
        DiskChange::Changed
    );
    assert!(b.disk_changed(None));
}

#[test]
fn listings_put_directories_first() {
    let entry = |is_dir: bool, name: &str| DirEntry { is_dir, name: name.to_string() };
    let b = Buffer::from_dir_entries(
        "/d".to_string(),
        vec![entry(false, "b.txt"), entry(true, "Zoo"), entry(false, "A.txt"), entry(true, "bar")],
    );
    assert_eq!(b.lines(), vec!["../", "bar/", "Zoo/", "A.txt", "b.txt"]);
    assert!(b.read_only());
    assert!(matches!(b.kind, BufferKind::Directory(_)));
    assert_eq!(b.dir().map(|s| s.as_str()), Some("/d"));
}

#[test]
fn pictures_are_not_text() {
    let b = Buffer::from_image_file("p.png".to_string(), None);
    assert!(b.is_image());
    assert!(b.read_only());
    assert!(!b.is_terminal());
    assert_eq!(b.view_id(), None);
    assert_eq!(b.text_string(), "\n");
}

#[test]
fn points_follow_edits() {
    // Two lines put in before a point move it down.
    assert_eq!(shift_point((5, 2), (1, 0), (1, 0), (3, 0)), Some((7, 2)));
    // A point before the edit stays.
    assert_eq!(shift_point((0, 4), (1, 0), (1, 0), (3, 0)), Some((0, 4)));
    // A point on a deleted line goes.
    assert_eq!(shift_point((2, 1), (1, 0), (4, 0), (1, 0)), None);
    // What an insertion did a removal undoes.
    let there = shift_point((1, 5), (1, 2), (1, 2), (1, 4)).unwrap();
    assert_eq!(shift_point(there, (1, 2), (1, 4), (1, 2)), Some((1, 5)));
}

#[test]
fn the_change_list_keeps_one_entry_per_line() {
    let mut list = vec![(0, 1), (4, 0)];
    add_to_changelist(&mut list, (4, 3));
    assert_eq!(list, vec![(0, 1), (4, 3)]);
    for n in 10..200 {
        add_to_changelist(&mut list, (n, 0));
    }
    assert_eq!(list.len(), 100);
    assert_eq!(list[99], (199, 0));
    shift_changelist(&mut list, (0, 0), (0, 0), (1, 0));
    assert_eq!(list[99], (200, 0));
}

#[test]
fn maps_of_ids_are_in_order() {
    let mut m: IdMap<&str> = IdMap::new();
    m.insert(5, "five");
    m.insert(1, "one");
    m.insert(3, "three");
    m.insert(3, "drei");
    assert_eq!(m.len(), 3);
    assert_eq!((m.id_at(0), m.id_at(1), m.id_at(2)), (1, 3, 5));
    assert_eq!(m.get(3), Some(&"drei"));
    assert_eq!(m.remove(1), Some("one"));
    assert_eq!(m.remove(1), None);
    m.insert(9, "nine");
    m.keep_only(&vec![9, 3, 77]);
    assert_eq!((m.len(), m.contains(5), m.contains(9)), (2, false, true));
}

#[test]
fn words_and_objects_of_a_text() {
    let b = buffer("foo(bar, \"b a z\")\n\nEnd here. Next one.\n");
    assert_eq!(b.word_forward(0), 3);
    assert_eq!(b.word_forward(4), 7);
    assert_eq!(b.word_backward(4), 3);
    assert_eq!(b.word_end(0), 2);
    assert_eq!(b.word_object(5, true, 1, false), (4, 7));
    assert_eq!(b.pair_object(5, true, '(', ')', false), Some((4, 16, false)));
    assert_eq!(b.pair_object(5, false, '(', ')', false), Some((3, 17, false)));
    assert_eq!(b.quote_object(Cursor { line: 0, col: 12 }, true, b'"'), Some((10, 15)));
    assert_eq!(b.paragraph_object(0, true, 1), (0, 0));
    assert_eq!(b.paragraph_object(2, true, 1), (2, 2));
    let start = b.line_start(2);
    assert_eq!(b.sentence_object(2, start, true, 1), Some((start, start + 9)));
}

#[test]
fn batches_are_made_from_the_end() {
    let mut b = buffer("one two three\n");
    let edit = |start: usize, end: usize, text: &str| TextEdit {
        start,
        end,
        text: text.to_string(),
    };
    let at = b.apply_batch(
        vec![edit(0, 3, "1"), edit(8, 13, "3\n3"), edit(4, 7, "2")],
        Cursor { line: 0, col: 13 },
    );
    assert_eq!(b.text_string(), "1 2 3\n3\n");
    // The cursor was after all of the text and is so still.
    assert_eq!(at, Cursor { line: 1, col: 1 });
    b.apply_batch(vec![edit(2, 2, "a"), edit(2, 2, "b")], Cursor { line: 0, col: 0 });
    assert_eq!(b.line(0), "1 ba2 3");
    b.apply_batch(vec![edit(900, 5, "x")], Cursor { line: 0, col: 0 });
    assert_eq!(b.line_count(), 3);
}

#[test]
fn lines_are_replaced_whole() {
    let lines = |v: &[&str]| v.iter().map(|s| s.to_string()).collect::<Vec<String>>();
    let mut b = buffer("a\nb\nc\n");
    b.set_lines(1, 2, &lines(&["x", "y"]));
    assert_eq!(b.lines(), vec!["a", "x", "y", "c"]);
    b.set_lines(3, 99, &lines(&[]));
    assert_eq!(b.lines(), vec!["a", "x", "y"]);
    b.set_lines(9, 9, &lines(&["end"]));
    assert_eq!(b.lines(), vec!["a", "x", "y", "end"]);
    b.set_lines(0, 99, &lines(&[]));
    assert_eq!(b.lines(), vec![""]);
}

#[test]
fn drained_edits_rebuild_the_text() {
    let mut b = buffer("one\ntwo\n");
    let mut copy = b.text_string();
    b.insert(3, "!\n");
    b.remove(0, 1);
    b.take_lsp_edits();
    b.insert_char(2, '\u{e9}');
    let len = b.len_bytes();
    b.remove(len - 1, len);
    b.normalize();
    let batch = b.take_edits();
    assert!(!batch.resync);
    for e in &batch.edits {
        copy.replace_range(e.start_byte..e.old_end_byte, &e.text);
    }
    assert_eq!(copy, b.text_string());
    assert!(b.take_edits().is_empty());
    assert_eq!(b.lines().join("\n") + "\n", b.text_string());
}

#[test]
fn candidates_come_once_and_in_order() {
    let b = buffer("foo bar foo\nbaz_1 bar b\n");
    assert_eq!(b.buffer_candidates("b"), vec!["foo", "bar", "baz_1"]);
    assert_eq!(b.buffer_candidates("foo"), vec!["bar", "baz_1", "b"]);
}

#[test]
fn paths_are_compared_by_what_they_say() {
    assert!(same_path("", "./a", "a"));
    assert!(same_path("", "/x/../y//z", "/y/z/."));
    assert!(same_path("", "/..", "/"));
    assert!(!same_path("", "../a", "a"));
    assert!(!same_path("", "/a", "a"));
    assert!(same_path("/w/d", "a", "/w/d/a"));
    assert!(same_path("/w/d/", "../a", "/w/a"));
    assert!(!same_path("/w/d", "/a", "a"));
    assert_eq!(normalize_path("../../b/c/..").parts, vec!["..", "..", "b"]);
    for p in ["../../b/c/..", "/a//./b/", "/..", "", ".", "a"] {
        let once = normalize_path(p).to_path();
        assert_eq!(normalize_path(&once).to_path(), once);
    }
    assert_eq!(normalize_path("/a//./b/").to_path(), "/a/b");
}

#[test]
fn texts_are_aligned_to_the_right() {
    assert_eq!(align_right("7", 3), "  7");
    assert_eq!(align_right("1234", 3), "1234");
}
