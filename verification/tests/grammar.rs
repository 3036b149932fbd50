use nxvim_core::again::repeat_keys;
use nxvim_core::command::{
    command_status, is_clipboard_register, is_jumpable_mark, is_readonly_register,
    is_register_name, is_settable_mark, leading_count_len, parse_step, CommandStatus, FindKind,
    Motion, NormalCmd, ObjectKind, ParseStep, PendingCommand, ResolvedCommand, Stage, WindowCmd,
};
use nxvim_core::ex::{
    ex_name, parse_count_arg, parse_number, parse_resize, parse_sleep, split_ex, ExName, ResizeAsk,
};
use nxvim_core::input::{Key, KeyCode};
use nxvim_core::layout::SplitDir;
use nxvim_core::mode::Mode;
use nxvim_core::options::{BufferOptions, NumOp, Options, SetOp, WindowOptions};
use nxvim_core::search::{parse_offset, parse_signed, split_search_offset, SearchDir, SearchOffset};
use nxvim_core::searching::{search_ignorecase, word_at};
use nxvim_core::setting::{resolve_set, split_spaces, BoolName, NumName, SetCmd, Settings};

fn keys(s: &str) -> Vec<Key> {
    s.chars()
        .map(|c| match c {
            '\u{1b}' => Key::new(KeyCode::Esc),
            '\u{17}' => Key::ctrl('w'),
            c => Key::char(c),
        })
        .collect()
}

fn status(s: &str) -> CommandStatus {
    command_status(Mode::Normal, &keys(s))
}

#[test]
fn runs_of_keys_are_told_apart() {
    assert_eq!(status(""), CommandStatus::Complete);
    assert_eq!(status("dw"), CommandStatus::Complete);
    assert_eq!(status("d"), CommandStatus::Prefix);
    assert_eq!(status("2d3w"), CommandStatus::Complete);
    assert_eq!(status("dwx"), CommandStatus::Complete);
    assert_eq!(status("\"a"), CommandStatus::Prefix);
    assert_eq!(status("f"), CommandStatus::Prefix);
    assert_eq!(status("\u{17}s"), CommandStatus::Complete);
    assert_eq!(status("d\u{1b}"), CommandStatus::Invalid);
    assert_eq!(command_status(Mode::Visual, &keys("iw")), CommandStatus::Complete);
}

fn resolve(mode: Mode, s: &str) -> (PendingCommand, ParseStep) {
    let mut pending = PendingCommand::default();
    let mut last = ParseStep::Reset;
    for key in keys(s) {
        last = parse_step(mode, &pending, key);
        if let ParseStep::Prefix(p) = last {
            pending = p;
        }
    }
    (pending, last)
}

#[test]
fn commands_are_resolved() {
    let (p, step) = resolve(Mode::Normal, "2d3w");
    assert_eq!((p.op_count, p.count, p.operator), (Some(2), Some(3), Some('d')));
    assert!(matches!(step, ParseStep::Complete(ResolvedCommand::Motion(Motion::Word))));
    let (_, step) = resolve(Mode::Normal, "dd");
    assert!(matches!(step, ParseStep::Complete(ResolvedCommand::DoubledOperator('d'))));
    let (_, step) = resolve(Mode::Normal, "ci\"");
    assert!(matches!(
        step,
        ParseStep::Complete(ResolvedCommand::TextObject { ia: 'i', kind: ObjectKind::Quote('"') })
    ));
    let (_, step) = resolve(Mode::Normal, "tx");
    assert!(matches!(
        step,
        ParseStep::Complete(ResolvedCommand::Motion(Motion::Find(_, 'x')))
    ));
    let (_, step) = resolve(Mode::Normal, "\u{17}v");
    assert!(matches!(
        step,
        ParseStep::Complete(ResolvedCommand::Window(WindowCmd::Split(SplitDir::Vertical)))
    ));
    let (_, step) = resolve(Mode::Normal, "d/");
    assert!(matches!(
        step,
        ParseStep::Complete(ResolvedCommand::OperatorSearch { op: 'd', dir: SearchDir::Forward })
    ));
    let (p, _) = resolve(Mode::Normal, "g");
    assert_eq!(p.stage, Stage::GPending);
    let (_, step) = resolve(Mode::Normal, "ma");
    assert!(matches!(step, ParseStep::Complete(ResolvedCommand::SetMark('a'))));
    let (_, step) = resolve(Mode::Visual, "y");
    assert!(matches!(step, ParseStep::Complete(ResolvedCommand::VisualOperate('y'))));
    let (_, step) = resolve(Mode::Normal, "u");
    assert!(matches!(step, ParseStep::Complete(ResolvedCommand::Normal(NormalCmd::Undo))));
    assert!(matches!(
        parse_step(Mode::Normal, &PendingCommand::default(), Key::new(KeyCode::Esc)),
        ParseStep::Cancel
    ));
}

#[test]
fn finds_are_reversed_twice() {
    for c in ['f', 't', 'F', 'T'] {
        let k = FindKind::from_key(c).unwrap();
        assert_eq!(k.reversed().reversed(), k);
        assert_ne!(k.reversed().forward(), k.forward());
        assert_eq!(k.till(), c == 't' || c == 'T');
    }
}

#[test]
fn names_of_registers_and_marks() {
    assert!(is_register_name('a') && is_register_name('"') && !is_register_name('!'));
    assert!(is_readonly_register('%') && !is_readonly_register('a'));
    assert!(is_clipboard_register(Some('+')) && !is_clipboard_register(None));
    assert!(is_settable_mark('Q') && !is_settable_mark('<'));
    assert!(is_jumpable_mark('<') && is_jumpable_mark('`') && !is_jumpable_mark('1'));
}

#[test]
fn a_count_takes_the_place_of_the_recorded_one() {
    let last = keys("3x");
    assert_eq!(leading_count_len(&last), 1);
    assert_eq!(repeat_keys(&last, None), last);
    assert_eq!(repeat_keys(&last, Some(12)), keys("12x"));
    assert_eq!(leading_count_len(&keys("0")), 0);
    assert_eq!(leading_count_len(&keys("10j")), 2);
}

#[test]
fn commands_are_split_into_parts() {
    assert_eq!(
        split_ex("w! a b "),
        ("w".to_string(), true, "a b".to_string())
    );
    assert_eq!(split_ex("'<,'>d"), (String::new(), false, "'<,'>d".to_string()));
    assert_eq!(ex_name("bNext"), ExName::Bprev);
    assert_eq!(ex_name("Write"), ExName::Unknown);
}

#[test]
fn arguments_of_commands() {
    assert_eq!(parse_count_arg(" 3 "), 3);
    assert_eq!(parse_count_arg("0"), 1);
    assert_eq!(parse_count_arg("x"), 1);
    assert_eq!(parse_number("+5"), Some(5));
    assert_eq!(parse_number("-5"), None);
    assert_eq!(parse_sleep(""), Ok(1000));
    assert_eq!(parse_sleep("2"), Ok(2000));
    assert_eq!(parse_sleep("250 m"), Ok(250));
    assert_eq!(parse_sleep("x"), Err("E475: Invalid argument: x".to_string()));
    assert_eq!(parse_sleep("18446744073709551615"), Ok(u64::MAX));
}

#[test]
fn arguments_of_resizes() {
    assert_eq!(parse_resize("", 7), ResizeAsk::Maximize);
    assert_eq!(parse_resize("10", 7), ResizeAsk::By(3));
    assert_eq!(parse_resize("+4", 7), ResizeAsk::By(4));
    assert_eq!(parse_resize("-4", 7), ResizeAsk::By(-4));
    assert_eq!(parse_resize("ten", 7), ResizeAsk::Bad);
}

#[test]
fn search_lines_are_split() {
    assert_eq!(
        split_search_offset("pat/e+2", '/'),
        ("pat".to_string(), SearchOffset::End(2))
    );
    assert_eq!(
        split_search_offset("a\\/b", '/'),
        ("a\\/b".to_string(), SearchOffset::Bare)
    );
    assert_eq!(split_search_offset("x?b", '?'), ("x".to_string(), SearchOffset::Start(0)));
    assert_eq!(parse_offset("-3"), SearchOffset::Line(-3));
    assert_eq!(parse_offset("zz"), SearchOffset::Bare);
    assert_eq!(parse_offset("--3"), SearchOffset::Bare);
    assert_eq!(parse_offset("+-3"), SearchOffset::Bare);
    assert_eq!(parse_offset("e-2"), SearchOffset::End(-2));
    assert_eq!(parse_offset("b3"), SearchOffset::Start(3));
    assert_eq!(parse_offset("s+"), SearchOffset::Start(1));
    assert_eq!(parse_offset("e--2"), SearchOffset::Bare);
    assert_eq!(parse_offset("ex"), SearchOffset::Bare);
    assert_eq!(parse_signed("-12"), Some(-12));
    assert_eq!(parse_signed("+-1"), None);
    assert_eq!(parse_signed("+"), Some(1));
    assert_eq!(parse_signed(""), None);
    assert_eq!(SearchDir::Forward.opposite().opposite(), SearchDir::Forward);
    assert_eq!(SearchDir::Backward.prefix(), '?');
}

#[test]
fn cases_are_folded_unless_the_pattern_says_otherwise() {
    let mut o = Options::default();
    assert!(!search_ignorecase(&o, "abc"));
    o.ignorecase = true;
    assert!(search_ignorecase(&o, "aBc"));
    o.smartcase = true;
    assert!(!search_ignorecase(&o, "aBc"));
    assert!(search_ignorecase(&o, "abc"));
}

#[test]
fn words_at_a_column() {
    assert_eq!(word_at("foo bar", 1), Some("foo".to_string()));
    assert_eq!(word_at("foo  bar", 3), Some("bar".to_string()));
    assert_eq!(word_at("foo  ", 3), None);
    assert_eq!(word_at("\u{e9}t\u{e9}!", 2), Some("\u{e9}t\u{e9}".to_string()));
}

#[test]
fn options_are_named_and_set() {
    assert_eq!(resolve_set("nu"), Some(SetCmd::Bool(BoolName::Number, SetOp::On)));
    assert_eq!(resolve_set("nonu"), Some(SetCmd::Bool(BoolName::Number, SetOp::Off)));
    assert_eq!(resolve_set("rnu!"), Some(SetCmd::Bool(BoolName::RelativeNumber, SetOp::Toggle)));
    assert_eq!(resolve_set("invhls"), Some(SetCmd::Bool(BoolName::HlSearch, SetOp::Toggle)));
    assert_eq!(resolve_set("et?"), Some(SetCmd::Bool(BoolName::ExpandTab, SetOp::Query)));
    assert_eq!(resolve_set("ts=4"), Some(SetCmd::Num(NumName::TabStop, NumOp::Assign(4))));
    assert_eq!(resolve_set("sw?"), Some(SetCmd::Num(NumName::ShiftWidth, NumOp::Query)));
    assert_eq!(resolve_set("ts=x"), None);
    assert_eq!(resolve_set("bogus"), None);
    assert_eq!(split_spaces("  a  b\t"), vec!["a", "b"]);

    let mut s = Settings {
        win: WindowOptions::default(),
        global: Options::default(),
        buf: BufferOptions::default(),
    };
    let before = s;
    s.apply_set_bool(BoolName::WrapScan, SetOp::Toggle);
    assert!(!s.global.wrapscan);
    s.apply_set_bool(BoolName::WrapScan, SetOp::Toggle);
    assert_eq!(s, before);
    assert_eq!(s.apply_set_bool(BoolName::Number, SetOp::Query), Some("nonumber".to_string()));
    assert_eq!(
        s.apply_set_num(NumName::TabStop, NumOp::Assign(0)),
        Some("E487: Argument must be positive: tabstop=0".to_string())
    );
    assert_eq!(s.apply_set_num(NumName::SoftTabStop, NumOp::Assign(-1)), None);
    assert_eq!(
        s.apply_set_num(NumName::SoftTabStop, NumOp::Query),
        Some("softtabstop=-1".to_string())
    );
}
