use bfck::Args;
use bfck::RunMode;
use bfck::Tokens;
use bfck::ansi::clear_screen;
use bfck::ansi::move_cursor;

#[test]
fn clear_screen_is_the_viewport_erase_sequence() {
    assert_eq!(clear_screen(), "\u{1b}[2J\n");
}

#[test]
fn move_cursor_renders_both_coordinates() {
    assert_eq!(move_cursor(10, 3), "\u{1b}[10;3H\n");
    assert_eq!(move_cursor(0, 0), "\u{1b}[0;0H\n");
    assert_eq!(move_cursor(65535, 1), "\u{1b}[65535;1H\n");
}

#[test]
fn run_mode_with_source_and_assemble_flag() {
    let mode = Args::run_mode(true, Some("program.bf".to_string()), Some("out.s".to_string()));
    match mode {
        Some(RunMode::Assemble(source, output)) => {
            assert_eq!(source, "program.bf");
            assert_eq!(output.as_deref(), Some("out.s"));
        },
        _ => panic!("expected the assemble mode"),
    }
}

#[test]
fn run_mode_with_source_alone_compiles() {
    let mode = Args::run_mode(false, Some("program.bf".to_string()), None);
    match mode {
        Some(RunMode::Compile(source, output)) => {
            assert_eq!(source, "program.bf");
            assert!(output.is_none());
        },
        _ => panic!("expected the compile mode"),
    }
}

#[test]
fn run_mode_without_anything_starts_the_repl() {
    assert!(matches!(Args::run_mode(false, None, None), Some(RunMode::Repl)));
}

#[test]
fn run_mode_rejects_assemble_without_a_source() {
    assert!(Args::run_mode(true, None, None).is_none());
}

#[test]
fn tokens_equality_ignores_counts() {
    let a = Tokens::Increment(1);
    let mut b = Tokens::Increment(9);
    let c = Tokens::Decrement(9);
    assert!(a == b);
    assert!(a != c);
    assert_eq!(*b.inner(), 9);
    *b.inner() = 2;
    assert_eq!(*b.inner(), 2);
}

#[test]
fn tokens_from_byte_recognizes_the_eight_operations() {
    assert!(matches!(Tokens::from_byte(b'<'), Some(Tokens::MoveLeft(1))));
    assert!(matches!(Tokens::from_byte(b'>'), Some(Tokens::MoveRight(1))));
    assert!(matches!(Tokens::from_byte(b'+'), Some(Tokens::Increment(1))));
    assert!(matches!(Tokens::from_byte(b'-'), Some(Tokens::Decrement(1))));
    assert!(matches!(Tokens::from_byte(b'.'), Some(Tokens::Write(1))));
    assert!(matches!(Tokens::from_byte(b','), Some(Tokens::Read(1))));
    assert!(matches!(Tokens::from_byte(b'['), Some(Tokens::JumpIfZero(1))));
    assert!(matches!(Tokens::from_byte(b']'), Some(Tokens::JumpUnlessZero(1))));
    assert!(Tokens::from_byte(b'x').is_none());
}
