use bfck::Error;
use bfck::Input;
use bfck::Interpreter;
use bfck::Lexer;
use bfck::Parser;

fn check(input: &str, data: Vec<u8>) -> Parser<Interpreter> {
    let writer = String::new();
    let reader = Input::new(data);
    let interpreter = Interpreter::default();
    let mut parser = Parser::new(writer, reader, interpreter);
    let tokens = Lexer::tokenize(input);
    parser.interpret(tokens).unwrap();
    parser
}

fn run(input: &str, data: Vec<u8>) -> Result<(), Error> {
    let writer = String::new();
    let reader = Input::new(data);
    let interpreter = Interpreter::default();
    let mut parser = Parser::new(writer, reader, interpreter);
    let tokens = Lexer::tokenize(input);
    parser.interpret(tokens)
}

#[test]
fn move_out_of_bounds_should_grow() {
    let source = (0..20).map(|_| "<").collect::<String>();
    let parser = check(&source, Vec::new());
    assert_eq!(parser.instruction_handler().data_ptr, 12);
    assert_eq!(parser.instruction_handler().tape.len(), 48);

    let source = (0..20).map(|_| ">").collect::<String>();
    let parser = check(&source, Vec::new());
    assert_eq!(parser.instruction_handler().data_ptr, 36);
    assert_eq!(parser.instruction_handler().tape.len(), 48);
}

#[test]
fn increment_and_decrement_wrapping_cells() {
    let source = "+++>--->---++++";
    let parser = check(source, Vec::new());
    assert_eq!(parser.instruction_handler().data_ptr, 18);
    assert_eq!(parser.instruction_handler().tape[16], 3);
    assert_eq!(parser.instruction_handler().tape[17], 253);
    assert_eq!(parser.instruction_handler().tape[18], 1);
    assert_eq!(parser.instruction_handler().tape.len(), 32);
}

#[test]
fn write_chars() {
    let uppercase_a = (0..65).map(|_| "+").collect::<String>();
    let uppercase_b = (0..66).map(|_| "+").collect::<String>();
    let uppercase_c = (0..67).map(|_| "+").collect::<String>();
    let source = format!("{uppercase_a}.>{uppercase_b}.>{uppercase_c}.");
    let parser = check(&source, Vec::new());
    assert_eq!(parser.writer().as_str(), "ABC");
}

#[test]
fn jump_if_zero() {
    // the initial cell is zero, so the whole outer loop is skipped and only
    // the final sixty five increments and the write run
    let uppercase_a = (0..65).map(|_| "+").collect::<String>();
    let source = format!("[<<<<>[>>]]{uppercase_a}.");
    let parser = check(&source, Vec::new());
    assert_eq!(parser.writer().as_str(), "A");
    assert_eq!(parser.instruction_ptr(), 8);

    // a non-zero cell falls through the opens, writes, and falls through
    // the closes on a zero cell, then writes the first cell again
    let source = format!("+[[>{uppercase_a}.>]]<.");
    let parser = check(&source, Vec::new());
    assert_eq!(parser.writer().as_str(), "AA");
    assert_eq!(parser.instruction_ptr(), 9);

    // count five down to zero, then write
    let source = format!("+++++[-]{uppercase_a}.");
    let parser = check(&source, Vec::new());
    assert_eq!(parser.writer().as_str(), "A");
    assert_eq!(parser.instruction_ptr(), 6);
}

#[test]
fn unmatched_open_reports_position() {
    assert_eq!(
        run("<<[<", Vec::new()),
        Err(Error::UnmatchedOpenBracket(1))
    );
}

#[test]
fn unmatched_close_reports_position() {
    assert_eq!(
        run("+]", Vec::new()),
        Err(Error::UnmatchedCloseBracket(1))
    );
}

#[test]
fn hello_world() {
    let source = "initialise the cells\n  ++++++++\n  [>++++[>++>+++>+++>+<<<<-]>+>+>->>+[<]<-]\nemit the message\n  >>* >---* +++++++** +++* >>* <-* <* +++* ------* --------* >>+* >++*\n"
        .replace('*', ".");
    let parser = check(&source, Vec::new());
    assert_eq!(parser.writer().as_str(), "Hello World!\n");

    let source = "++++++++[>++++[>++>+++>+++>+<<<<-]>+>+>->>+[<]<-]>>.>---.+++++++..+++.>>.<-.<.+++.------.--------.>>+.>++.";
    let parser = check(source, Vec::new());
    assert_eq!(parser.writer().as_str(), "Hello World!\n");
}

#[test]
fn add_two_and_five() {
    let source = "++>+++++[<+>-]<.";
    let parser = check(source, Vec::new());
    assert_eq!(parser.writer().as_str(), "\u{7}");
}

#[test]
fn read_overwrites_the_current_cell() {
    // each read overwrites the last, so three reads keep only the third byte
    let parser = check(",,,.", vec![1, 2, 65]);
    assert_eq!(parser.writer().as_str(), "A");
}

#[test]
fn read_past_end_of_input_fails() {
    assert_eq!(run(",,", vec![7]), Err(Error::UnexpectedEndOfInput));
}

#[test]
fn moves_net_displacement() {
    // net displacement of +2 from the midpoint, no growth
    let parser = check("><<>>>", Vec::new());
    assert_eq!(parser.instruction_handler().data_ptr, 18);
    assert_eq!(parser.instruction_handler().tape.len(), 32);
}

#[test]
fn tape_length_stays_a_multiple_of_the_increment() {
    let source = (0..100).map(|_| "<").collect::<String>();
    let parser = check(&source, Vec::new());
    assert_eq!(parser.instruction_handler().tape.len() % 16, 0);
    let source = (0..100).map(|_| ">").collect::<String>();
    let parser = check(&source, Vec::new());
    assert_eq!(parser.instruction_handler().tape.len() % 16, 0);
}

#[test]
fn cell_wraps_below_zero() {
    let parser = check("-", Vec::new());
    assert_eq!(parser.instruction_handler().tape[16], 255);
}

#[test]
fn net_delta_modulo_wrap_around() {
    // 300 increments and 2 decrements: 298 modulo 256 is 42
    let incs = (0..300).map(|_| "+").collect::<String>();
    let source = format!("{incs}--");
    let parser = check(&source, Vec::new());
    assert_eq!(parser.instruction_handler().tape[16], 42);
}
