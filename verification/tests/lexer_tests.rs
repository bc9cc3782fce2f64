use bfck::Lexer;
use bfck::Token;

fn counts(tokens: &[Token]) -> Vec<usize> {
    tokens
        .iter()
        .map(|t| {
            let mut t = *t;
            *t.inner()
        })
        .collect()
}

fn rendered(tokens: &[Token]) -> String {
    let mut s = String::new();
    for t in tokens {
        s.push_str(t.render().as_str());
    }
    s
}

#[test]
fn empty_input() {
    let tokens = Lexer::tokenize("     ");
    assert!(tokens.is_empty());
}

#[test]
fn single_spaced_token() {
    let tokens = Lexer::tokenize("<<       <<");
    assert_eq!(tokens.len(), 1);
    assert!(matches!(tokens[0], Token::MoveLeft(4)));
}

#[test]
fn changing_tokens() {
    let tokens = Lexer::tokenize("<<  >>");
    assert_eq!(tokens.len(), 2);
    assert!(matches!(tokens[0], Token::MoveLeft(2)));
    assert!(matches!(tokens[1], Token::MoveRight(2)));
}

#[test]
fn ignoring_non_tokens() {
    let tokens = Lexer::tokenize(" _*  <<random_!?anything!!>!!>");
    assert_eq!(tokens.len(), 2);
    assert!(matches!(tokens[0], Token::MoveLeft(2)));
    assert!(matches!(tokens[1], Token::MoveRight(2)));
}

#[test]
fn pretty_hello_world() {
    let pretty = "initialise the cells\n  ++++++++\n  [>++++[>++>+++>+++>+<<<<-]>+>+>->>+[<]<-]\nemit the message\n  >>* >---* +++++++** +++* >>* <-* <* +++* ------* --------* >>+* >++*\n"
        .replace('*', ".");
    let inline = "++++++++[>++++[>++>+++>+++>+<<<<-]>+>+>->>+[<]<-]>>.>---.+++++++..+++.>>.<-.<.+++.------.--------.>>+.>++.";
    let from_pretty = Lexer::tokenize(&pretty);
    let from_inline = Lexer::tokenize(inline);
    assert_eq!(from_pretty.len(), from_inline.len());
    for (a, b) in from_pretty.iter().zip(from_inline.iter()) {
        assert!(a == b);
    }
    assert_eq!(counts(&from_pretty), counts(&from_inline));
}

#[test]
fn all_eight_operations_tokenize() {
    let tokens = Lexer::tokenize("<>+-.,[]");
    assert_eq!(tokens.len(), 8);
    assert!(matches!(tokens[0], Token::MoveLeft(1)));
    assert!(matches!(tokens[1], Token::MoveRight(1)));
    assert!(matches!(tokens[2], Token::Increment(1)));
    assert!(matches!(tokens[3], Token::Decrement(1)));
    assert!(matches!(tokens[4], Token::Write(1)));
    assert!(matches!(tokens[5], Token::Read(1)));
    assert!(matches!(tokens[6], Token::JumpIfZero(1)));
    assert!(matches!(tokens[7], Token::JumpUnlessZero(1)));
}

#[test]
fn tokenize_twice_yields_identical_sequences() {
    let source = ">>>-----..[+,]  comment <<";
    let first = Lexer::tokenize(source);
    let second = Lexer::tokenize(source);
    assert_eq!(first.len(), second.len());
    for (a, b) in first.iter().zip(second.iter()) {
        assert!(a == b);
    }
    assert_eq!(counts(&first), counts(&second));
}

#[test]
fn rendering_reconstructs_canonical_run_lengths() {
    let tokens = Lexer::tokenize(">>>-----..");
    assert_eq!(rendered(&tokens), "3>5-2.");
    let with_comments = Lexer::tokenize(" > >\t> --- -- .  . end");
    assert_eq!(rendered(&with_comments), "3>5-2.");
    let all_kinds = Lexer::tokenize("[[]],,<+");
    assert_eq!(rendered(&all_kinds), "2[2]2,1<1+");
}

#[test]
fn equality_ignores_counts() {
    let a = Token::MoveLeft(1);
    let b = Token::MoveLeft(7);
    let c = Token::MoveRight(1);
    assert!(a == b);
    assert!(a != c);
}
