use mrbasm::lexer::{LexError, Lexer, Pos, Token};

fn scan_ok(src: &str) -> Vec<(Token, String, usize)> {
    let mut l = Lexer::new(src);
    let n = l.scan().expect("scan should succeed");
    assert_eq!(n, l.tokens.len());
    l.tokens
        .iter()
        .map(|p| (p.token, p.lexeme.clone(), p.line))
        .collect()
}

fn scan_err(src: &str) {
    let mut l = Lexer::new(src);
    assert!(l.scan().is_err(), "scan of {:?} should fail", src);
}

#[test]
fn register_token_from_r_and_digits() {
    let toks = scan_ok("R5");
    assert_eq!(toks.len(), 2);
    assert_eq!(toks[0], (Token::Reg, String::from("R5"), 1));
    assert_eq!(toks[1].0, Token::Eof);
}

#[test]
fn opcode_token_from_r_without_digit() {
    let toks = scan_ok("RETURN");
    assert_eq!(toks.len(), 2);
    assert_eq!(toks[0], (Token::OpCode, String::from("RETURN"), 1));
    assert_eq!(toks[1].0, Token::Eof);
}

#[test]
fn register_run_stops_at_first_non_digit() {
    let toks = scan_ok("R12AB");
    assert_eq!(toks[0], (Token::Reg, String::from("R12"), 1));
    assert_eq!(toks[1], (Token::OpCode, String::from("AB"), 1));
    assert_eq!(toks[2].0, Token::Eof);
}

#[test]
fn string_literal_keeps_both_quotes() {
    let toks = scan_ok("\"Hello\"");
    assert_eq!(toks.len(), 2);
    assert_eq!(toks[0], (Token::StrLit, String::from("\"Hello\""), 1));
    assert_eq!(toks[1].0, Token::Eof);
}

#[test]
fn unterminated_string_is_an_error() {
    scan_err("\"Hello");
}

#[test]
fn string_with_linebreak_is_an_error() {
    scan_err("\"Hel\nlo\"");
}

#[test]
fn paren_comment_emits_no_tokens() {
    let toks = scan_ok("(a comment)X");
    assert_eq!(toks.len(), 2);
    assert_eq!(toks[0], (Token::OpCode, String::from("X"), 1));
    assert_eq!(toks[1].0, Token::Eof);
}

#[test]
fn paren_comment_between_tokens() {
    let toks = scan_ok("A (skip me) B");
    assert_eq!(toks[0], (Token::OpCode, String::from("A"), 1));
    assert_eq!(toks[1], (Token::OpCode, String::from("B"), 1));
    assert_eq!(toks[2].0, Token::Eof);
}

#[test]
fn paren_comment_with_linebreak_is_an_error() {
    scan_err("(spans\nlines)");
}

#[test]
fn unterminated_paren_comment_is_an_error() {
    scan_err("(never closed");
}

#[test]
fn semicolon_comment_runs_to_end_of_line() {
    let toks = scan_ok("; note\nX");
    assert_eq!(toks[0], (Token::Ln, String::from("\n"), 1));
    assert_eq!(toks[1], (Token::OpCode, String::from("X"), 2));
    assert_eq!(toks[2].0, Token::Eof);
}

#[test]
fn semicolon_comment_at_end_of_input() {
    let toks = scan_ok("X ; trailing");
    assert_eq!(toks[0], (Token::OpCode, String::from("X"), 1));
    assert_eq!(toks[1].0, Token::Eof);
}

#[test]
fn bang_and_colon_are_single_character_tokens() {
    let toks = scan_ok("!:");
    assert_eq!(toks[0], (Token::Bang, String::from("!"), 1));
    assert_eq!(toks[1], (Token::Colon, String::from(":"), 1));
    assert_eq!(toks[2].0, Token::Eof);
}

#[test]
fn numbers_are_greedy_digit_runs() {
    let toks = scan_ok("123 45");
    assert_eq!(toks[0], (Token::Number, String::from("123"), 1));
    assert_eq!(toks[1], (Token::Number, String::from("45"), 1));
    assert_eq!(toks[2].0, Token::Eof);
}

#[test]
fn symbols_take_letters_digits_and_underscores() {
    let toks = scan_ok("_foo x1");
    assert_eq!(toks[0], (Token::Symbol, String::from("_foo"), 1));
    assert_eq!(toks[1], (Token::Symbol, String::from("x1"), 1));
    assert_eq!(toks[2].0, Token::Eof);
}

#[test]
fn opcodes_take_uppercase_digits_and_underscores() {
    let toks = scan_ok("LOAD_1");
    assert_eq!(toks[0], (Token::OpCode, String::from("LOAD_1"), 1));
}

#[test]
fn newlines_are_tokens_and_count_lines() {
    let toks = scan_ok("\n\nX");
    assert_eq!(toks[0], (Token::Ln, String::from("\n"), 1));
    assert_eq!(toks[1], (Token::Ln, String::from("\n"), 2));
    assert_eq!(toks[2], (Token::OpCode, String::from("X"), 3));
    assert_eq!(toks[3].0, Token::Eof);
    assert_eq!(toks[3].2, 3);
}

#[test]
fn unknown_character_is_an_error() {
    scan_err("#");
    scan_err("a + b");
}

#[test]
fn every_successful_scan_ends_with_eof() {
    for src in [
        "",
        " \t\r",
        "SEND R1 R2 ; call\n",
        "(c)!:\"s\" 9 _x OP\n",
        "main:\n  STRING R2 \"Hello\"\n  RETURN R1\n",
    ] {
        let toks = scan_ok(src);
        assert!(!toks.is_empty());
        assert_eq!(toks.last().unwrap().0, Token::Eof);
    }
}

#[test]
fn empty_source_scans_to_lone_eof() {
    let toks = scan_ok("");
    assert_eq!(toks.len(), 1);
    assert_eq!(toks[0], (Token::Eof, String::new(), 1));
}

#[test]
fn pos_carries_token_lexeme_and_line() {
    let p = Pos::new(Token::Symbol, "abc", 3);
    assert_eq!(p.token, Token::Symbol);
    assert_eq!(p.lexeme, "abc");
    assert_eq!(p.line, 3);
}

#[test]
fn lex_error_can_be_raised_directly() {
    let e = LexError::raise();
    assert!(format!("{:?}", e).contains("LexError"));
}
