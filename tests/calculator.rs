use calculator_with_memory::command::{plan_line, LineCommand};
use calculator_with_memory::error::CalcError;
use calculator_with_memory::expression::{eval_expression, BinOp, Expr};
use calculator_with_memory::memory::Memory;
use calculator_with_memory::token::{is_float_literal_word, tokenize_line, Token};

fn add(a: f64, b: f64) -> f64 {
    a + b
}

fn num(s: &str) -> Box<Expr<f64>> {
    Box::new(Expr::Number(s.to_string()))
}

#[test]
fn float_literals_follow_the_f64_grammar() {
    for w in ["0", "42", "-7", "+3", "2.5", "1.", ".5", "-.5", "1e5", "1E-3", "2.5e+10", "inf",
        "-Infinity", "NaN", "nan"] {
        assert!(is_float_literal_word(w), "{}", w);
        assert!(w.parse::<f64>().is_ok(), "{}", w);
    }
    for w in ["", "+", "-", ".", "e5", "1e", "1e+", "1.2.3", "1..", "infin", "0x10", "1_000", "mem+"] {
        assert!(!is_float_literal_word(w), "{}", w);
        assert!(w.parse::<f64>().is_err(), "{}", w);
    }
}

#[test]
fn classify_follows_the_rule_order() {
    let mut memory: Memory<f64> = Memory::new();
    memory.update("1".to_string(), 9.0, add);
    memory.update("x".to_string(), 4.0, add);
    assert_eq!(Token::parse("1", &memory), Ok(Token::Number("1".to_string())));
    assert_eq!(Token::parse("x", &memory), Ok(Token::MemoryRef("x".to_string())));
    assert_eq!(Token::parse("y", &memory), Err(CalcError::UnrecognizedToken("y".to_string())));
    assert_eq!(Token::parse("memfoo+", &memory), Ok(Token::MemoryPlus("foo".to_string())));
    assert_eq!(Token::parse("memx-", &memory), Ok(Token::MemoryMinus("x".to_string())));
    assert_eq!(Token::parse("mem+", &memory), Ok(Token::MemoryPlus(String::new())));
    assert_eq!(Token::parse("mem", &memory), Err(CalcError::UnrecognizedToken("mem".to_string())));
    assert_eq!(Token::parse("+", &memory), Ok(Token::Plus));
    assert_eq!(Token::parse("-", &memory), Ok(Token::Minus));
    assert_eq!(Token::parse("*", &memory), Ok(Token::Asterisk));
    assert_eq!(Token::parse("/", &memory), Ok(Token::Slash));
    assert_eq!(Token::parse("(", &memory), Ok(Token::LParen));
    assert_eq!(Token::parse(")", &memory), Ok(Token::RParen));
    assert_eq!(Token::parse("%", &memory), Err(CalcError::UnrecognizedToken("%".to_string())));
}

#[test]
fn classify_twice_gives_the_same_token() {
    let memory: Memory<f64> = Memory::new();
    for w in ["3.5", "memz+", "*", "?"] {
        assert_eq!(Token::parse(w, &memory), Token::parse(w, &memory));
    }
}

#[test]
fn multiplication_binds_tighter_than_addition() {
    let memory: Memory<f64> = Memory::new();
    let tokens = tokenize_line("2 + 3 * 4", &memory).unwrap();
    let expected = Expr::Binary(BinOp::Add, num("2"), Box::new(Expr::Binary(BinOp::Mul, num("3"), num("4"))));
    assert_eq!(eval_expression(&tokens, &memory), Ok(expected));
}

#[test]
fn parentheses_override_precedence() {
    let memory: Memory<f64> = Memory::new();
    let tokens = tokenize_line("( 2 + 3 ) * 4", &memory).unwrap();
    let expected = Expr::Binary(BinOp::Mul, Box::new(Expr::Binary(BinOp::Add, num("2"), num("3"))), num("4"));
    assert_eq!(eval_expression(&tokens, &memory), Ok(expected));
}

#[test]
fn operators_group_to_the_left() {
    let memory: Memory<f64> = Memory::new();
    let tokens = tokenize_line("8 - 2 - 1", &memory).unwrap();
    let expected = Expr::Binary(BinOp::Sub, Box::new(Expr::Binary(BinOp::Sub, num("8"), num("2"))), num("1"));
    assert_eq!(eval_expression(&tokens, &memory), Ok(expected));
    let tokens = tokenize_line("8 / 2 * 3", &memory).unwrap();
    let expected = Expr::Binary(BinOp::Mul, Box::new(Expr::Binary(BinOp::Div, num("8"), num("2"))), num("3"));
    assert_eq!(eval_expression(&tokens, &memory), Ok(expected));
}

#[test]
fn missing_parenthesis_fails_and_memory_is_kept() {
    let mut memory: Memory<f64> = Memory::new();
    memory.update("a".to_string(), 1.5, add);
    let good = tokenize_line("( 2 + 3 ) * 4", &memory).unwrap();
    assert!(eval_expression(&good, &memory).is_ok());
    let bad = tokenize_line("( 2 + 3", &memory).unwrap();
    assert_eq!(eval_expression(&bad, &memory), Err(CalcError::MissingClosingParenthesis));
    assert_eq!(memory.get("a"), Ok(1.5));
    assert_eq!(memory.get("b"), Err(CalcError::SlotNotFound("b".to_string())));
}

#[test]
fn update_accumulates() {
    let mut memory: Memory<f64> = Memory::new();
    memory.update("a".to_string(), 5.0, add);
    assert_eq!(memory.get("a"), Ok(5.0));
    memory.update("a".to_string(), -2.0, add);
    assert_eq!(memory.get("a"), Ok(3.0));
    assert!(memory.contains("a"));
    assert!(!memory.contains("b"));
}

#[test]
fn reading_an_unset_slot_fails() {
    let memory: Memory<f64> = Memory::new();
    assert_eq!(memory.get("unset"), Err(CalcError::SlotNotFound("unset".to_string())));
}

#[test]
fn slot_references_resolve_to_their_values() {
    let mut memory: Memory<f64> = Memory::new();
    memory.update("x".to_string(), 6.0, add);
    let tokens = tokenize_line("x / 0", &memory).unwrap();
    let expected = Expr::Binary(BinOp::Div, Box::new(Expr::Value(6.0)), num("0"));
    assert_eq!(eval_expression(&tokens, &memory), Ok(expected));
    let stale = vec![Token::MemoryRef("gone".to_string())];
    assert_eq!(eval_expression(&stale, &memory), Err(CalcError::SlotNotFound("gone".to_string())));
}

#[test]
fn malformed_sequences_fail() {
    let memory: Memory<f64> = Memory::new();
    assert_eq!(eval_expression(&[], &memory), Err(CalcError::UnexpectedToken));
    assert_eq!(eval_expression(&tokenize_line("2 +", &memory).unwrap(), &memory), Err(CalcError::UnexpectedToken));
    assert_eq!(eval_expression(&tokenize_line("* 2", &memory).unwrap(), &memory), Err(CalcError::UnexpectedToken));
    assert_eq!(eval_expression(&tokenize_line("2 3", &memory).unwrap(), &memory), Err(CalcError::UnexpectedToken));
    assert_eq!(eval_expression(&tokenize_line("( 2 ) )", &memory).unwrap(), &memory), Err(CalcError::UnexpectedToken));
    assert_eq!(eval_expression(&tokenize_line("( )", &memory).unwrap(), &memory), Err(CalcError::UnexpectedToken));
}

#[test]
fn printed_number_reads_back_the_same() {
    let memory: Memory<f64> = Memory::new();
    for value in [14.0f64, -2.5, 0.125, 1e21] {
        let printed = format!("{}", value);
        let token = Token::parse(&printed, &memory).unwrap();
        assert_eq!(token, Token::Number(printed.clone()));
        let expr = eval_expression(&[token], &memory).unwrap();
        match expr {
            Expr::Number(text) => assert_eq!(text.parse::<f64>().unwrap(), value),
            other => panic!("{:?}", other),
        }
    }
}

#[test]
fn plan_line_tells_commands_from_expressions() {
    let memory: Memory<f64> = Memory::new();
    let one = tokenize_line("mema+", &memory).unwrap();
    assert_eq!(plan_line(&one), Ok(LineCommand::Increment("a".to_string())));
    let one = tokenize_line("mema-", &memory).unwrap();
    assert_eq!(plan_line(&one), Ok(LineCommand::Decrement("a".to_string())));
    let mixed = tokenize_line("1 + mema+", &memory).unwrap();
    assert_eq!(plan_line(&mixed), Err(CalcError::MalformedMemoryCommand));
    let expr = tokenize_line("1 + 2", &memory).unwrap();
    assert_eq!(plan_line(&expr), Ok(LineCommand::Evaluate));
    let single = tokenize_line("7", &memory).unwrap();
    assert_eq!(plan_line(&single), Ok(LineCommand::Evaluate));
}

#[test]
fn lines_split_at_any_white_space() {
    let mut memory: Memory<f64> = Memory::new();
    memory.update("x".to_string(), 1.0, add);
    let tokens = tokenize_line("  2\t+\u{a0}x  *\u{3000}( 1 ) ", &memory).unwrap();
    assert_eq!(
        tokens,
        vec![
            Token::Number("2".to_string()),
            Token::Plus,
            Token::MemoryRef("x".to_string()),
            Token::Asterisk,
            Token::LParen,
            Token::Number("1".to_string()),
            Token::RParen,
        ]
    );
    assert_eq!(tokenize_line("", &memory), Ok(vec![]));
    assert_eq!(tokenize_line(" \n ", &memory), Ok(vec![]));
}

#[test]
fn tokenizing_stops_at_the_first_unknown_word() {
    let memory: Memory<f64> = Memory::new();
    assert_eq!(
        tokenize_line("1 + ? %", &memory),
        Err(CalcError::UnrecognizedToken("?".to_string()))
    );
    assert_eq!(
        tokenize_line("1 + y", &memory),
        Err(CalcError::UnrecognizedToken("y".to_string()))
    );
}
