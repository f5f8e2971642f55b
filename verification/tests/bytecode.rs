use clox::chunk::{Chunk, OpCode};
use clox::compiler::compile;
use clox::debug::disassemble;
use clox::object::Object;
use clox::scanner::{Scanner, TokenType};
use clox::scanner::TokenType::{
    And, Bang, BangEqual, Class, Comma, Dot, Else, Eof, Equal, EqualEqual, False, For, Fun,
    Greater, GreaterEqual, Identifier, If, LeftBrace, LeftParen, Less, LessEqual, Minus, Nil,
    Number, Or, Plus, Print, Return, RightBrace, RightParen, Semicolon, Slash, Star, Super, This,
    True, Var, While,
};
use clox::value::{values_equal, Value};
use clox::vm::VM;

fn scan_all(source: &str) -> Vec<(TokenType, Vec<u8>, usize)> {
    let mut scanner = Scanner::new(source.as_bytes().to_vec());
    let mut tokens = Vec::new();
    loop {
        let t = scanner.scan_token();
        let done = t.token_type == TokenType::Eof;
        tokens.push((t.token_type, t.lexeme, t.line));
        if done {
            return tokens;
        }
    }
}

fn token_types(source: &str) -> Vec<TokenType> {
    scan_all(source).into_iter().map(|t| t.0).collect()
}

#[test]
fn single_character_tokens() {
    assert_eq!(
        token_types("(){};,.-+/*"),
        vec![
            LeftParen, RightParen, LeftBrace, RightBrace, Semicolon, Comma, Dot, Minus, Plus,
            Slash, Star, Eof
        ]
    );
}

#[test]
fn operators_match_greedily() {
    assert_eq!(
        token_types("! != = == < <= > >= <="),
        vec![Bang, BangEqual, Equal, EqualEqual, Less, LessEqual, Greater, GreaterEqual,
            LessEqual, Eof]
    );
    // "===" is "==" then "=", the longest form first
    assert_eq!(token_types("==="), vec![EqualEqual, Equal, Eof]);
}

#[test]
fn keywords_are_exact_matches() {
    assert_eq!(
        token_types("and class else false for fun if nil or print return super this true var while"),
        vec![And, Class, Else, False, For, Fun, If, Nil, Or, Print, Return, Super, This, True,
            Var, While, Eof]
    );
    // prefixes and extensions are plain identifiers
    assert_eq!(token_types("android an classy nill"), vec![Identifier, Identifier, Identifier,
        Identifier, Eof]);
}

#[test]
fn number_lexemes_keep_their_text() {
    let tokens = scan_all("12.5 7 0.25");
    assert_eq!(tokens[0], (TokenType::Number, b"12.5".to_vec(), 1));
    assert_eq!(tokens[1], (TokenType::Number, b"7".to_vec(), 1));
    assert_eq!(tokens[2], (TokenType::Number, b"0.25".to_vec(), 1));
}

#[test]
fn a_trailing_dot_is_not_part_of_a_number() {
    assert_eq!(token_types("1."), vec![Number, Dot, Eof]);
}

#[test]
fn string_lexemes_span_the_quotes() {
    let tokens = scan_all("\"hi\"");
    assert_eq!(tokens[0], (TokenType::Str, b"\"hi\"".to_vec(), 1));
}

#[test]
fn unterminated_string_is_an_error_token() {
    let tokens = scan_all("\"oops");
    assert_eq!(tokens[0].0, TokenType::Error);
    assert_eq!(tokens[0].1, b"Unterminated string.".to_vec());
}

#[test]
fn unexpected_character_is_an_error_token() {
    let tokens = scan_all("@");
    assert_eq!(tokens[0].0, TokenType::Error);
    assert_eq!(tokens[0].1, b"Unexpected character.".to_vec());
}

#[test]
fn lines_are_counted_through_whitespace_and_comments() {
    let tokens = scan_all("1\n// note\n2");
    assert_eq!(tokens[0], (TokenType::Number, b"1".to_vec(), 1));
    assert_eq!(tokens[1], (TokenType::Number, b"2".to_vec(), 3));
}

#[test]
fn strings_may_span_lines() {
    let tokens = scan_all("\"a\nb\"");
    assert_eq!(tokens[0].0, TokenType::Str);
    assert_eq!(tokens[0].2, 2);
}

#[test]
fn eof_repeats_after_the_end() {
    let mut scanner = Scanner::new(b"1".to_vec());
    assert_eq!(scanner.scan_token().token_type, TokenType::Number);
    assert_eq!(scanner.scan_token().token_type, TokenType::Eof);
    assert_eq!(scanner.scan_token().token_type, TokenType::Eof);
}

#[test]
fn chunk_write_keeps_code_and_lines_parallel() {
    let mut chunk = Chunk::new();
    chunk.write(OpCode::OP_NIL.to_byte(), 3);
    chunk.write(OpCode::OP_RETURN.to_byte(), 4);
    assert_eq!(chunk.code, vec![1, 13]);
    assert_eq!(chunk.lines, vec![3, 4]);
}

#[test]
fn add_constant_returns_consecutive_indexes() {
    let mut chunk = Chunk::new();
    assert_eq!(chunk.add_constant(Value::Nil), 0);
    assert_eq!(chunk.add_constant(Value::Boolean(true)), 1);
    assert_eq!(chunk.add_constant(Value::Number(1.0f64.to_bits())), 2);
    assert_eq!(chunk.constants.values.len(), 3);
}

#[test]
fn opcode_bytes_round_trip() {
    let ops = [
        OpCode::OP_CONSTANT,
        OpCode::OP_NIL,
        OpCode::OP_TRUE,
        OpCode::OP_FALSE,
        OpCode::OP_EQUAL,
        OpCode::OP_GREATER,
        OpCode::OP_LESS,
        OpCode::OP_ADD,
        OpCode::OP_SUBTRACT,
        OpCode::OP_MULTIPLY,
        OpCode::OP_DIVIDE,
        OpCode::OP_NOT,
        OpCode::OP_NEGATE,
        OpCode::OP_RETURN,
    ];
    for op in ops {
        assert_eq!(OpCode::from_byte(op.to_byte()), op);
    }
    assert_eq!(OpCode::from_byte(14), OpCode::UNKNOWN);
    assert_eq!(OpCode::from_byte(255), OpCode::UNKNOWN);
}

fn compiled(source: &str) -> Chunk {
    match compile(source.as_bytes().to_vec()) {
        (Some(chunk), _) => chunk,
        (None, diags) => panic!("compilation of {:?} failed: {:?}", source, diags),
    }
}

#[test]
fn disassembly_reproduces_the_emission_order() {
    let chunk = compiled("1 + 2");
    let instructions = disassemble(&chunk).expect("compiled code must decode");
    let summary: Vec<(OpCode, Option<u8>, usize)> =
        instructions.iter().map(|i| (i.op, i.operand, i.line)).collect();
    assert_eq!(
        summary,
        vec![
            (OpCode::OP_CONSTANT, Some(0), 1),
            (OpCode::OP_CONSTANT, Some(1), 1),
            (OpCode::OP_ADD, None, 1),
            (OpCode::OP_RETURN, None, 1),
        ]
    );
}

#[test]
fn reencoding_the_disassembly_rebuilds_the_chunk() {
    let chunk = compiled("(-1 + 2) * 3 - -4");
    let instructions = disassemble(&chunk).expect("compiled code must decode");
    let mut code: Vec<u8> = Vec::new();
    let mut lines: Vec<usize> = Vec::new();
    for i in &instructions {
        code.push(i.op.to_byte());
        lines.push(i.line);
        if let Some(operand) = i.operand {
            code.push(operand);
            lines.push(i.line);
        }
    }
    assert_eq!(code, chunk.code);
    assert_eq!(lines, chunk.lines);
}

#[test]
fn derived_comparisons_compile_to_their_combinator() {
    let ge = disassemble(&compiled("5 >= 5")).unwrap();
    let ops: Vec<OpCode> = ge.iter().map(|i| i.op).collect();
    assert_eq!(
        ops,
        vec![OpCode::OP_CONSTANT, OpCode::OP_CONSTANT, OpCode::OP_LESS, OpCode::OP_NOT,
            OpCode::OP_RETURN]
    );
    let le = disassemble(&compiled("4 <= 5")).unwrap();
    let ops: Vec<OpCode> = le.iter().map(|i| i.op).collect();
    assert_eq!(
        ops,
        vec![OpCode::OP_CONSTANT, OpCode::OP_CONSTANT, OpCode::OP_GREATER, OpCode::OP_NOT,
            OpCode::OP_RETURN]
    );
    let ne = disassemble(&compiled("1 != 2")).unwrap();
    let ops: Vec<OpCode> = ne.iter().map(|i| i.op).collect();
    assert_eq!(
        ops,
        vec![OpCode::OP_CONSTANT, OpCode::OP_CONSTANT, OpCode::OP_EQUAL, OpCode::OP_NOT,
            OpCode::OP_RETURN]
    );
}

#[test]
fn literal_keywords_take_no_constant_slot() {
    let chunk = compiled("nil == false");
    assert_eq!(chunk.constants.values.len(), 0);
    let ops: Vec<OpCode> = disassemble(&chunk).unwrap().iter().map(|i| i.op).collect();
    assert_eq!(ops, vec![OpCode::OP_NIL, OpCode::OP_FALSE, OpCode::OP_EQUAL, OpCode::OP_RETURN]);
}

#[test]
fn parsed_number_constants_carry_the_double_bits() {
    let chunk = compiled("1.5");
    match chunk.constants.values[0] {
        Value::Number(bits) => assert_eq!(f64::from_bits(bits), 1.5),
        ref other => panic!("unexpected constant {:?}", other),
    }
}

#[test]
fn a_chunk_with_an_unknown_opcode_does_not_decode() {
    let mut chunk = Chunk::new();
    chunk.write(200, 1);
    assert!(disassemble(&chunk).is_none());
}

#[test]
fn values_equal_compares_structurally() {
    let one = Value::Number(1.0f64.to_bits());
    let other_one = Value::Number(1.0f64.to_bits());
    let two = Value::Number(2.0f64.to_bits());
    assert!(values_equal(&one, &other_one));
    assert!(!values_equal(&one, &two));
    assert!(values_equal(&Value::Nil, &Value::Nil));
    assert!(values_equal(&Value::Boolean(true), &Value::Boolean(true)));
    assert!(!values_equal(&Value::Boolean(true), &Value::Boolean(false)));
    assert!(!values_equal(&Value::Nil, &Value::Boolean(false)));
    assert!(!values_equal(&one, &Value::Boolean(true)));
}

#[test]
fn values_equal_on_strings_compares_contents() {
    let a = Value::Object(Object::Str(String::from("lox")));
    let b = Value::Object(Object::Str(String::from("lox")));
    let c = Value::Object(Object::Str(String::from("box")));
    assert!(values_equal(&a, &b));
    assert!(!values_equal(&a, &c));
    assert!(!values_equal(&a, &Value::Nil));
}

#[test]
fn nan_is_not_equal_to_itself() {
    let nan = Value::Number(f64::NAN.to_bits());
    assert!(!values_equal(&nan, &nan));
}

#[test]
fn the_two_zeroes_are_equal() {
    let pos = Value::Number(0.0f64.to_bits());
    let neg = Value::Number((-0.0f64).to_bits());
    assert!(values_equal(&pos, &neg));
}

#[test]
fn falsy_values_are_exactly_nil_and_false() {
    assert!(VM::is_falsy(&Value::Nil));
    assert!(VM::is_falsy(&Value::Boolean(false)));
    assert!(!VM::is_falsy(&Value::Boolean(true)));
    assert!(!VM::is_falsy(&Value::Number(0.0f64.to_bits())));
    assert!(!VM::is_falsy(&Value::Object(Object::Str(String::new()))));
}

#[test]
fn running_a_hand_built_chunk() {
    // 3 * 4, assembled by hand against the chunk interface
    let mut chunk = Chunk::new();
    let three = chunk.add_constant(Value::Number(3.0f64.to_bits()));
    let four = chunk.add_constant(Value::Number(4.0f64.to_bits()));
    chunk.write(OpCode::OP_CONSTANT.to_byte(), 1);
    chunk.write(three, 1);
    chunk.write(OpCode::OP_CONSTANT.to_byte(), 1);
    chunk.write(four, 1);
    chunk.write(OpCode::OP_MULTIPLY.to_byte(), 1);
    chunk.write(OpCode::OP_RETURN.to_byte(), 1);
    let mut vm = VM::new(chunk);
    match vm.run() {
        clox::vm::ExecOutcome::Finished(Value::Number(bits)) => {
            assert_eq!(f64::from_bits(bits), 12.0);
        }
        other => panic!("unexpected outcome {:?}", other),
    }
}

#[test]
fn a_comment_may_end_the_source_without_a_newline() {
    let tokens = scan_all("1 // trailing words");
    assert_eq!(tokens[0].0, TokenType::Number);
    assert_eq!(tokens[1].0, TokenType::Eof);
}

#[test]
fn a_slash_not_followed_by_a_slash_is_division() {
    assert_eq!(token_types("1/2"), vec![Number, Slash, Number, Eof]);
}
