use lox_bytecode::chunk::Chunk;
use lox_bytecode::object::Object;
use lox_bytecode::opcode::OpCode;
use lox_bytecode::precedence::Precedence;
use lox_bytecode::scanner::Scanner;
use lox_bytecode::token::Token;
use lox_bytecode::token_type::TokenType;
use lox_bytecode::value::{format_value, Value, ValueArray};
use lox_bytecode::vm::{InterpretResult, VM};

fn scan_all(source: &str) -> Vec<(TokenType, String, usize)> {
    let mut s = Scanner::new(source);
    let mut out = Vec::new();
    loop {
        let t = s.scan_token();
        let kind = t.token_type();
        out.push((kind, t.as_string(), t.line));
        if kind == TokenType::Eof {
            return out;
        }
    }
}

#[test]
fn scanner_single_character_tokens() {
    let kinds: Vec<TokenType> = scan_all("(){},.-+;/*").iter().map(|t| t.0).collect();
    assert_eq!(
        kinds,
        vec![
            TokenType::LeftParen,
            TokenType::RightParen,
            TokenType::LeftBrace,
            TokenType::RightBrace,
            TokenType::Comma,
            TokenType::Dot,
            TokenType::Minus,
            TokenType::Plus,
            TokenType::SemiColon,
            TokenType::Slash,
            TokenType::Star,
            TokenType::Eof,
        ]
    );
}

#[test]
fn scanner_one_or_two_character_tokens() {
    let kinds: Vec<TokenType> = scan_all("! != = == < <= > >=").iter().map(|t| t.0).collect();
    assert_eq!(
        kinds,
        vec![
            TokenType::Bang,
            TokenType::BangEqual,
            TokenType::Assign,
            TokenType::Equal,
            TokenType::Less,
            TokenType::LessEqual,
            TokenType::Greater,
            TokenType::GreaterEqual,
            TokenType::Eof,
        ]
    );
}

#[test]
fn scanner_number_lexemes() {
    let ts = scan_all("12 12.5 7.");
    assert_eq!(ts[0].0, TokenType::Number);
    assert_eq!(ts[0].1, "12");
    assert_eq!(ts[1].0, TokenType::Number);
    assert_eq!(ts[1].1, "12.5");
    // no trailing dot: "7." scans as the number 7 and then a dot
    assert_eq!(ts[2].0, TokenType::Number);
    assert_eq!(ts[2].1, "7");
    assert_eq!(ts[3].0, TokenType::Dot);
}

#[test]
fn scanner_string_lexeme_keeps_quotes() {
    let ts = scan_all("\"hi\"");
    assert_eq!(ts[0].0, TokenType::String);
    assert_eq!(ts[0].1, "\"hi\"");
}

#[test]
fn scanner_keywords_and_identifiers() {
    let ts = scan_all("and class else false for fun if nil or print return super this true var while andy f t");
    let kinds: Vec<TokenType> = ts.iter().map(|t| t.0).collect();
    assert_eq!(
        kinds,
        vec![
            TokenType::And,
            TokenType::Class,
            TokenType::Else,
            TokenType::False,
            TokenType::For,
            TokenType::Fun,
            TokenType::If,
            TokenType::Nil,
            TokenType::Or,
            TokenType::Print,
            TokenType::Return,
            TokenType::Super,
            TokenType::This,
            TokenType::True,
            TokenType::Var,
            TokenType::While,
            TokenType::Identifier,
            TokenType::Identifier,
            TokenType::Identifier,
            TokenType::Eof,
        ]
    );
}

#[test]
fn scanner_identifiers_do_not_continue_with_digits() {
    let ts = scan_all("foo1");
    assert_eq!(ts[0].0, TokenType::Identifier);
    assert_eq!(ts[0].1, "foo");
    assert_eq!(ts[1].0, TokenType::Number);
    assert_eq!(ts[1].1, "1");
}

#[test]
fn scanner_error_tokens() {
    let ts = scan_all("@");
    assert_eq!(ts[0].0, TokenType::Error);
    assert_eq!(ts[0].1, "Unexpected character.");
    let ts = scan_all("\"open");
    assert_eq!(ts[0].0, TokenType::Error);
    assert_eq!(ts[0].1, "Unterminated string.");
}

#[test]
fn scanner_eof_repeats_and_lines_count() {
    let mut s = Scanner::new("1\n2\n");
    assert_eq!(s.scan_token().line, 1);
    assert_eq!(s.scan_token().line, 2);
    let e1 = s.scan_token();
    assert_eq!(e1.token_type(), TokenType::Eof);
    assert_eq!(e1.line, 3);
    assert_eq!(s.scan_token().token_type(), TokenType::Eof);
}

#[test]
fn token_accessors() {
    let t = Token::new(TokenType::Print, String::from("print"), 3);
    assert!(t.is(TokenType::Print));
    assert!(!t.is(TokenType::Var));
    assert_eq!(t.token_type(), TokenType::Print);
    assert_eq!(t.as_string(), "print");
    let e = Token::eof(9);
    assert_eq!(e.token_type(), TokenType::Eof);
    assert_eq!(e.line, 9);
}

#[test]
fn precedence_order_and_next() {
    assert!(Precedence::Lowest.rank() < Precedence::Assignment.rank());
    assert!(Precedence::Term.rank() < Precedence::Factor.rank());
    assert!(Precedence::Factor.rank() < Precedence::Unary.rank());
    assert_eq!(Precedence::Term.next().rank(), Precedence::Factor.rank());
    assert_eq!(Precedence::Primary.next().rank(), Precedence::Primary.rank());
}

#[test]
fn opcode_encodings_are_stable() {
    assert_eq!(OpCode::Constant.to_byte(), 0);
    assert_eq!(OpCode::Return.to_byte(), 1);
    assert_eq!(OpCode::Negate.to_byte(), 2);
    assert_eq!(OpCode::Add.to_byte(), 3);
    assert_eq!(OpCode::Subtract.to_byte(), 4);
    assert_eq!(OpCode::Multiply.to_byte(), 5);
    assert_eq!(OpCode::Divide.to_byte(), 6);
    assert_eq!(OpCode::Nil.to_byte(), 7);
    assert_eq!(OpCode::True.to_byte(), 8);
    assert_eq!(OpCode::False.to_byte(), 9);
    assert_eq!(OpCode::Not.to_byte(), 10);
    assert_eq!(OpCode::Equal.to_byte(), 11);
    assert_eq!(OpCode::Greater.to_byte(), 12);
    assert_eq!(OpCode::Less.to_byte(), 13);
    assert_eq!(OpCode::BangEqual.to_byte(), 14);
    assert_eq!(OpCode::GreaterEqual.to_byte(), 15);
    assert_eq!(OpCode::LessEqual.to_byte(), 16);
    assert_eq!(OpCode::Print.to_byte(), 17);
    assert_eq!(OpCode::Pop.to_byte(), 18);
    assert_eq!(OpCode::DefineGlobal.to_byte(), 19);
    assert_eq!(OpCode::GetGlobal.to_byte(), 20);
}

#[test]
fn opcode_byte_round_trip() {
    let mut b: u8 = 0;
    while b <= 20 {
        let op = OpCode::from_byte(b).unwrap();
        assert_eq!(op.to_byte(), b);
        b += 1;
    }
    assert!(OpCode::from_byte(21).is_none());
    assert!(OpCode::from_byte(255).is_none());
}

#[test]
fn value_predicates() {
    assert!(Value::Number(0).is_number());
    assert!(!Value::Nil.is_number());
    assert!(Value::Obj(Object::Str(String::from("x"))).is_string());
    assert!(Value::Nil.is_falsy());
    assert!(Value::Boolean(false).is_falsy());
    assert!(!Value::Boolean(true).is_falsy());
    assert!(!Value::Number(0).is_falsy());
}

#[test]
fn value_equality_is_reflexive_and_tagged() {
    let vals = vec![
        Value::Nil,
        Value::Boolean(true),
        Value::Boolean(false),
        Value::Number(0),
        Value::Obj(Object::Str(String::from("s"))),
    ];
    for v in &vals {
        assert!(v.equals(v));
    }
    for (i, a) in vals.iter().enumerate() {
        for (j, b) in vals.iter().enumerate() {
            if i != j {
                assert!(!a.equals(b));
            }
        }
    }
}

#[test]
fn value_formatting() {
    assert_eq!(format_value(&Value::Boolean(true)), "true");
    assert_eq!(format_value(&Value::Boolean(false)), "false");
    assert_eq!(format_value(&Value::Nil), "nil");
    assert_eq!(format_value(&Value::Obj(Object::Str(String::from("hi")))), "hi");
    assert_eq!(format_value(&Value::Number(2.5f64.to_bits())), "2.5");
    assert_eq!(format_value(&Value::Number(7f64.to_bits())), "7");
    assert_eq!(format_value(&Value::Number(0f64.to_bits())), "0");
}

#[test]
fn value_array_write_and_read() {
    let mut a = ValueArray::new();
    assert_eq!(a.write(Value::Number(1)), 0);
    assert_eq!(a.write(Value::Nil), 1);
    assert_eq!(a.count(), 2);
    assert!(matches!(a.read_value(1), Ok(Value::Nil)));
    assert!(a.read_value(2).is_err());
    assert_eq!(a.print_value(1), "nil");
    a.free();
    assert_eq!(a.count(), 0);
}

#[test]
fn chunk_code_and_lines_stay_parallel() {
    let mut c = Chunk::new();
    c.write_opcode(OpCode::Nil, 1);
    c.write(200, 2);
    assert_eq!(c.code_len(), 2);
    assert_eq!(c.read(0), 7);
    assert_eq!(c.read(1), 200);
    assert_eq!(c.get_line(0), 1);
    assert_eq!(c.get_line(1), 2);
    c.free();
    assert_eq!(c.code_len(), 0);
}

#[test]
fn chunk_constant_pool_is_capped_at_256() {
    let mut c = Chunk::new();
    let mut i: usize = 0;
    while i < 256 {
        let idx = c.add_constant(Value::Number(i as u64));
        assert_eq!(idx, Some(i as u8));
        i += 1;
    }
    assert_eq!(c.add_constant(Value::Nil), None);
    assert!(c.get_constant(255).is_ok());
    assert!(c.get_constant(256).is_err());
}

#[test]
fn hand_built_chunk_runs() {
    // push a constant, pop it, return: the machine ends cleanly
    let mut c = Chunk::new();
    let idx = c.add_constant(Value::Number(41f64.to_bits())).unwrap();
    c.write_opcode(OpCode::Constant, 1);
    c.write(idx, 1);
    c.write_opcode(OpCode::Pop, 1);
    c.write_opcode(OpCode::Return, 1);
    let mut vm = VM::new(c);
    assert!(vm.run().is_ok());
    assert!(vm.output().is_empty());
    assert!(vm.errors().is_empty());
}

#[test]
fn unknown_opcode_is_a_runtime_error() {
    let mut c = Chunk::new();
    c.write(42, 1);
    let mut vm = VM::new(c);
    assert_eq!(vm.run(), Err(InterpretResult::RuntimeError));
    assert_eq!(vm.errors().clone(), vec!["Malformed bytecode.", "[line 1] in script."]);
}

#[test]
fn missing_constant_is_a_compile_error() {
    let mut c = Chunk::new();
    c.write_opcode(OpCode::Constant, 1);
    c.write(9, 1);
    let mut vm = VM::new(c);
    assert_eq!(vm.run(), Err(InterpretResult::CompileError));
    assert!(vm.errors().is_empty());
}

#[test]
fn disassembly_lists_instructions() {
    let mut c = Chunk::new();
    let idx = c.add_constant(Value::Number(7f64.to_bits())).unwrap();
    c.write_opcode(OpCode::Constant, 1);
    c.write(idx, 1);
    c.write_opcode(OpCode::Print, 1);
    c.write_opcode(OpCode::Return, 2);
    let lines = c.disassemble("demo");
    assert_eq!(
        lines,
        vec![
            "== demo ==",
            "0000    1  OP_CONSTANT 0 '7'",
            "0002    |  OP_PRINT",
            "0003    2  OP_RETURN",
        ]
    );
}

#[test]
fn disassemble_instruction_steps_by_size() {
    let mut c = Chunk::new();
    let idx = c.add_constant(Value::Nil).unwrap();
    c.write_opcode(OpCode::Constant, 1);
    c.write(idx, 1);
    c.write_opcode(OpCode::Negate, 1);
    let (text, next) = c.disassemble_instruction(0);
    assert_eq!(text, "0000    1  OP_CONSTANT 0 'nil'");
    assert_eq!(next, 2);
    let (text, next) = c.disassemble_instruction(2);
    assert_eq!(text, "0002    |  OP_NEGATE");
    assert_eq!(next, 3);
}
