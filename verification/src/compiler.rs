use crate::chunk::{
    chunk_extends, emitted, lemma_extends_trans, lemma_shape_compose, lemma_shape_more_consts,
    lemma_shape_monotonic, lemma_shape_single, lemma_shape_single_operand, stack_shape, Chunk,
};
use crate::number::{is_numeral, numeral_bits, numeral_to_bits};
use crate::object::Object;
use crate::opcode::{opcode_value, OpCode};
use crate::precedence::{prec_rank, Precedence};
use crate::scanner::Scanner;
use crate::text::{dec_str, u64_to_dec};
use crate::token::Token;
use crate::token_type::TokenType;
use crate::value::{AbsValue, Value};
use crate::vm::InterpretResult;
use vstd::prelude::*;

verus! {

/// What a token contributes to expression parsing: its action when it
/// opens an expression (prefix), its action between two operands
/// (infix), and how tightly it binds as an operator.
pub struct ParseRule {
    pub prefix: Option<Action>,
    pub infix: Option<Action>,
    pub precedence: Precedence,
}

/// The parsing actions the rule table can name.
#[derive(Debug, PartialEq, Eq, Structural, Copy, Clone)]
pub enum Action {
    Grouping,
    Unary,
    Binary,
    Number,
    StringLit,
    Literal,
    Variable,
}

/// The parse rule of each token kind.
pub open spec fn rule_of(t: TokenType) -> ParseRule {
    match t {
        TokenType::LeftParen => ParseRule {
            prefix: Some(Action::Grouping),
            infix: None,
            precedence: Precedence::Lowest,
        },
        TokenType::Minus => ParseRule {
            prefix: Some(Action::Unary),
            infix: Some(Action::Binary),
            precedence: Precedence::Term,
        },
        TokenType::Plus => ParseRule {
            prefix: None,
            infix: Some(Action::Binary),
            precedence: Precedence::Term,
        },
        TokenType::Slash => ParseRule {
            prefix: None,
            infix: Some(Action::Binary),
            precedence: Precedence::Factor,
        },
        TokenType::Star => ParseRule {
            prefix: None,
            infix: Some(Action::Binary),
            precedence: Precedence::Factor,
        },
        TokenType::Number => ParseRule {
            prefix: Some(Action::Number),
            infix: None,
            precedence: Precedence::Lowest,
        },
        TokenType::False => ParseRule {
            prefix: Some(Action::Literal),
            infix: None,
            precedence: Precedence::Lowest,
        },
        TokenType::True => ParseRule {
            prefix: Some(Action::Literal),
            infix: None,
            precedence: Precedence::Lowest,
        },
        TokenType::Nil => ParseRule {
            prefix: Some(Action::Literal),
            infix: None,
            precedence: Precedence::Lowest,
        },
        TokenType::Bang => ParseRule {
            prefix: Some(Action::Unary),
            infix: None,
            precedence: Precedence::Lowest,
        },
        TokenType::BangEqual => ParseRule {
            prefix: None,
            infix: Some(Action::Binary),
            precedence: Precedence::Equality,
        },
        TokenType::Equal => ParseRule {
            prefix: None,
            infix: Some(Action::Binary),
            precedence: Precedence::Equality,
        },
        TokenType::Greater => ParseRule {
            prefix: None,
            infix: Some(Action::Binary),
            precedence: Precedence::Comparison,
        },
        TokenType::GreaterEqual => ParseRule {
            prefix: None,
            infix: Some(Action::Binary),
            precedence: Precedence::Comparison,
        },
        TokenType::Less => ParseRule {
            prefix: None,
            infix: Some(Action::Binary),
            precedence: Precedence::Comparison,
        },
        TokenType::LessEqual => ParseRule {
            prefix: None,
            infix: Some(Action::Binary),
            precedence: Precedence::Comparison,
        },
        TokenType::String => ParseRule {
            prefix: Some(Action::StringLit),
            infix: None,
            precedence: Precedence::Lowest,
        },
        TokenType::Identifier => ParseRule {
            prefix: Some(Action::Variable),
            infix: None,
            precedence: Precedence::Lowest,
        },
        _ => ParseRule { prefix: None, infix: None, precedence: Precedence::Lowest },
    }
}

/// The opcode a binary operator token compiles to.
pub open spec fn binary_opcode(t: TokenType) -> OpCode {
    match t {
        TokenType::BangEqual => OpCode::BangEqual,
        TokenType::Equal => OpCode::Equal,
        TokenType::Greater => OpCode::Greater,
        TokenType::GreaterEqual => OpCode::GreaterEqual,
        TokenType::Less => OpCode::Less,
        TokenType::LessEqual => OpCode::LessEqual,
        TokenType::Plus => OpCode::Add,
        TokenType::Minus => OpCode::Subtract,
        TokenType::Star => OpCode::Multiply,
        TokenType::Slash => OpCode::Divide,
        _ => OpCode::Return,
    }
}

/// The opcode a unary operator token compiles to.
pub open spec fn unary_opcode(t: TokenType) -> OpCode {
    match t {
        TokenType::Minus => OpCode::Negate,
        TokenType::Bang => OpCode::Not,
        _ => OpCode::Return,
    }
}

/// The opcode a literal keyword compiles to.
pub open spec fn literal_opcode(t: TokenType) -> OpCode {
    match t {
        TokenType::Nil => OpCode::Nil,
        TokenType::True => OpCode::True,
        TokenType::False => OpCode::False,
        _ => OpCode::Return,
    }
}

/// What the scanner guarantees of every token it hands out.
pub open spec fn token_ok(t: Token) -> bool {
    &&& (t.ttype == TokenType::Number ==> is_numeral(t.lexeme@))
    &&& (t.ttype == TokenType::String ==> t.lexeme@.len() >= 2 && t.lexeme@[0] == '"'
        && t.lexeme@[t.lexeme@.len() - 1] == '"')
}

/// The text of one compile diagnostic:
/// `[line L] Error( at 'lexeme' | at end. |): message`.
pub open spec fn diag_text(line: nat, ttype: TokenType, lexeme: Seq<char>, msg: Seq<char>) -> Seq<
    char,
> {
    "[line "@ + dec_str(line) + "] Error"@ + (if ttype == TokenType::Eof {
        " at end."@
    } else if ttype == TokenType::Error {
        Seq::<char>::empty()
    } else {
        " at '"@ + lexeme + "'"@
    }) + ": "@ + msg
}

/// The parser's token window and error flags.
pub struct Parser {
    pub current: Token,
    pub previous: Token,
    pub had_error: bool,
    pub panic_mode: bool,
}

/// The single-pass compiler: it drives the scanner and emits bytecode
/// into a chunk as it parses.
pub struct Compiler {
    parser: Parser,
    scanner: Scanner,
    diagnostics: Vec<String>,
}

impl Compiler {
    /// The source being compiled.
    pub closed spec fn src_of(&self) -> Seq<char> {
        self.scanner.src()
    }

    /// Whether any diagnostic has been reported.
    pub closed spec fn had_error(&self) -> bool {
        self.parser.had_error
    }

    /// The diagnostics reported so far, in order.
    pub closed spec fn diags(&self) -> Seq<Seq<char>> {
        self.diagnostics.deep_view()
    }

    /// How much input is left: the unscanned characters, plus one for a
    /// lookahead token that is not yet `Eof`. Every parsing step leaves
    /// it no larger, and consuming a real token shrinks it, which bounds
    /// the parser's recursion.
    pub closed spec fn measure(&self) -> int {
        self.scanner.src().len() - self.scanner.pos() + if self.parser.current.ttype
            == TokenType::Eof {
            0int
        } else {
            1int
        }
    }

    /// The compiler's invariant: the scanner is sound, both lookahead
    /// tokens carry what the scanner promised of them, and the error
    /// flags agree with the diagnostics: an error was reported exactly
    /// when one was recorded, and panic mode only follows an error.
    pub closed spec fn inv(&self) -> bool {
        &&& self.scanner.wf()
        &&& token_ok(self.parser.current)
        &&& token_ok(self.parser.previous)
        &&& (self.parser.had_error <==> self.diagnostics@.len() > 0)
        &&& (self.parser.panic_mode ==> self.parser.had_error)
    }

    pub fn new() -> (r: Compiler)
        ensures
            r.inv(),
            !r.had_error(),
            r.diags() == Seq::<Seq<char>>::empty(),
    {
        let r = Compiler {
            parser: Parser {
                current: Token::undefined(),
                previous: Token::undefined(),
                had_error: false,
                panic_mode: false,
            },
            scanner: Scanner::new(""),
            diagnostics: Vec::new(),
        };
        proof {
            assert(r.diags() =~= Seq::<Seq<char>>::empty());
        }
        r
    }

    /// The diagnostics reported so far, in order, as printable lines.
    pub fn diagnostics(&self) -> (r: &Vec<String>)
        ensures
            r.deep_view() == self.diags(),
    {
        &self.diagnostics
    }

    /// Compiles `source`, appending its code to `chunk`.
    ///
    /// The chunk stays well formed (`P1`-wise: one line per code byte,
    /// at most 256 constants). The result is `CompileError` exactly when
    /// a diagnostic was recorded; a source of nothing but whitespace and
    /// comments compiles successfully to a bare `Return`. The appended
    /// code always ends with one final `Return`, and on success what
    /// precedes it is a straight-line block of whole instructions with
    /// in-range constant operands that, run on an empty stack, never
    /// underflows and ends with the stack empty again.
    #[verifier::loop_isolation(false)]
    pub fn compile(&mut self, source: &str, chunk: &mut Chunk) -> (r: Result<
        (),
        InterpretResult,
    >)
        requires
            old(chunk).wf(),
        ensures
            final (self).inv(),
            final (chunk).wf(),
            chunk_extends(*old(chunk), *final (chunk)),
            r is Err <==> final (self).had_error(),
            r is Err <==> final (self).diags().len() > 0,
            r is Err ==> r == Err::<(), InterpretResult>(InterpretResult::CompileError),
            ({
                let delta = emitted(*old(chunk), *final (chunk));
                delta.len() >= 1 && delta.last() == opcode_value(OpCode::Return)
            }),
            crate::scanner::spec_token(source@, 0, 1).ttype == TokenType::Eof ==> r is Ok
                && emitted(*old(chunk), *final (chunk)) == seq![opcode_value(OpCode::Return)],
            r is Ok ==> stack_shape(
                emitted(*old(chunk), *final (chunk)).take(
                    emitted(*old(chunk), *final (chunk)).len() - 1,
                ),
                final (chunk).consts().len() as nat,
                0,
            ) == Some(0int),
    {
        self.scanner = Scanner::new(source);
        self.parser =
        Parser {
            current: Token::undefined(),
            previous: Token::undefined(),
            had_error: false,
            panic_mode: false,
        };
        self.diagnostics = Vec::new();
        let ghost whitespace_only = crate::scanner::spec_token(source@, 0, 1).ttype
            == TokenType::Eof;
        proof {
            crate::scanner::lemma_spec_token_eof(source@, 0, 1);
        }
        self.advance();
        let ghost chunk0 = *chunk;
        proof {
            lemma_extends_refl(*chunk);
            assert(emitted(chunk0, *chunk) =~= Seq::<u8>::empty());
        }
        loop
            invariant
                self.inv(),
                chunk.wf(),
                chunk_extends(chunk0, *chunk),
                !self.had_error() ==> stack_shape(
                    emitted(chunk0, *chunk),
                    chunk.consts().len() as nat,
                    0,
                ) == Some(0int),
                self.scanner.src() == source@,
                whitespace_only ==> {
                    &&& !self.had_error()
                    &&& self.parser.current.ttype == TokenType::Eof
                    &&& self.scanner.pos() == source@.len()
                    &&& emitted(chunk0, *chunk).len() == 0
                },
            decreases self.measure(),
        {
            let ghost pre_pos = self.scanner.pos();
            let ghost pre_line = self.scanner.line_of();
            if self.is_match(TokenType::Eof) {
                proof {
                    if whitespace_only {
                        crate::scanner::lemma_spec_token_eof(source@, pre_pos, pre_line);
                    }
                }
                break ;
            }
            let ghost mid = *chunk;
            self.declaration(chunk);
            proof {
                lemma_extends_trans(chunk0, mid, *chunk);
                if !self.had_error() {
                    lemma_shape_more_consts(
                        emitted(chunk0, mid),
                        mid.consts().len() as nat,
                        chunk.consts().len() as nat,
                        0,
                    );
                    lemma_shape_compose(
                        emitted(chunk0, mid),
                        emitted(mid, *chunk),
                        chunk.consts().len() as nat,
                        0,
                    );
                }
            }
        }
        let ghost mid = *chunk;
        self.emit_return(chunk);
        proof {
            lemma_extends_trans(chunk0, mid, *chunk);
            let stmts = emitted(chunk0, mid);
            let delta = emitted(chunk0, *chunk);
            assert(delta =~= stmts + seq![opcode_value(OpCode::Return)]);
            assert(delta.take(delta.len() - 1) =~= stmts);
            if whitespace_only {
                assert(delta =~= seq![opcode_value(OpCode::Return)]);
            }
            if !self.had_error() {
                lemma_shape_more_consts(
                    stmts,
                    mid.consts().len() as nat,
                    chunk.consts().len() as nat,
                    0,
                );
            }
        }
        if self.parser.had_error {
            Err(InterpretResult::CompileError)
        } else {
            Ok(())
        }
    }

    /// `declaration → var declaration | statement`.
    fn declaration(&mut self, chunk: &mut Chunk)
        requires
            old(self).inv(),
            old(chunk).wf(),
        ensures
            final (self).inv(),
            final (self).src_of() == old(self).src_of(),
            final (self).measure() <= old(self).measure(),
            old(self).parser.had_error ==> final (self).parser.had_error,
            old(self).parser.current.ttype != TokenType::Eof ==> final (self).measure() < old(
                self,
            ).measure(),
            chunk_extends(*old(chunk), *final (chunk)),
            !final (self).parser.had_error ==> stack_shape(
                emitted(*old(chunk), *final (chunk)),
                final (chunk).consts().len() as nat,
                0,
            ) == Some(0int),
        decreases old(self).measure(), 4int,
    {
        if self.is_match(TokenType::Var) {
            self.var_declaration(chunk);
        } else {
            self.statement(chunk);
        }
    }

    /// `statement → print statement | expression statement`.
    fn statement(&mut self, chunk: &mut Chunk)
        requires
            old(self).inv(),
            old(chunk).wf(),
        ensures
            final (self).inv(),
            final (self).src_of() == old(self).src_of(),
            final (self).measure() <= old(self).measure(),
            old(self).parser.had_error ==> final (self).parser.had_error,
            old(self).parser.current.ttype != TokenType::Eof ==> final (self).measure() < old(
                self,
            ).measure(),
            chunk_extends(*old(chunk), *final (chunk)),
            !final (self).parser.had_error ==> stack_shape(
                emitted(*old(chunk), *final (chunk)),
                final (chunk).consts().len() as nat,
                0,
            ) == Some(0int),
        decreases old(self).measure(), 3int,
    {
        if self.is_match(TokenType::Print) {
            self.print_statement(chunk);
        } else {
            self.expression_statement(chunk);
        }
    }

    /// `print statement → 'print' expression ';'`, the `print` token
    /// already consumed; emits the expression and `Print`.
    fn print_statement(&mut self, chunk: &mut Chunk)
        requires
            old(self).inv(),
            old(chunk).wf(),
        ensures
            final (self).inv(),
            final (self).src_of() == old(self).src_of(),
            final (self).measure() <= old(self).measure(),
            old(self).parser.had_error ==> final (self).parser.had_error,
            chunk_extends(*old(chunk), *final (chunk)),
            !final (self).parser.had_error ==> stack_shape(
                emitted(*old(chunk), *final (chunk)),
                final (chunk).consts().len() as nat,
                0,
            ) == Some(0int),
            !final (self).parser.had_error ==> ({
                let delta = emitted(*old(chunk), *final (chunk));
                &&& delta.len() >= 1
                &&& delta.last() == opcode_value(OpCode::Print)
                &&& stack_shape(
                    delta.take(delta.len() - 1),
                    final (chunk).consts().len() as nat,
                    0,
                ) == Some(1int)
            }),
        decreases old(self).measure(), 2int,
    {
        self.expression(chunk);
        self.consume(TokenType::SemiColon, "Expect ';' after value.");
        let ghost mid = *chunk;
        self.emit_code(chunk, OpCode::Print);
        proof {
            lemma_extends_trans(*old(chunk), mid, *chunk);
            if !self.parser.had_error {
                let n = chunk.consts().len() as nat;
                let d1 = emitted(*old(chunk), mid);
                lemma_shape_more_consts(d1, mid.consts().len() as nat, n, 0);
                lemma_shape_single(OpCode::Print, n, 1);
                lemma_shape_compose(d1, emitted(mid, *chunk), n, 0);
                let delta = emitted(*old(chunk), *chunk);
                assert(delta =~= d1 + seq![opcode_value(OpCode::Print)]);
                assert(delta.take(delta.len() - 1) =~= d1);
            }
        }
    }

    /// `expression statement → expression ';'`; emits the expression and
    /// `Pop`, leaving the stack as it was.
    fn expression_statement(&mut self, chunk: &mut Chunk)
        requires
            old(self).inv(),
            old(chunk).wf(),
        ensures
            final (self).inv(),
            final (self).src_of() == old(self).src_of(),
            final (self).measure() <= old(self).measure(),
            old(self).parser.had_error ==> final (self).parser.had_error,
            old(self).parser.current.ttype != TokenType::Eof ==> final (self).measure() < old(
                self,
            ).measure(),
            chunk_extends(*old(chunk), *final (chunk)),
            !final (self).parser.had_error ==> stack_shape(
                emitted(*old(chunk), *final (chunk)),
                final (chunk).consts().len() as nat,
                0,
            ) == Some(0int),
            !final (self).parser.had_error ==> ({
                let delta = emitted(*old(chunk), *final (chunk));
                &&& delta.len() >= 1
                &&& delta.last() == opcode_value(OpCode::Pop)
                &&& stack_shape(
                    delta.take(delta.len() - 1),
                    final (chunk).consts().len() as nat,
                    0,
                ) == Some(1int)
            }),
        decreases old(self).measure(), 2int,
    {
        self.expression(chunk);
        self.consume(TokenType::SemiColon, "Expect ';' after expression.");
        let ghost mid = *chunk;
        self.emit_code(chunk, OpCode::Pop);
        proof {
            lemma_extends_trans(*old(chunk), mid, *chunk);
            if !self.parser.had_error {
                let n = chunk.consts().len() as nat;
                let d1 = emitted(*old(chunk), mid);
                lemma_shape_more_consts(d1, mid.consts().len() as nat, n, 0);
                lemma_shape_single(OpCode::Pop, n, 1);
                lemma_shape_compose(d1, emitted(mid, *chunk), n, 0);
                let delta = emitted(*old(chunk), *chunk);
                assert(delta =~= d1 + seq![opcode_value(OpCode::Pop)]);
                assert(delta.take(delta.len() - 1) =~= d1);
            }
        }
    }

    /// `var declaration → 'var' IDENT ('=' expression)? ';'`, the `var`
    /// token already consumed. The variable's name goes into the
    /// constant pool; the initializer (or `Nil`) is emitted, then
    /// `DefineGlobal`.
    fn var_declaration(&mut self, chunk: &mut Chunk)
        requires
            old(self).inv(),
            old(chunk).wf(),
        ensures
            final (self).inv(),
            final (self).src_of() == old(self).src_of(),
            final (self).measure() <= old(self).measure(),
            old(self).parser.had_error ==> final (self).parser.had_error,
            chunk_extends(*old(chunk), *final (chunk)),
            !final (self).parser.had_error ==> stack_shape(
                emitted(*old(chunk), *final (chunk)),
                final (chunk).consts().len() as nat,
                0,
            ) == Some(0int),
            !final (self).parser.had_error ==> ({
                let delta = emitted(*old(chunk), *final (chunk));
                &&& old(self).parser.current.ttype == TokenType::Identifier
                &&& delta.len() >= 2
                &&& delta[delta.len() - 2] == opcode_value(OpCode::DefineGlobal)
                &&& (delta.last() as int) < final (chunk).consts().len()
                &&& final (chunk).consts()[delta.last() as int] == AbsValue::Str(
                    old(self).parser.current.lexeme@,
                )
                &&& stack_shape(
                    delta.take(delta.len() - 2),
                    final (chunk).consts().len() as nat,
                    0,
                ) == Some(1int)
            }),
        decreases old(self).measure(), 2int,
    {
        self.consume(TokenType::Identifier, "Expect variable name.");
        let name = self.parser.previous.lexeme.clone();
        let ghost nm = name@;
        let global = self.make_constant(chunk, Value::Obj(Object::Str(name)));
        let ghost c1 = *chunk;
        if self.is_match(TokenType::Assign) {
            self.expression(chunk);
        } else {
            self.emit_code(chunk, OpCode::Nil);
            proof {
                if !self.parser.had_error {
                    lemma_shape_single(OpCode::Nil, chunk.consts().len() as nat, 0);
                    assert(emitted(c1, *chunk) =~= seq![opcode_value(OpCode::Nil)]);
                }
            }
        }
        self.consume(TokenType::SemiColon, "Expect ';' after variable declaration.");
        let ghost c2 = *chunk;
        self.emit_bytes(chunk, OpCode::DefineGlobal, global);
        proof {
            lemma_extends_trans(*old(chunk), c1, c2);
            lemma_extends_trans(*old(chunk), c2, *chunk);
            if !self.parser.had_error {
                let n = chunk.consts().len() as nat;
                let d1 = emitted(c1, c2);
                lemma_shape_more_consts(d1, c2.consts().len() as nat, n, 0);
                lemma_shape_single_operand(OpCode::DefineGlobal, global, n, 1);
                lemma_shape_compose(d1, emitted(c2, *chunk), n, 0);
                assert(emitted(*old(chunk), c1) =~= Seq::<u8>::empty());
                assert(emitted(*old(chunk), *chunk) =~= emitted(c1, *chunk));
                lemma_extends_trans(c1, c2, *chunk);
                let delta = emitted(*old(chunk), *chunk);
                assert(delta =~= d1 + seq![opcode_value(OpCode::DefineGlobal), global]);
                assert(delta.take(delta.len() - 2) =~= d1);
                // the name constant survives the pool's later growth
                assert(c1.consts()[global as int] == AbsValue::Str(nm));
                assert(c1.consts()[global as int] == chunk.consts().subrange(
                    0,
                    c1.consts().len() as int,
                )[global as int]);
                assert(chunk.consts()[global as int] == AbsValue::Str(nm));
                assert(nm == old(self).parser.current.lexeme@);
            }
        }
    }

    /// `expression`: parse at assignment precedence; emits code that
    /// leaves exactly one value on the stack.
    fn expression(&mut self, chunk: &mut Chunk)
        requires
            old(self).inv(),
            old(chunk).wf(),
        ensures
            final (self).inv(),
            final (self).src_of() == old(self).src_of(),
            final (self).measure() <= old(self).measure(),
            old(self).parser.had_error ==> final (self).parser.had_error,
            old(self).parser.current.ttype != TokenType::Eof ==> final (self).measure() < old(
                self,
            ).measure(),
            chunk_extends(*old(chunk), *final (chunk)),
            !final (self).parser.had_error ==> stack_shape(
                emitted(*old(chunk), *final (chunk)),
                final (chunk).consts().len() as nat,
                0,
            ) == Some(1int),
        decreases old(self).measure(), 1int,
    {
        self.parse_precedence(chunk, Precedence::Assignment);
    }

    /// The Pratt loop: consume a token, run its prefix action, then as
    /// long as the lookahead's operator binds at least as tightly as
    /// `min_prec`, consume it and run its infix action.
    #[verifier::loop_isolation(false)]
    fn parse_precedence(&mut self, chunk: &mut Chunk, min_prec: Precedence)
        requires
            old(self).inv(),
            old(chunk).wf(),
            prec_rank(min_prec) >= 1,
        ensures
            final (self).inv(),
            final (self).src_of() == old(self).src_of(),
            final (self).measure() <= old(self).measure(),
            old(self).parser.had_error ==> final (self).parser.had_error,
            old(self).parser.current.ttype != TokenType::Eof ==> final (self).measure() < old(
                self,
            ).measure(),
            chunk_extends(*old(chunk), *final (chunk)),
            !final (self).parser.had_error ==> stack_shape(
                emitted(*old(chunk), *final (chunk)),
                final (chunk).consts().len() as nat,
                0,
            ) == Some(1int),
        decreases old(self).measure(), 0int,
    {
        self.advance();
        let prefix = Self::get_rule(self.parser.previous.token_type()).prefix;
        match prefix {
            None => {
                proof {
                    lemma_extends_refl(*chunk);
                }
                self.error_at_previous("Expected expression.");
                return ;
            },
            Some(act) => {
                proof {
                    // a token with a prefix rule is never `Eof`, so the
                    // advance above consumed a real token
                    assert(old(self).parser.current.ttype != TokenType::Eof);
                }
                self.run_prefix(chunk, act);
            },
        }
        loop
            invariant
                self.inv(),
                chunk.wf(),
                self.src_of() == old(self).src_of(),
                self.measure() < old(self).measure(),
                old(self).parser.had_error ==> self.parser.had_error,
                chunk_extends(*old(chunk), *chunk),
                !self.parser.had_error ==> stack_shape(
                    emitted(*old(chunk), *chunk),
                    chunk.consts().len() as nat,
                    0,
                ) == Some(1int),
            decreases self.measure(),
        {
            let cur_rule = Self::get_rule(self.parser.current.token_type());
            if !(min_prec.rank() <= cur_rule.precedence.rank()) {
                break ;
            }
            proof {
                // a token whose operator binds is never `Eof`, whose rule
                // has the lowest rank
                assert(self.parser.current.ttype != TokenType::Eof);
            }
            self.advance();
            let infix = Self::get_rule(self.parser.previous.token_type()).infix;
            let ghost mid = *chunk;
            match infix {
                Some(Action::Binary) => {
                    self.binary(chunk);
                },
                _ => {
                    proof {
                        lemma_extends_refl(*chunk);
                    }
                },
            }
            proof {
                lemma_extends_trans(*old(chunk), mid, *chunk);
                if !self.parser.had_error {
                    let n = chunk.consts().len() as nat;
                    let d1 = emitted(*old(chunk), mid);
                    lemma_shape_more_consts(d1, mid.consts().len() as nat, n, 0);
                    if emitted(mid, *chunk).len() == 0 {
                        assert(emitted(*old(chunk), *chunk) =~= d1);
                    } else {
                        lemma_shape_compose(d1, emitted(mid, *chunk), n, 0);
                    }
                }
            }
        }
    }

    /// Runs the prefix action of the token just consumed.
    fn run_prefix(&mut self, chunk: &mut Chunk, act: Action)
        requires
            old(self).inv(),
            old(chunk).wf(),
            rule_of(old(self).parser.previous.ttype).prefix == Some(act),
        ensures
            final (self).inv(),
            final (self).src_of() == old(self).src_of(),
            final (self).measure() <= old(self).measure(),
            old(self).parser.had_error ==> final (self).parser.had_error,
            chunk_extends(*old(chunk), *final (chunk)),
            !final (self).parser.had_error ==> stack_shape(
                emitted(*old(chunk), *final (chunk)),
                final (chunk).consts().len() as nat,
                0,
            ) == Some(1int),
        decreases old(self).measure(), 3int,
    {
        match act {
            Action::Grouping => self.grouping(chunk),
            Action::Unary => self.unary(chunk),
            Action::Number => self.number(chunk),
            Action::StringLit => self.string(chunk),
            Action::Literal => self.literal(chunk),
            Action::Variable => self.variable(chunk),
            Action::Binary => {
                proof {
                    // no token's rule names `Binary` as a prefix action
                    assert(false);
                }
            },
        }
    }

    /// `grouping → '(' expression ')'`, the `(` already consumed.
    fn grouping(&mut self, chunk: &mut Chunk)
        requires
            old(self).inv(),
            old(chunk).wf(),
        ensures
            final (self).inv(),
            final (self).src_of() == old(self).src_of(),
            final (self).measure() <= old(self).measure(),
            old(self).parser.had_error ==> final (self).parser.had_error,
            chunk_extends(*old(chunk), *final (chunk)),
            !final (self).parser.had_error ==> stack_shape(
                emitted(*old(chunk), *final (chunk)),
                final (chunk).consts().len() as nat,
                0,
            ) == Some(1int),
        decreases old(self).measure(), 2int,
    {
        self.expression(chunk);
        self.consume(TokenType::RightParen, "Expect ')' after expression.");
    }

    /// A numeric literal: its value goes into the constant pool and a
    /// `Constant` instruction pushes it.
    fn number(&mut self, chunk: &mut Chunk)
        requires
            old(self).inv(),
            old(chunk).wf(),
            old(self).parser.previous.ttype == TokenType::Number,
        ensures
            final (self).inv(),
            final (self).src_of() == old(self).src_of(),
            final (self).measure() <= old(self).measure(),
            old(self).parser.had_error ==> final (self).parser.had_error,
            chunk_extends(*old(chunk), *final (chunk)),
            !final (self).parser.had_error ==> stack_shape(
                emitted(*old(chunk), *final (chunk)),
                final (chunk).consts().len() as nat,
                0,
            ) == Some(1int),
            !final (self).parser.had_error ==> ({
                let delta = emitted(*old(chunk), *final (chunk));
                &&& delta.len() == 2
                &&& delta[0] == opcode_value(OpCode::Constant)
                &&& (delta[1] as int) < final (chunk).consts().len()
                &&& final (chunk).consts()[delta[1] as int] == AbsValue::Num(
                    numeral_bits(old(self).parser.previous.lexeme@),
                )
            }),
    {
        let bits = numeral_to_bits(self.parser.previous.lexeme.as_str());
        self.emit_constant(chunk, Value::Number(bits));
    }

    /// A string literal: the text between the quotes goes into the
    /// constant pool and a `Constant` instruction pushes it.
    fn string(&mut self, chunk: &mut Chunk)
        requires
            old(self).inv(),
            old(chunk).wf(),
            old(self).parser.previous.ttype == TokenType::String,
        ensures
            final (self).inv(),
            final (self).src_of() == old(self).src_of(),
            final (self).measure() <= old(self).measure(),
            old(self).parser.had_error ==> final (self).parser.had_error,
            chunk_extends(*old(chunk), *final (chunk)),
            !final (self).parser.had_error ==> stack_shape(
                emitted(*old(chunk), *final (chunk)),
                final (chunk).consts().len() as nat,
                0,
            ) == Some(1int),
            !final (self).parser.had_error ==> ({
                let delta = emitted(*old(chunk), *final (chunk));
                let lex = old(self).parser.previous.lexeme@;
                &&& delta.len() == 2
                &&& delta[0] == opcode_value(OpCode::Constant)
                &&& (delta[1] as int) < final (chunk).consts().len()
                &&& final (chunk).consts()[delta[1] as int] == AbsValue::Str(
                    lex.subrange(1, lex.len() - 1),
                )
            }),
    {
        let len = self.parser.previous.lexeme.as_str().unicode_len();
        let value = String::from_str(
            self.parser.previous.lexeme.as_str().substring_char(1, len - 1),
        );
        self.emit_constant(chunk, Value::Obj(Object::Str(value)));
    }

    /// `nil`, `true` or `false`: one instruction pushes the value.
    fn literal(&mut self, chunk: &mut Chunk)
        requires
            old(self).inv(),
            old(chunk).wf(),
            rule_of(old(self).parser.previous.ttype).prefix == Some(Action::Literal),
        ensures
            final (self).inv(),
            final (self).src_of() == old(self).src_of(),
            final (self).measure() <= old(self).measure(),
            old(self).parser.had_error ==> final (self).parser.had_error,
            chunk_extends(*old(chunk), *final (chunk)),
            !final (self).parser.had_error ==> stack_shape(
                emitted(*old(chunk), *final (chunk)),
                final (chunk).consts().len() as nat,
                0,
            ) == Some(1int),
            !final (self).parser.had_error ==> emitted(*old(chunk), *final (chunk)) == seq![
                opcode_value(literal_opcode(old(self).parser.previous.ttype)),
            ],
    {
        let op = match self.parser.previous.token_type() {
            TokenType::Nil => OpCode::Nil,
            TokenType::True => OpCode::True,
            TokenType::False => OpCode::False,
            _ => {
                proof {
                    // only `nil`, `true` and `false` carry the Literal action
                    assert(false);
                }
                OpCode::Nil
            },
        };
        self.emit_code(chunk, op);
        proof {
            lemma_shape_single(op, chunk.consts().len() as nat, 0);
            assert(emitted(*old(chunk), *chunk) =~= seq![opcode_value(op)]);
        }
    }

    /// A variable reference: the name goes into the constant pool and
    /// `GetGlobal` pushes its value.
    fn variable(&mut self, chunk: &mut Chunk)
        requires
            old(self).inv(),
            old(chunk).wf(),
        ensures
            final (self).inv(),
            final (self).src_of() == old(self).src_of(),
            final (self).measure() <= old(self).measure(),
            old(self).parser.had_error ==> final (self).parser.had_error,
            chunk_extends(*old(chunk), *final (chunk)),
            !final (self).parser.had_error ==> stack_shape(
                emitted(*old(chunk), *final (chunk)),
                final (chunk).consts().len() as nat,
                0,
            ) == Some(1int),
            !final (self).parser.had_error ==> ({
                let delta = emitted(*old(chunk), *final (chunk));
                &&& delta.len() == 2
                &&& delta[0] == opcode_value(OpCode::GetGlobal)
                &&& (delta[1] as int) < final (chunk).consts().len()
                &&& final (chunk).consts()[delta[1] as int] == AbsValue::Str(
                    old(self).parser.previous.lexeme@,
                )
            }),
    {
        let name = self.parser.previous.lexeme.clone();
        let ghost n = name@;
        let idx = self.make_constant(chunk, Value::Obj(Object::Str(name)));
        let ghost mid = *chunk;
        self.emit_bytes(chunk, OpCode::GetGlobal, idx);
        proof {
            lemma_extends_trans(*old(chunk), mid, *chunk);
            if !self.parser.had_error {
                lemma_shape_single_operand(OpCode::GetGlobal, idx, chunk.consts().len() as nat, 0);
                assert(emitted(*old(chunk), *chunk) =~= seq![
                    opcode_value(OpCode::GetGlobal),
                    idx,
                ]);
                assert(chunk.consts() == mid.consts());
                assert(mid.consts()[idx as int] == AbsValue::Str(n));
            }
        }
    }

    /// `- operand` or `! operand`: the operand is parsed at unary
    /// precedence, then one instruction replaces it.
    fn unary(&mut self, chunk: &mut Chunk)
        requires
            old(self).inv(),
            old(chunk).wf(),
        ensures
            final (self).inv(),
            final (self).src_of() == old(self).src_of(),
            final (self).measure() <= old(self).measure(),
            old(self).parser.had_error ==> final (self).parser.had_error,
            chunk_extends(*old(chunk), *final (chunk)),
            !final (self).parser.had_error ==> stack_shape(
                emitted(*old(chunk), *final (chunk)),
                final (chunk).consts().len() as nat,
                0,
            ) == Some(1int),
            !final (self).parser.had_error ==> ({
                let delta = emitted(*old(chunk), *final (chunk));
                &&& delta.len() >= 1
                &&& delta.last() == opcode_value(unary_opcode(old(self).parser.previous.ttype))
                &&& stack_shape(
                    delta.take(delta.len() - 1),
                    final (chunk).consts().len() as nat,
                    0,
                ) == Some(1int)
            }),
        decreases old(self).measure(), 2int,
    {
        let operator_type = self.parser.previous.token_type();
        self.parse_precedence(chunk, Precedence::Unary);
        let ghost mid = *chunk;
        match operator_type {
            TokenType::Minus => self.emit_byte(chunk, OpCode::Negate.to_byte()),
            TokenType::Bang => self.emit_byte(chunk, OpCode::Not.to_byte()),
            _ => {
                proof {
                    lemma_extends_refl(*chunk);
                }
                self.error_at_current("Unsupported Operand type.");
            },
        }
        proof {
            lemma_extends_trans(*old(chunk), mid, *chunk);
            if !self.parser.had_error {
                let n = chunk.consts().len() as nat;
                let d1 = emitted(*old(chunk), mid);
                lemma_shape_more_consts(d1, mid.consts().len() as nat, n, 0);
                let op = if operator_type == TokenType::Minus {
                    OpCode::Negate
                } else {
                    OpCode::Not
                };
                assert(emitted(mid, *chunk) =~= seq![opcode_value(op)]);
                lemma_shape_single(op, n, 1);
                lemma_shape_compose(d1, emitted(mid, *chunk), n, 0);
                let delta = emitted(*old(chunk), *chunk);
                assert(delta =~= d1 + seq![opcode_value(op)]);
                assert(delta.take(delta.len() - 1) =~= d1);
            }
        }
    }

    /// A binary operator: the right operand is parsed one level tighter
    /// (left associativity), then one instruction combines both.
    fn binary(&mut self, chunk: &mut Chunk)
        requires
            old(self).inv(),
            old(chunk).wf(),
            rule_of(old(self).parser.previous.ttype).infix == Some(Action::Binary),
        ensures
            final (self).inv(),
            final (self).src_of() == old(self).src_of(),
            final (self).measure() <= old(self).measure(),
            old(self).parser.had_error ==> final (self).parser.had_error,
            chunk_extends(*old(chunk), *final (chunk)),
            !final (self).parser.had_error ==> stack_shape(
                emitted(*old(chunk), *final (chunk)),
                final (chunk).consts().len() as nat,
                1,
            ) == Some(1int),
            !final (self).parser.had_error ==> ({
                let delta = emitted(*old(chunk), *final (chunk));
                &&& delta.len() >= 1
                &&& delta.last() == opcode_value(
                    binary_opcode(old(self).parser.previous.ttype),
                )
                &&& stack_shape(
                    delta.take(delta.len() - 1),
                    final (chunk).consts().len() as nat,
                    0,
                ) == Some(1int)
            }),
        decreases old(self).measure(), 2int,
    {
        let operator_type = self.parser.previous.token_type();
        let rule = Self::get_rule(operator_type);
        self.parse_precedence(chunk, rule.precedence.next());
        let ghost mid = *chunk;
        let op = match operator_type {
            TokenType::BangEqual => OpCode::BangEqual,
            TokenType::Equal => OpCode::Equal,
            TokenType::Greater => OpCode::Greater,
            TokenType::GreaterEqual => OpCode::GreaterEqual,
            TokenType::Less => OpCode::Less,
            TokenType::LessEqual => OpCode::LessEqual,
            TokenType::Plus => OpCode::Add,
            TokenType::Minus => OpCode::Subtract,
            TokenType::Star => OpCode::Multiply,
            TokenType::Slash => OpCode::Divide,
            _ => {
                proof {
                    // only the ten operator tokens carry the Binary action
                    assert(false);
                }
                OpCode::Add
            },
        };
        self.emit_code(chunk, op);
        proof {
            lemma_extends_trans(*old(chunk), mid, *chunk);
            if !self.parser.had_error {
                let n = chunk.consts().len() as nat;
                let d1 = emitted(*old(chunk), mid);
                lemma_shape_more_consts(d1, mid.consts().len() as nat, n, 0);
                lemma_shape_monotonic(d1, n, 0, 1);
                lemma_shape_single(op, n, 2);
                lemma_shape_compose(d1, emitted(mid, *chunk), n, 1);
                let delta = emitted(*old(chunk), *chunk);
                assert(delta =~= d1 + seq![opcode_value(op)]);
                assert(delta.take(delta.len() - 1) =~= d1);
            }
        }
    }

    /// The rule table entry of a token kind.
    pub fn get_rule(ttype: TokenType) -> (r: ParseRule)
        ensures
            r == rule_of(ttype),
    {
        match ttype {
            TokenType::LeftParen => ParseRule {
                prefix: Some(Action::Grouping),
                infix: None,
                precedence: Precedence::Lowest,
            },
            TokenType::Minus => ParseRule {
                prefix: Some(Action::Unary),
                infix: Some(Action::Binary),
                precedence: Precedence::Term,
            },
            TokenType::Plus => ParseRule {
                prefix: None,
                infix: Some(Action::Binary),
                precedence: Precedence::Term,
            },
            TokenType::Slash | TokenType::Star => ParseRule {
                prefix: None,
                infix: Some(Action::Binary),
                precedence: Precedence::Factor,
            },
            TokenType::Number => ParseRule {
                prefix: Some(Action::Number),
                infix: None,
                precedence: Precedence::Lowest,
            },
            TokenType::False | TokenType::True | TokenType::Nil => ParseRule {
                prefix: Some(Action::Literal),
                infix: None,
                precedence: Precedence::Lowest,
            },
            TokenType::Bang => ParseRule {
                prefix: Some(Action::Unary),
                infix: None,
                precedence: Precedence::Lowest,
            },
            TokenType::BangEqual | TokenType::Equal => ParseRule {
                prefix: None,
                infix: Some(Action::Binary),
                precedence: Precedence::Equality,
            },
            TokenType::Greater | TokenType::GreaterEqual | TokenType::Less
                | TokenType::LessEqual => ParseRule {
                prefix: None,
                infix: Some(Action::Binary),
                precedence: Precedence::Comparison,
            },
            TokenType::String => ParseRule {
                prefix: Some(Action::StringLit),
                infix: None,
                precedence: Precedence::Lowest,
            },
            TokenType::Identifier => ParseRule {
                prefix: Some(Action::Variable),
                infix: None,
                precedence: Precedence::Lowest,
            },
            _ => ParseRule { prefix: None, infix: None, precedence: Precedence::Lowest },
        }
    }

    /// Shifts the lookahead: the current token becomes the previous one
    /// and the scanner yields the next, reporting and skipping `Error`
    /// tokens.
    #[verifier::loop_isolation(false)]
    fn advance(&mut self)
        requires
            old(self).inv(),
        ensures
            final (self).inv(),
            final (self).src_of() == old(self).src_of(),
            final (self).measure() <= old(self).measure(),
            old(self).parser.had_error ==> final (self).parser.had_error,
            old(self).parser.current.ttype != TokenType::Eof ==> final (self).measure() < old(
                self,
            ).measure(),
            final (self).parser.previous == old(self).parser.current,
            final (self).parser.current.ttype != TokenType::Error,
            ({
                let r = crate::scanner::spec_token(
                    old(self).scanner.src(),
                    old(self).scanner.pos(),
                    old(self).scanner.line_of(),
                );
                r.ttype != TokenType::Error ==> {
                    &&& final (self).parser.current.ttype == r.ttype
                    &&& final (self).parser.current.lexeme@ == old(self).scanner.src().subrange(
                        r.start,
                        r.end,
                    )
                    &&& final (self).scanner.pos() == r.end
                    &&& final (self).scanner.line_of() == r.line
                    &&& final (self).parser.had_error == old(self).parser.had_error
                    &&& final (self).parser.panic_mode == old(self).parser.panic_mode
                }
            }),
    {
        let ghost first = crate::scanner::spec_token(
            old(self).scanner.src(),
            old(self).scanner.pos(),
            old(self).scanner.line_of(),
        );
        self.parser.previous = self.parser.current.duplicate();
        loop
            invariant
                self.inv(),
                self.src_of() == old(self).src_of(),
                self.measure() <= old(self).measure(),
                self.scanner.pos() >= old(self).scanner.pos(),
                old(self).parser.had_error ==> self.parser.had_error,
                self.parser.previous == old(self).parser.current,
                self.scanner.wf(),
                first.ttype == TokenType::Error || (self.scanner.pos() == old(self).scanner.pos()
                    && self.scanner.line_of() == old(self).scanner.line_of()
                    && self.parser.had_error == old(self).parser.had_error
                    && self.parser.panic_mode == old(self).parser.panic_mode),
            decreases self.scanner.src().len() - self.scanner.pos(),
        {
            let ghost pos_before = self.scanner.pos();
            let t = self.scanner.scan_token();
            let is_err = t.is(TokenType::Error);
            let line = t.line;
            let msg = t.lexeme.clone();
            self.parser.current = t;
            if !is_err {
                proof {
                    if old(self).parser.current.ttype != TokenType::Eof {
                        if self.parser.current.ttype == TokenType::Eof {
                            assert(self.measure() == 0);
                        } else {
                            assert(self.scanner.pos() > pos_before);
                        }
                        assert(self.measure() < old(self).measure());
                    }
                }
                return ;
            }
            self.error_at(line, TokenType::Error, "", msg.as_str());
        }
    }

    /// Whether the lookahead has the given kind.
    fn check(&self, ttype: TokenType) -> (r: bool)
        ensures
            r == (self.parser.current.ttype == ttype),
    {
        self.parser.current.is(ttype)
    }

    /// Consumes the lookahead when it has the given kind.
    fn is_match(&mut self, ttype: TokenType) -> (r: bool)
        requires
            old(self).inv(),
        ensures
            final (self).inv(),
            final (self).src_of() == old(self).src_of(),
            final (self).measure() <= old(self).measure(),
            old(self).parser.had_error ==> final (self).parser.had_error,
            r == (old(self).parser.current.ttype == ttype),
            !r ==> *final (self) == *old(self),
            r ==> final (self).parser.previous == old(self).parser.current,
            r && old(self).parser.current.ttype != TokenType::Eof ==> final (self).measure() < old(
                self,
            ).measure(),
            r ==> ({
                let q = crate::scanner::spec_token(
                    old(self).scanner.src(),
                    old(self).scanner.pos(),
                    old(self).scanner.line_of(),
                );
                q.ttype != TokenType::Error ==> {
                    &&& final (self).parser.current.ttype == q.ttype
                    &&& final (self).scanner.pos() == q.end
                    &&& final (self).parser.had_error == old(self).parser.had_error
                }
            }),
    {
        if !self.check(ttype) {
            return false;
        }
        self.advance();
        true
    }

    /// Consumes the lookahead when it has the given kind, and reports
    /// `message` at it otherwise; afterwards an error has been recorded
    /// unless the kind matched.
    fn consume(&mut self, ttype: TokenType, message: &str)
        requires
            old(self).inv(),
        ensures
            final (self).inv(),
            final (self).src_of() == old(self).src_of(),
            final (self).measure() <= old(self).measure(),
            old(self).parser.had_error ==> final (self).parser.had_error,
            !final (self).parser.had_error ==> old(self).parser.current.ttype == ttype,
            !final (self).parser.had_error ==> final (self).parser.previous == old(
                self,
            ).parser.current,
    {
        if self.parser.current.is(ttype) {
            self.advance();
            return ;
        }
        self.error_at_current(message);
    }

    fn emit_byte(&self, chunk: &mut Chunk, byte: u8)
        requires
            old(chunk).wf(),
        ensures
            final (chunk).wf(),
            chunk_extends(*old(chunk), *final (chunk)),
            final (chunk).code_view() == old(chunk).code_view().push(byte),
            final (chunk).consts() == old(chunk).consts(),
    {
        chunk.write(byte, self.parser.previous.line);
        proof {
            lemma_push_extends(*old(chunk), *chunk, byte);
        }
    }

    fn emit_code(&self, chunk: &mut Chunk, code: OpCode)
        requires
            old(chunk).wf(),
        ensures
            final (chunk).wf(),
            chunk_extends(*old(chunk), *final (chunk)),
            final (chunk).code_view() == old(chunk).code_view().push(opcode_value(code)),
            final (chunk).consts() == old(chunk).consts(),
            emitted(*old(chunk), *final (chunk)) == seq![opcode_value(code)],
    {
        chunk.write_opcode(code, self.parser.previous.line);
        proof {
            lemma_push_extends(*old(chunk), *chunk, opcode_value(code));
            assert(emitted(*old(chunk), *chunk) =~= seq![opcode_value(code)]);
        }
    }

    fn emit_bytes(&self, chunk: &mut Chunk, code: OpCode, operand: u8)
        requires
            old(chunk).wf(),
        ensures
            final (chunk).wf(),
            chunk_extends(*old(chunk), *final (chunk)),
            final (chunk).code_view() == old(chunk).code_view().push(opcode_value(code)).push(
                operand,
            ),
            final (chunk).consts() == old(chunk).consts(),
            emitted(*old(chunk), *final (chunk)) == seq![opcode_value(code), operand],
    {
        let ghost c0 = *chunk;
        self.emit_code(chunk, code);
        let ghost c1 = *chunk;
        self.emit_byte(chunk, operand);
        proof {
            lemma_extends_trans(c0, c1, *chunk);
            assert(emitted(c0, *chunk) =~= seq![opcode_value(code), operand]);
        }
    }

    fn emit_return(&self, chunk: &mut Chunk)
        requires
            old(chunk).wf(),
        ensures
            final (chunk).wf(),
            chunk_extends(*old(chunk), *final (chunk)),
            final (chunk).code_view() == old(chunk).code_view().push(
                opcode_value(OpCode::Return),
            ),
            final (chunk).consts() == old(chunk).consts(),
            emitted(*old(chunk), *final (chunk)) == seq![opcode_value(OpCode::Return)],
    {
        self.emit_byte(chunk, OpCode::Return.to_byte());
        proof {
            assert(emitted(*old(chunk), *chunk) =~= seq![opcode_value(OpCode::Return)]);
        }
    }

    /// Adds a value to the chunk's constant pool and returns its index;
    /// on a full pool it reports "Too many constants in one chunk." and
    /// returns index zero.
    fn make_constant(&mut self, chunk: &mut Chunk, value: Value) -> (idx: u8)
        requires
            old(self).inv(),
            old(chunk).wf(),
        ensures
            final (self).inv(),
            final (self).src_of() == old(self).src_of(),
            final (self).measure() == old(self).measure(),
            old(self).parser.had_error ==> final (self).parser.had_error,
            final (chunk).wf(),
            chunk_extends(*old(chunk), *final (chunk)),
            final (chunk).code_view() == old(chunk).code_view(),
            !final (self).parser.had_error ==> (idx as nat) < final (chunk).consts().len()
                && idx as int == old(chunk).consts().len() && final (chunk).consts() == old(
                chunk,
            ).consts().push(value@),
            old(chunk).consts().len() >= 256 ==> idx == 0 && final (self).parser.had_error
                && final (chunk).consts() == old(chunk).consts(),
    {
        match chunk.add_constant(value) {
            Some(constant) => {
                proof {
                    assert(chunk.consts().subrange(0, old(chunk).consts().len() as int)
                        =~= old(chunk).consts());
                    lemma_consts_push_extends(*old(chunk), *chunk);
                }
                constant
            },
            None => {
                proof {
                    lemma_extends_refl(*chunk);
                }
                self.error_at_previous("Too many constants in one chunk.");
                0
            },
        }
    }

    /// Adds a constant and emits `Constant` with its index: code that
    /// pushes one value.
    fn emit_constant(&mut self, chunk: &mut Chunk, value: Value)
        requires
            old(self).inv(),
            old(chunk).wf(),
        ensures
            final (self).inv(),
            final (self).src_of() == old(self).src_of(),
            final (self).measure() == old(self).measure(),
            old(self).parser.had_error ==> final (self).parser.had_error,
            chunk_extends(*old(chunk), *final (chunk)),
            !final (self).parser.had_error ==> stack_shape(
                emitted(*old(chunk), *final (chunk)),
                final (chunk).consts().len() as nat,
                0,
            ) == Some(1int),
            !final (self).parser.had_error ==> ({
                let delta = emitted(*old(chunk), *final (chunk));
                &&& delta.len() == 2
                &&& delta[0] == opcode_value(OpCode::Constant)
                &&& (delta[1] as int) < final (chunk).consts().len()
                &&& final (chunk).consts()[delta[1] as int] == value@
            }),
    {
        let ghost v = value@;
        let constant = self.make_constant(chunk, value);
        let ghost mid = *chunk;
        self.emit_bytes(chunk, OpCode::Constant, constant);
        proof {
            lemma_extends_trans(*old(chunk), mid, *chunk);
            if !self.parser.had_error {
                lemma_shape_single_operand(OpCode::Constant, constant, chunk.consts().len() as nat, 0);
                assert(emitted(*old(chunk), *chunk) =~= seq![
                    opcode_value(OpCode::Constant),
                    constant,
                ]);
                assert(chunk.consts() == mid.consts());
                assert(mid.consts()[constant as int] == v);
            }
        }
    }

    fn error_at_current(&mut self, message: &str)
        requires
            old(self).inv(),
        ensures
            final (self).inv(),
            final (self).src_of() == old(self).src_of(),
            final (self).measure() == old(self).measure(),
            final (self).parser.had_error,
            final (self).parser.current == old(self).parser.current,
            final (self).parser.previous == old(self).parser.previous,
    {
        let line = self.parser.current.line;
        let ttype = self.parser.current.token_type();
        let lexeme = self.parser.current.lexeme.clone();
        self.error_at(line, ttype, lexeme.as_str(), message);
    }

    fn error_at_previous(&mut self, message: &str)
        requires
            old(self).inv(),
        ensures
            final (self).inv(),
            final (self).src_of() == old(self).src_of(),
            final (self).measure() == old(self).measure(),
            final (self).parser.had_error,
            final (self).parser.current == old(self).parser.current,
            final (self).parser.previous == old(self).parser.previous,
    {
        let line = self.parser.previous.line;
        let ttype = self.parser.previous.token_type();
        let lexeme = self.parser.previous.lexeme.clone();
        self.error_at(line, ttype, lexeme.as_str(), message);
    }

    /// Reports a diagnostic at a token, unless the compiler is already
    /// in panic mode, in which case the report is suppressed; either
    /// way an error stands recorded afterwards.
    fn error_at(&mut self, line: usize, ttype: TokenType, lexeme: &str, message: &str)
        requires
            old(self).inv(),
        ensures
            final (self).inv(),
            final (self).src_of() == old(self).src_of(),
            final (self).measure() == old(self).measure(),
            final (self).parser.had_error,
            final (self).parser.current == old(self).parser.current,
            final (self).parser.previous == old(self).parser.previous,
            old(self).parser.panic_mode ==> final (self).diags() == old(self).diags(),
            !old(self).parser.panic_mode ==> final (self).diags() == old(self).diags().push(
                diag_text(line as nat, ttype, lexeme@, message@),
            ),
    {
        if self.parser.panic_mode {
            return ;
        }
        self.parser.panic_mode = true;
        let d = render_diag(line, ttype, lexeme, message);
        self.diagnostics.push(d);
        self.parser.had_error = true;
        proof {
            assert(self.diags() =~= old(self).diags().push(
                diag_text(line as nat, ttype, lexeme@, message@),
            ));
        }
    }
}

/// Renders one diagnostic as `diag_text` describes.
fn render_diag(line: usize, ttype: TokenType, lexeme: &str, message: &str) -> (r: String)
    ensures
        r@ == diag_text(line as nat, ttype, lexeme@, message@),
{
    proof {
        reveal_strlit("[line ");
        reveal_strlit("] Error");
        reveal_strlit(" at end.");
        reveal_strlit(" at '");
        reveal_strlit("'");
        reveal_strlit(": ");
    }
    let mut out = String::from_str("[line ");
    out.append(u64_to_dec(line as u64).as_str());
    out.append("] Error");
    if ttype == TokenType::Eof {
        out.append(" at end.");
    } else if ttype == TokenType::Error {
    } else {
        out.append(" at '");
        out.append(lexeme);
        out.append("'");
    }
    out.append(": ");
    out.append(message);
    proof {
        assert(out@ =~= diag_text(line as nat, ttype, lexeme@, message@));
    }
    out
}

/// Appending one code byte extends a chunk.
proof fn lemma_push_extends(a: Chunk, b: Chunk, byte: u8)
    requires
        b.wf(),
        b.code_view() == a.code_view().push(byte),
        b.consts() == a.consts(),
    ensures
        chunk_extends(a, b),
{
    assert(b.code_view().subrange(0, a.code_view().len() as int) =~= a.code_view());
    assert(b.consts().subrange(0, a.consts().len() as int) =~= a.consts());
}

/// Appending one constant extends a chunk.
proof fn lemma_consts_push_extends(a: Chunk, b: Chunk)
    requires
        b.wf(),
        b.code_view() == a.code_view(),
        a.consts().len() < b.consts().len(),
        b.consts().subrange(0, a.consts().len() as int) == a.consts(),
    ensures
        chunk_extends(a, b),
{
    assert(b.code_view().subrange(0, a.code_view().len() as int) =~= a.code_view());
}

/// A chunk extends itself.
proof fn lemma_extends_refl(a: Chunk)
    requires
        a.wf(),
    ensures
        chunk_extends(a, a),
{
    assert(a.code_view().subrange(0, a.code_view().len() as int) =~= a.code_view());
    assert(a.consts().subrange(0, a.consts().len() as int) =~= a.consts());
}

} // verus!
