use crate::chunk::{instr_size, op_pops, op_pushes, stack_shape, Chunk};
use crate::compiler::Compiler;
use crate::number::{
    add_bits, bits_add, bits_cmp, bits_div, bits_is_zero, bits_mul, bits_neg, bits_sub, cmp_bits,
    div_bits, is_zero_bits, mul_bits, neg_bits, num_text, number_text, sub_bits,
};
use crate::object::Object;
use crate::opcode::{lemma_opcode_roundtrip, opcode_has_operand, opcode_of_byte, opcode_value, OpCode};
use crate::text::{dec_str, u64_to_dec};
use crate::value::{falsy, format_abs, format_value, val_eq, AbsValue, Value};
use vstd::prelude::*;

verus! {

/// How a run of the interpreter failed.
#[derive(Debug, PartialEq, Eq, Structural, Copy, Clone)]
pub enum InterpretResult {
    CompileError,
    RuntimeError,
}

/// The machine's state between two instructions: the next instruction's
/// offset, the value stack, the globals, and what has been printed.
#[verifier::ext_equal]
pub struct VmState {
    pub ip: int,
    pub stack: Seq<AbsValue>,
    pub globals: Map<Seq<char>, AbsValue>,
    pub output: Seq<Seq<char>>,
}

/// How a run of the bytecode machine ends.
///
/// `Done`: a `Return` was executed. `Fault`: a runtime error; the stack
/// is cleared, and the message and source line describe it. `BadConstant`:
/// a constant operand pointed past the pool, which the machine reports
/// as a compile error, since no compiled chunk asks for a missing
/// constant.
pub enum RunEnd {
    Done(VmState),
    Fault { globals: Map<Seq<char>, AbsValue>, output: Seq<Seq<char>>, msg: Seq<char>, line: nat },
    BadConstant { globals: Map<Seq<char>, AbsValue>, output: Seq<Seq<char>> },
}

/// The source line recorded for a code offset, or zero when the line
/// table has no entry for it.
pub open spec fn line_at(lines: Seq<usize>, i: int) -> nat {
    if 0 <= i < lines.len() {
        lines[i] as nat
    } else {
        0
    }
}

pub open spec fn msg_malformed() -> Seq<char> {
    "Malformed bytecode."@
}

pub open spec fn msg_operand_number() -> Seq<char> {
    "Operand must be a number."@
}

pub open spec fn msg_operands() -> Seq<char> {
    "Operands must be number or string."@
}

pub open spec fn msg_div_zero() -> Seq<char> {
    "Can't divide by zero."@
}

pub open spec fn msg_undefined(name: Seq<char>) -> Seq<char> {
    "Undefined variable '"@ + name + "'."@
}

/// The second diagnostic line of a runtime error.
pub open spec fn frame_text(line: nat) -> Seq<char> {
    "[line "@ + dec_str(line) + "] in script."@
}

/// A runtime error: the stack is discarded.
pub open spec fn fault_at(st: VmState, msg: Seq<char>, line: nat) -> RunEnd {
    RunEnd::Fault { globals: st.globals, output: st.output, msg, line }
}

/// What `Add` yields, or `None` when the operands' shapes do not allow
/// it: numbers add as IEEE values; a string concatenates with a string
/// or with a number written out as text.
pub open spec fn add_values(a: AbsValue, b: AbsValue) -> Option<AbsValue> {
    match a {
        AbsValue::Num(x) => match b {
            AbsValue::Num(y) => Some(AbsValue::Num(add_bits(x, y))),
            AbsValue::Str(t) => Some(AbsValue::Str(num_text(x) + t)),
            _ => None,
        },
        AbsValue::Str(s) => match b {
            AbsValue::Num(y) => Some(AbsValue::Str(s + num_text(y))),
            AbsValue::Str(t) => Some(AbsValue::Str(s + t)),
            _ => None,
        },
        _ => None,
    }
}

/// Whether a numeric comparison holds, given how the operands compare;
/// a NaN operand compares as `None` and fails every test.
pub open spec fn cmp_holds(op: OpCode, c: Option<core::cmp::Ordering>) -> bool {
    match op {
        OpCode::Greater => c == Some(core::cmp::Ordering::Greater),
        OpCode::GreaterEqual => c == Some(core::cmp::Ordering::Greater) || c == Some(
            core::cmp::Ordering::Equal,
        ),
        OpCode::Less => c == Some(core::cmp::Ordering::Less),
        OpCode::LessEqual => c == Some(core::cmp::Ordering::Less) || c == Some(
            core::cmp::Ordering::Equal,
        ),
        _ => false,
    }
}

/// The bytecode machine itself, as mathematics: from a state, execute
/// instructions until a `Return`, a runtime error, or corrupt code ends
/// the run. Straight-line code only, so each step moves `ip` forward.
pub open spec fn spec_run(
    code: Seq<u8>,
    consts: Seq<AbsValue>,
    lines: Seq<usize>,
    st: VmState,
) -> RunEnd
    decreases code.len() - st.ip,
{
    if st.ip < 0 || st.ip >= code.len() {
        fault_at(st, msg_malformed(), line_at(lines, code.len() - 1))
    } else {
        let line = line_at(lines, st.ip);
        match opcode_of_byte(code[st.ip]) {
            None => fault_at(st, msg_malformed(), line),
            Some(op) => match op {
                OpCode::Return => RunEnd::Done(VmState { ip: st.ip + 1, ..st }),
                OpCode::Constant => {
                    if st.ip + 1 >= code.len() {
                        fault_at(st, msg_malformed(), line)
                    } else if code[st.ip + 1] >= consts.len() {
                        RunEnd::BadConstant { globals: st.globals, output: st.output }
                    } else {
                        spec_run(
                            code,
                            consts,
                            lines,
                            VmState {
                                ip: st.ip + 2,
                                stack: st.stack.push(consts[code[st.ip + 1] as int]),
                                ..st
                            },
                        )
                    }
                },
                OpCode::Nil => spec_run(
                    code,
                    consts,
                    lines,
                    VmState { ip: st.ip + 1, stack: st.stack.push(AbsValue::Nil), ..st },
                ),
                OpCode::True => spec_run(
                    code,
                    consts,
                    lines,
                    VmState { ip: st.ip + 1, stack: st.stack.push(AbsValue::Bool(true)), ..st },
                ),
                OpCode::False => spec_run(
                    code,
                    consts,
                    lines,
                    VmState { ip: st.ip + 1, stack: st.stack.push(AbsValue::Bool(false)), ..st },
                ),
                OpCode::Pop => {
                    if st.stack.len() < 1 {
                        fault_at(st, msg_malformed(), line)
                    } else {
                        spec_run(
                            code,
                            consts,
                            lines,
                            VmState { ip: st.ip + 1, stack: st.stack.drop_last(), ..st },
                        )
                    }
                },
                OpCode::Print => {
                    if st.stack.len() < 1 {
                        fault_at(st, msg_malformed(), line)
                    } else {
                        spec_run(
                            code,
                            consts,
                            lines,
                            VmState {
                                ip: st.ip + 1,
                                stack: st.stack.drop_last(),
                                output: st.output.push(format_abs(st.stack.last())),
                                ..st
                            },
                        )
                    }
                },
                OpCode::Equal => {
                    if st.stack.len() < 2 {
                        fault_at(st, msg_malformed(), line)
                    } else {
                        let b = st.stack.last();
                        let a = st.stack.drop_last().last();
                        spec_run(
                            code,
                            consts,
                            lines,
                            VmState {
                                ip: st.ip + 1,
                                stack: st.stack.drop_last().drop_last().push(
                                    AbsValue::Bool(val_eq(a, b)),
                                ),
                                ..st
                            },
                        )
                    }
                },
                OpCode::BangEqual => {
                    if st.stack.len() < 2 {
                        fault_at(st, msg_malformed(), line)
                    } else {
                        let b = st.stack.last();
                        let a = st.stack.drop_last().last();
                        spec_run(
                            code,
                            consts,
                            lines,
                            VmState {
                                ip: st.ip + 1,
                                stack: st.stack.drop_last().drop_last().push(
                                    AbsValue::Bool(!val_eq(a, b)),
                                ),
                                ..st
                            },
                        )
                    }
                },
                OpCode::Greater | OpCode::GreaterEqual | OpCode::Less | OpCode::LessEqual => {
                    if st.stack.len() < 2 {
                        fault_at(st, msg_malformed(), line)
                    } else {
                        let b = st.stack.last();
                        let a = st.stack.drop_last().last();
                        if !(a is Num && b is Num) {
                            fault_at(st, msg_operands(), line)
                        } else {
                            spec_run(
                                code,
                                consts,
                                lines,
                                VmState {
                                    ip: st.ip + 1,
                                    stack: st.stack.drop_last().drop_last().push(
                                        AbsValue::Bool(cmp_holds(op, cmp_bits(a->Num_0, b->Num_0))),
                                    ),
                                    ..st
                                },
                            )
                        }
                    }
                },
                OpCode::Add => {
                    if st.stack.len() < 2 {
                        fault_at(st, msg_malformed(), line)
                    } else {
                        let b = st.stack.last();
                        let a = st.stack.drop_last().last();
                        match add_values(a, b) {
                            None => fault_at(st, msg_operands(), line),
                            Some(v) => spec_run(
                                code,
                                consts,
                                lines,
                                VmState {
                                    ip: st.ip + 1,
                                    stack: st.stack.drop_last().drop_last().push(v),
                                    ..st
                                },
                            ),
                        }
                    }
                },
                OpCode::Subtract | OpCode::Multiply => {
                    if st.stack.len() < 2 {
                        fault_at(st, msg_malformed(), line)
                    } else {
                        let b = st.stack.last();
                        let a = st.stack.drop_last().last();
                        if !(a is Num && b is Num) {
                            fault_at(st, msg_operands(), line)
                        } else {
                            let bits = if op == OpCode::Subtract {
                                sub_bits(a->Num_0, b->Num_0)
                            } else {
                                mul_bits(a->Num_0, b->Num_0)
                            };
                            spec_run(
                                code,
                                consts,
                                lines,
                                VmState {
                                    ip: st.ip + 1,
                                    stack: st.stack.drop_last().drop_last().push(
                                        AbsValue::Num(bits),
                                    ),
                                    ..st
                                },
                            )
                        }
                    }
                },
                OpCode::Divide => {
                    if st.stack.len() < 2 {
                        fault_at(st, msg_malformed(), line)
                    } else {
                        let b = st.stack.last();
                        let a = st.stack.drop_last().last();
                        if !(a is Num && b is Num) {
                            fault_at(st, msg_operands(), line)
                        } else if is_zero_bits(b->Num_0) {
                            fault_at(st, msg_div_zero(), line)
                        } else {
                            spec_run(
                                code,
                                consts,
                                lines,
                                VmState {
                                    ip: st.ip + 1,
                                    stack: st.stack.drop_last().drop_last().push(
                                        AbsValue::Num(div_bits(a->Num_0, b->Num_0)),
                                    ),
                                    ..st
                                },
                            )
                        }
                    }
                },
                OpCode::Not => {
                    if st.stack.len() < 1 {
                        fault_at(st, msg_malformed(), line)
                    } else {
                        spec_run(
                            code,
                            consts,
                            lines,
                            VmState {
                                ip: st.ip + 1,
                                stack: st.stack.drop_last().push(
                                    AbsValue::Bool(falsy(st.stack.last())),
                                ),
                                ..st
                            },
                        )
                    }
                },
                OpCode::Negate => {
                    if st.stack.len() < 1 {
                        fault_at(st, msg_malformed(), line)
                    } else if !(st.stack.last() is Num) {
                        fault_at(st, msg_operand_number(), line)
                    } else {
                        spec_run(
                            code,
                            consts,
                            lines,
                            VmState {
                                ip: st.ip + 1,
                                stack: st.stack.drop_last().push(
                                    AbsValue::Num(neg_bits(st.stack.last()->Num_0)),
                                ),
                                ..st
                            },
                        )
                    }
                },
                OpCode::DefineGlobal => {
                    if st.ip + 1 >= code.len() {
                        fault_at(st, msg_malformed(), line)
                    } else if code[st.ip + 1] >= consts.len() {
                        RunEnd::BadConstant { globals: st.globals, output: st.output }
                    } else if !(consts[code[st.ip + 1] as int] is Str) {
                        fault_at(st, msg_malformed(), line)
                    } else if st.stack.len() < 1 {
                        fault_at(st, msg_malformed(), line)
                    } else {
                        spec_run(
                            code,
                            consts,
                            lines,
                            VmState {
                                ip: st.ip + 2,
                                stack: st.stack.drop_last(),
                                globals: st.globals.insert(
                                    consts[code[st.ip + 1] as int]->Str_0,
                                    st.stack.last(),
                                ),
                                ..st
                            },
                        )
                    }
                },
                OpCode::GetGlobal => {
                    if st.ip + 1 >= code.len() {
                        fault_at(st, msg_malformed(), line)
                    } else if code[st.ip + 1] >= consts.len() {
                        RunEnd::BadConstant { globals: st.globals, output: st.output }
                    } else if !(consts[code[st.ip + 1] as int] is Str) {
                        fault_at(st, msg_malformed(), line)
                    } else {
                        let name = consts[code[st.ip + 1] as int]->Str_0;
                        if !st.globals.contains_key(name) {
                            fault_at(st, msg_undefined(name), line)
                        } else {
                            spec_run(
                                code,
                                consts,
                                lines,
                                VmState {
                                    ip: st.ip + 2,
                                    stack: st.stack.push(st.globals[name]),
                                    ..st
                                },
                            )
                        }
                    }
                },
            },
        }
    }
}

/// Code that respects the stack discipline runs cleanly: starting
/// anywhere in a block whose shape is defined and that ends in a single
/// final `Return`, the machine never reads a missing constant, and when
/// it reaches the `Return`, the stack holds exactly as many values as
/// the shape says.
#[verifier::rlimit(100)]
pub proof fn lemma_shaped_code_runs(
    code: Seq<u8>,
    consts: Seq<AbsValue>,
    lines: Seq<usize>,
    st: VmState,
)
    requires
        code.len() >= 1,
        code.last() == opcode_value(OpCode::Return),
        0 <= st.ip <= code.len() - 1,
        stack_shape(
            code.subrange(st.ip, code.len() - 1),
            consts.len() as nat,
            st.stack.len() as int,
        ) is Some,
    ensures
        !(spec_run(code, consts, lines, st) is BadConstant),
        spec_run(code, consts, lines, st) is Done ==> spec_run(
            code,
            consts,
            lines,
            st,
        )->Done_0.stack.len() == stack_shape(
            code.subrange(st.ip, code.len() - 1),
            consts.len() as nat,
            st.stack.len() as int,
        ).unwrap(),
    decreases code.len() - st.ip,
{
    let block = code.subrange(st.ip, code.len() - 1);
    let n = consts.len() as nat;
    let h = st.stack.len() as int;
    if st.ip == code.len() - 1 {
        // the block is empty and the instruction here is the final Return
        assert(block.len() == 0);
        assert(code[st.ip] == code.last());
        lemma_opcode_roundtrip(OpCode::Return);
        assert(spec_run(code, consts, lines, st) == RunEnd::Done(
            VmState { ip: st.ip + 1, ..st },
        ));
    } else {
        assert(block.len() >= 1);
        assert(block[0] == code[st.ip]);
        let op = opcode_of_byte(code[st.ip]).unwrap();
        let size = instr_size(op);
        let hp = h - op_pops(op) + op_pushes(op);
        assert(opcode_has_operand(op) ==> block.len() >= 2 && block[1] == code[st.ip + 1]);
        assert(code.subrange(st.ip + size, code.len() - 1) =~= block.subrange(
            size,
            block.len() as int,
        ));
        match op {
            OpCode::Return => {
                assert(false);
            },
            OpCode::Constant => {
                let st2 = VmState {
                    ip: st.ip + 2,
                    stack: st.stack.push(consts[code[st.ip + 1] as int]),
                    ..st
                };
                lemma_shaped_code_runs(code, consts, lines, st2);
            },
            OpCode::Nil => {
                lemma_shaped_code_runs(
                    code,
                    consts,
                    lines,
                    VmState { ip: st.ip + 1, stack: st.stack.push(AbsValue::Nil), ..st },
                );
            },
            OpCode::True => {
                lemma_shaped_code_runs(
                    code,
                    consts,
                    lines,
                    VmState { ip: st.ip + 1, stack: st.stack.push(AbsValue::Bool(true)), ..st },
                );
            },
            OpCode::False => {
                lemma_shaped_code_runs(
                    code,
                    consts,
                    lines,
                    VmState { ip: st.ip + 1, stack: st.stack.push(AbsValue::Bool(false)), ..st },
                );
            },
            OpCode::Pop => {
                lemma_shaped_code_runs(
                    code,
                    consts,
                    lines,
                    VmState { ip: st.ip + 1, stack: st.stack.drop_last(), ..st },
                );
            },
            OpCode::Print => {
                lemma_shaped_code_runs(
                    code,
                    consts,
                    lines,
                    VmState {
                        ip: st.ip + 1,
                        stack: st.stack.drop_last(),
                        output: st.output.push(format_abs(st.stack.last())),
                        ..st
                    },
                );
            },
            OpCode::Equal => {
                let b = st.stack.last();
                let a = st.stack.drop_last().last();
                lemma_shaped_code_runs(
                    code,
                    consts,
                    lines,
                    VmState {
                        ip: st.ip + 1,
                        stack: st.stack.drop_last().drop_last().push(
                            AbsValue::Bool(val_eq(a, b)),
                        ),
                        ..st
                    },
                );
            },
            OpCode::BangEqual => {
                let b = st.stack.last();
                let a = st.stack.drop_last().last();
                lemma_shaped_code_runs(
                    code,
                    consts,
                    lines,
                    VmState {
                        ip: st.ip + 1,
                        stack: st.stack.drop_last().drop_last().push(
                            AbsValue::Bool(!val_eq(a, b)),
                        ),
                        ..st
                    },
                );
            },
            OpCode::Greater | OpCode::GreaterEqual | OpCode::Less | OpCode::LessEqual => {
                let b = st.stack.last();
                let a = st.stack.drop_last().last();
                if a is Num && b is Num {
                    lemma_shaped_code_runs(
                        code,
                        consts,
                        lines,
                        VmState {
                            ip: st.ip + 1,
                            stack: st.stack.drop_last().drop_last().push(
                                AbsValue::Bool(cmp_holds(op, cmp_bits(a->Num_0, b->Num_0))),
                            ),
                            ..st
                        },
                    );
                }
            },
            OpCode::Add => {
                let b = st.stack.last();
                let a = st.stack.drop_last().last();
                match add_values(a, b) {
                    None => {},
                    Some(v) => {
                        lemma_shaped_code_runs(
                            code,
                            consts,
                            lines,
                            VmState {
                                ip: st.ip + 1,
                                stack: st.stack.drop_last().drop_last().push(v),
                                ..st
                            },
                        );
                    },
                }
            },
            OpCode::Subtract | OpCode::Multiply => {
                let b = st.stack.last();
                let a = st.stack.drop_last().last();
                if a is Num && b is Num {
                    let bits = if op == OpCode::Subtract {
                        sub_bits(a->Num_0, b->Num_0)
                    } else {
                        mul_bits(a->Num_0, b->Num_0)
                    };
                    lemma_shaped_code_runs(
                        code,
                        consts,
                        lines,
                        VmState {
                            ip: st.ip + 1,
                            stack: st.stack.drop_last().drop_last().push(AbsValue::Num(bits)),
                            ..st
                        },
                    );
                }
            },
            OpCode::Divide => {
                let b = st.stack.last();
                let a = st.stack.drop_last().last();
                if a is Num && b is Num && !is_zero_bits(b->Num_0) {
                    lemma_shaped_code_runs(
                        code,
                        consts,
                        lines,
                        VmState {
                            ip: st.ip + 1,
                            stack: st.stack.drop_last().drop_last().push(
                                AbsValue::Num(div_bits(a->Num_0, b->Num_0)),
                            ),
                            ..st
                        },
                    );
                }
            },
            OpCode::Not => {
                lemma_shaped_code_runs(
                    code,
                    consts,
                    lines,
                    VmState {
                        ip: st.ip + 1,
                        stack: st.stack.drop_last().push(AbsValue::Bool(falsy(st.stack.last()))),
                        ..st
                    },
                );
            },
            OpCode::Negate => {
                if st.stack.last() is Num {
                    lemma_shaped_code_runs(
                        code,
                        consts,
                        lines,
                        VmState {
                            ip: st.ip + 1,
                            stack: st.stack.drop_last().push(
                                AbsValue::Num(neg_bits(st.stack.last()->Num_0)),
                            ),
                            ..st
                        },
                    );
                }
            },
            OpCode::DefineGlobal => {
                if consts[code[st.ip + 1] as int] is Str {
                    lemma_shaped_code_runs(
                        code,
                        consts,
                        lines,
                        VmState {
                            ip: st.ip + 2,
                            stack: st.stack.drop_last(),
                            globals: st.globals.insert(
                                consts[code[st.ip + 1] as int]->Str_0,
                                st.stack.last(),
                            ),
                            ..st
                        },
                    );
                }
            },
            OpCode::GetGlobal => {
                if consts[code[st.ip + 1] as int] is Str {
                    let name = consts[code[st.ip + 1] as int]->Str_0;
                    if st.globals.contains_key(name) {
                        lemma_shaped_code_runs(
                            code,
                            consts,
                            lines,
                            VmState { ip: st.ip + 2, stack: st.stack.push(st.globals[name]), ..st },
                        );
                    }
                }
            },
        }
    }
}

/// Popping after pushing one value is a round trip: a chunk that loads
/// one constant, pops it and returns runs to completion and ends with
/// the stack empty again, whatever the value and surrounding state.
pub proof fn lemma_pop_after_push(
    v: AbsValue,
    lines: Seq<usize>,
    globals: Map<Seq<char>, AbsValue>,
    output: Seq<Seq<char>>,
)
    ensures
        ({
            let code = seq![
                opcode_value(OpCode::Constant),
                0u8,
                opcode_value(OpCode::Pop),
                opcode_value(OpCode::Return),
            ];
            let st = VmState { ip: 0, stack: Seq::<AbsValue>::empty(), globals, output };
            spec_run(code, seq![v], lines, st) == RunEnd::Done(
                VmState { ip: 4, stack: Seq::<AbsValue>::empty(), globals, output },
            )
        }),
{
    let code = seq![
        opcode_value(OpCode::Constant),
        0u8,
        opcode_value(OpCode::Pop),
        opcode_value(OpCode::Return),
    ];
    let consts = seq![v];
    let st0 = VmState { ip: 0, stack: Seq::<AbsValue>::empty(), globals, output };
    let st1 = VmState { ip: 2, stack: Seq::<AbsValue>::empty().push(v), globals, output };
    let st2 = VmState { ip: 3, stack: Seq::<AbsValue>::empty().push(v).drop_last(), globals, output };
    lemma_opcode_roundtrip(OpCode::Constant);
    lemma_opcode_roundtrip(OpCode::Pop);
    lemma_opcode_roundtrip(OpCode::Return);
    assert(spec_run(code, consts, lines, st0) == spec_run(code, consts, lines, st1));
    assert(spec_run(code, consts, lines, st1) == spec_run(code, consts, lines, st2));
    assert(spec_run(code, consts, lines, st2) == RunEnd::Done(VmState { ip: 4, ..st2 }));
    assert(Seq::<AbsValue>::empty().push(v).drop_last() =~= Seq::<AbsValue>::empty());
    assert(RunEnd::Done(VmState { ip: 4, ..st2 }) == RunEnd::Done(
        VmState { ip: 4, stack: Seq::<AbsValue>::empty(), globals, output },
    ));
}

/// Round trip: code that computes one expression and then returns — its
/// shape adds exactly one value to the starting stack — either stops at
/// a runtime error or reaches the `Return` with exactly one more value
/// on the stack.
pub proof fn lemma_expression_round_trip(
    code: Seq<u8>,
    consts: Seq<AbsValue>,
    lines: Seq<usize>,
    st: VmState,
)
    requires
        code.len() >= 1,
        code.last() == opcode_value(OpCode::Return),
        0 <= st.ip <= code.len() - 1,
        stack_shape(
            code.subrange(st.ip, code.len() - 1),
            consts.len() as nat,
            st.stack.len() as int,
        ) == Some(st.stack.len() + 1 as int),
    ensures
        !(spec_run(code, consts, lines, st) is BadConstant),
        spec_run(code, consts, lines, st) is Done ==> spec_run(
            code,
            consts,
            lines,
            st,
        )->Done_0.stack.len() == st.stack.len() + 1,
{
    lemma_shaped_code_runs(code, consts, lines, st);
}

/// The map a list of global bindings denotes: a later binding of a name
/// shadows an earlier one.
pub open spec fn globals_map(entries: Seq<(String, Value)>) -> Map<Seq<char>, AbsValue>
    decreases entries.len(),
{
    if entries.len() == 0 {
        Map::empty()
    } else {
        globals_map(entries.drop_last()).insert(
            entries.last().0@,
            entries.last().1@,
        )
    }
}

/// Renders `[line L] in script.`, the second line of a runtime error.
fn frame_line_text(line: usize) -> (r: String)
    ensures
        r@ == frame_text(line as nat),
{
    let mut out = String::from_str("[line ");
    out.append(u64_to_dec(line as u64).as_str());
    out.append("] in script.");
    proof {
        assert(out@ =~= frame_text(line as nat));
    }
    out
}

/// The binding found by scanning from the end is the one the map holds.
proof fn lemma_globals_found(entries: Seq<(String, Value)>, name: Seq<char>, j: int)
    requires
        0 <= j < entries.len(),
        entries[j].0@ == name,
        forall|i: int| j < i < entries.len() ==> #[trigger] entries[i].0@ != name,
    ensures
        globals_map(entries).contains_key(name),
        globals_map(entries)[name] == entries[j].1@,
    decreases entries.len(),
{
    if j + 1 < entries.len() {
        lemma_globals_found(entries.drop_last(), name, j);
    }
}

/// A name bound nowhere in the list is not in the map.
proof fn lemma_globals_absent(entries: Seq<(String, Value)>, name: Seq<char>)
    requires
        forall|i: int| 0 <= i < entries.len() ==> #[trigger] entries[i].0@ != name,
    ensures
        !globals_map(entries).contains_key(name),
    decreases entries.len(),
{
    if entries.len() > 0 {
        lemma_globals_absent(entries.drop_last(), name);
    }
}

/// The stack-based virtual machine: a chunk, an instruction pointer, a
/// value stack, the global bindings, and the text the program has
/// printed or reported.
pub struct VM {
    chunk: Chunk,
    ip: usize,
    stack: Vec<Value>,
    globals: Vec<(String, Value)>,
    output: Vec<String>,
    errors: Vec<String>,
}

impl VM {
    /// The chunk being run.
    pub closed spec fn chunk_of(&self) -> Chunk {
        self.chunk
    }

    /// The machine state, as `spec_run` sees it.
    pub closed spec fn st(&self) -> VmState {
        VmState {
            ip: self.ip as int,
            stack: self.stack.deep_view(),
            globals: globals_map(self.globals@),
            output: self.output.deep_view(),
        }
    }

    /// What the program has printed: one entry per `print` statement.
    pub closed spec fn output_view(&self) -> Seq<Seq<char>> {
        self.output.deep_view()
    }

    /// The error lines reported, compile diagnostics or a runtime
    /// error's two lines.
    pub closed spec fn errors_view(&self) -> Seq<Seq<char>> {
        self.errors.deep_view()
    }

    /// The global bindings.
    pub closed spec fn globals_view(&self) -> Map<Seq<char>, AbsValue> {
        globals_map(self.globals@)
    }

    pub open spec fn wf(&self) -> bool {
        self.chunk_of().wf()
    }

    pub fn new(chunk: Chunk) -> (r: VM)
        requires
            chunk.wf(),
        ensures
            r.wf(),
            r.chunk_of() == chunk,
            r.st() == (VmState {
                ip: 0,
                stack: Seq::<AbsValue>::empty(),
                globals: Map::<Seq<char>, AbsValue>::empty(),
                output: Seq::<Seq<char>>::empty(),
            }),
            r.globals_view() == Map::<Seq<char>, AbsValue>::empty(),
            r.output_view() == Seq::<Seq<char>>::empty(),
            r.errors_view() == Seq::<Seq<char>>::empty(),
    {
        let r = VM {
            chunk,
            ip: 0,
            stack: Vec::new(),
            globals: Vec::new(),
            output: Vec::new(),
            errors: Vec::new(),
        };
        proof {
            assert(r.st().stack =~= Seq::<AbsValue>::empty());
            assert(r.output_view() =~= Seq::<Seq<char>>::empty());
            assert(r.errors_view() =~= Seq::<Seq<char>>::empty());
            assert(r.globals_view() =~= Map::<Seq<char>, AbsValue>::empty());
            assert(r.st() =~= (VmState {
                ip: 0,
                stack: Seq::<AbsValue>::empty(),
                globals: Map::<Seq<char>, AbsValue>::empty(),
                output: Seq::<Seq<char>>::empty(),
            }));
        }
        r
    }

    /// Empties the value stack.
    pub fn reset_stack(&mut self)
        ensures
            final (self).st().stack == Seq::<AbsValue>::empty(),
            final (self).chunk_of() == old(self).chunk_of(),
            final (self).st().ip == old(self).st().ip,
            final (self).globals_view() == old(self).globals_view(),
            final (self).output_view() == old(self).output_view(),
            final (self).errors_view() == old(self).errors_view(),
    {
        self.stack.clear();
        proof {
            assert(self.st().stack =~= Seq::<AbsValue>::empty());
        }
    }

    /// What the program printed, one line per `print`.
    pub fn output(&self) -> (r: &Vec<String>)
        ensures
            r.deep_view() == self.output_view(),
    {
        &self.output
    }

    /// The error lines reported.
    pub fn errors(&self) -> (r: &Vec<String>)
        ensures
            r.deep_view() == self.errors_view(),
    {
        &self.errors
    }

    /// Compiles `source` and, when compilation succeeds, runs it.
    ///
    /// Error containment: when any compile diagnostic is reported the
    /// result is `CompileError`, the diagnostics are the error lines,
    /// nothing has been printed and no global changed — no bytecode ran.
    /// Otherwise the chunk left in the machine holds the compiled code,
    /// and the printed output, the globals, the error lines and the
    /// result are exactly what `spec_run` gives for it from an empty
    /// stack: `Ok` on a clean finish, `RuntimeError` with the error's
    /// two lines otherwise. The stack is released afterwards; globals
    /// persist across calls.
    pub fn interpret(&mut self, source: &str) -> (r: Result<(), InterpretResult>)
        requires
            old(self).wf(),
        ensures
            final (self).wf(),
            final (self).st().stack == Seq::<AbsValue>::empty(),
            r == Err::<(), InterpretResult>(InterpretResult::CompileError) ==> {
                &&& final (self).output_view() == Seq::<Seq<char>>::empty()
                &&& final (self).globals_view() == old(self).globals_view()
                &&& final (self).errors_view().len() > 0
            },
            r is Ok ==> final (self).errors_view() == Seq::<Seq<char>>::empty(),
            crate::scanner::spec_token(source@, 0, 1).ttype == crate::token_type::TokenType::Eof
                ==> r is Ok,
            r != Err::<(), InterpretResult>(InterpretResult::CompileError) ==> ({
                let end = spec_run(
                    final (self).chunk_of().code_view(),
                    final (self).chunk_of().consts(),
                    final (self).chunk_of().lines_view(),
                    VmState {
                        ip: 0,
                        stack: Seq::<AbsValue>::empty(),
                        globals: old(self).globals_view(),
                        output: Seq::<Seq<char>>::empty(),
                    },
                );
                match end {
                    RunEnd::Done(st2) => {
                        &&& r is Ok
                        &&& final (self).output_view() == st2.output
                        &&& final (self).globals_view() == st2.globals
                        &&& final (self).errors_view() == Seq::<Seq<char>>::empty()
                    },
                    RunEnd::Fault { globals, output, msg, line } => {
                        &&& r == Err::<(), InterpretResult>(InterpretResult::RuntimeError)
                        &&& final (self).output_view() == output
                        &&& final (self).globals_view() == globals
                        &&& final (self).errors_view() == seq![msg, frame_text(line)]
                    },
                    RunEnd::BadConstant { .. } => false,
                }
            }),
    {
        self.stack.clear();
        self.output = Vec::new();
        self.errors = Vec::new();
        self.chunk.free();
        self.ip = 0;
        proof {
            assert(self.st().stack =~= Seq::<AbsValue>::empty());
            assert(self.output_view() =~= Seq::<Seq<char>>::empty());
            assert(self.errors_view() =~= Seq::<Seq<char>>::empty());
        }
        let mut compiler = Compiler::new();
        let compiled = compiler.compile(source, &mut self.chunk);
        match compiled {
            Err(e) => {
                let ds = compiler.diagnostics();
                let mut i: usize = 0;
                proof {
                    assert(self.errors_view() =~~= compiler.diags().subrange(0, 0));
                }
                while i < ds.len()
                    invariant
                        i <= ds@.len(),
                        ds.deep_view() == compiler.diags(),
                        self.wf(),
                        self.errors_view() == compiler.diags().subrange(0, i as int),
                        self.st().stack == Seq::<AbsValue>::empty(),
                        self.output_view() == Seq::<Seq<char>>::empty(),
                        self.globals_view() == old(self).globals_view(),
                    decreases ds@.len() - i,
                {
                    let ghost prev = self.errors.deep_view();
                    self.errors.push(ds[i].clone());
                    proof {
                        assert(self.errors.deep_view() =~~= prev.push(ds.deep_view()[i as int]));
                    }
                    i = i + 1;
                    proof {
                        assert(compiler.diags().subrange(0, i as int) =~~= compiler.diags()
                            .subrange(0, i - 1).push(compiler.diags()[i - 1]));
                        assert(self.errors_view() =~~= compiler.diags().subrange(0, i as int));
                    }
                }
                proof {
                    assert(self.errors_view() =~~= compiler.diags());
                }
                self.chunk.free();
                self.ip = 0;
                Err(e)
            },
            Ok(()) => {
                let ghost code = self.chunk_of().code_view();
                let ghost consts = self.chunk_of().consts();
                let ghost lines = self.chunk_of().lines_view();
                let ghost st_pre = self.st();
                proof {
                    assert(code =~= code.skip(0));
                    assert(code.subrange(0, code.len() - 1) =~= code.take(code.len() - 1));
                    lemma_shaped_code_runs(code, consts, lines, st_pre);
                    assert(st_pre =~= (VmState {
                        ip: 0,
                        stack: Seq::<AbsValue>::empty(),
                        globals: old(self).globals_view(),
                        output: Seq::<Seq<char>>::empty(),
                    }));
                }
                let result = self.run();
                proof {
                    let end = spec_run(code, consts, lines, st_pre);
                    if result == Err::<(), InterpretResult>(InterpretResult::CompileError) {
                        assert(end is BadConstant);
                        assert(false);
                    }
                }
                self.stack.clear();
                self.ip = 0;
                proof {
                    assert(self.st().stack =~= Seq::<AbsValue>::empty());
                }
                result
            },
        }
    }

    /// Reports a runtime error: the message and a `[line L] in script.`
    /// frame join the error lines, and the stack is discarded.
    fn runtime_error(&mut self, msg: String, line: usize) -> (r: Result<(), InterpretResult>)
        ensures
            r == Err::<(), InterpretResult>(InterpretResult::RuntimeError),
            final (self).chunk_of() == old(self).chunk_of(),
            final (self).st().stack == Seq::<AbsValue>::empty(),
            final (self).globals_view() == old(self).globals_view(),
            final (self).output_view() == old(self).output_view(),
            final (self).errors_view() == old(self).errors_view() + seq![
                msg@,
                frame_text(line as nat),
            ],
    {
        let ghost m = msg@;
        self.errors.push(msg);
        self.errors.push(frame_line_text(line));
        self.stack.clear();
        proof {
            assert(self.st().stack =~= Seq::<AbsValue>::empty());
            assert(self.errors_view() =~= old(self).errors_view() + seq![
                m,
                frame_text(line as nat),
            ]);
        }
        Err(InterpretResult::RuntimeError)
    }

    /// The value bound to `name`, scanning the latest bindings first.
    fn get_global(&self, name: &String) -> (r: Option<Value>)
        ensures
            match r {
                Some(v) => self.globals_view().contains_key(name@) && v@
                    == self.globals_view()[name@],
                None => !self.globals_view().contains_key(name@),
            },
    {
        let mut i = self.globals.len();
        while i > 0
            invariant
                i <= self.globals@.len(),
                forall|j: int| i <= j < self.globals@.len() ==> #[trigger] self.globals@[j].0@
                    != name@,
            decreases i,
        {
            i = i - 1;
            let entry = &self.globals[i];
            if entry.0 == *name {
                proof {
                    lemma_globals_found(self.globals@, name@, i as int);
                }
                return Some(entry.1.duplicate());
            }
        }
        proof {
            lemma_globals_absent(self.globals@, name@);
        }
        None
    }

    /// Binds `name` to `value`; a later binding shadows an earlier one.
    fn set_global(&mut self, name: String, value: Value)
        ensures
            final (self).chunk_of() == old(self).chunk_of(),
            final (self).st().stack == old(self).st().stack,
            final (self).st().ip == old(self).st().ip,
            final (self).output_view() == old(self).output_view(),
            final (self).errors_view() == old(self).errors_view(),
            final (self).globals_view() == old(self).globals_view().insert(name@, value@),
    {
        let ghost n = name@;
        let ghost v = value@;
        self.globals.push((name, value));
        proof {
            assert(self.globals@.drop_last() =~= old(self).globals@);
            assert(self.globals_view() == old(self).globals_view().insert(n, v));
        }
    }

    /// Fetch-decode-execute until a `Return`, a runtime error, or corrupt
    /// code ends the run: exactly `spec_run` from the current state.
    #[verifier::loop_isolation(false)]
    #[verifier::rlimit(100)]
    pub fn run(&mut self) -> (r: Result<(), InterpretResult>)
        requires
            old(self).wf(),
        ensures
            final (self).wf(),
            final (self).chunk_of() == old(self).chunk_of(),
            ({
                let end = spec_run(
                    old(self).chunk_of().code_view(),
                    old(self).chunk_of().consts(),
                    old(self).chunk_of().lines_view(),
                    old(self).st(),
                );
                match end {
                    RunEnd::Done(st2) => {
                        &&& r == Ok::<(), InterpretResult>(())
                        &&& final (self).st() == st2
                        &&& final (self).errors_view() == old(self).errors_view()
                    },
                    RunEnd::Fault { globals, output, msg, line } => {
                        &&& r == Err::<(), InterpretResult>(InterpretResult::RuntimeError)
                        &&& final (self).st().stack == Seq::<AbsValue>::empty()
                        &&& final (self).globals_view() == globals
                        &&& final (self).output_view() == output
                        &&& final (self).errors_view() == old(self).errors_view() + seq![
                            msg,
                            frame_text(line),
                        ]
                    },
                    RunEnd::BadConstant { globals, output } => {
                        &&& r == Err::<(), InterpretResult>(InterpretResult::CompileError)
                        &&& final (self).globals_view() == globals
                        &&& final (self).output_view() == output
                        &&& final (self).errors_view() == old(self).errors_view()
                    },
                }
            }),
    {
        let ghost code = old(self).chunk_of().code_view();
        let ghost consts = old(self).chunk_of().consts();
        let ghost lines = old(self).chunk_of().lines_view();
        loop
            invariant
                self.wf(),
                self.chunk_of() == old(self).chunk_of(),
                self.errors_view() == old(self).errors_view(),
                spec_run(code, consts, lines, self.st()) == spec_run(
                    code,
                    consts,
                    lines,
                    old(self).st(),
                ),
            decreases code.len() - self.st().ip,
        {
            let ghost st0 = self.st();
            let code_len = self.chunk.code_len();
            if self.ip >= code_len {
                let line = if code_len >= 1 {
                    self.chunk.get_line(code_len - 1)
                } else {
                    0
                };
                return self.runtime_error(String::from_str("Malformed bytecode."), line);
            }
            let opcode_ip = self.ip;
            let line = self.chunk.get_line(opcode_ip);
            let byte = self.chunk.read(opcode_ip);
            self.ip = opcode_ip + 1;
            let op = match OpCode::from_byte(byte) {
                Some(op) => op,
                None => {
                    return self.runtime_error(String::from_str("Malformed bytecode."), line);
                },
            };
            match op {
                OpCode::Return => {
                    proof {
                        assert(spec_run(code, consts, lines, st0) == RunEnd::Done(self.st()));
                    }
                    return Ok(());
                },
                OpCode::Constant => {
                    if self.ip >= code_len {
                        return self.runtime_error(String::from_str("Malformed bytecode."), line);
                    }
                    let idx = self.chunk.read(self.ip);
                    self.ip = self.ip + 1;
                    let value = match self.chunk.get_constant(idx as usize) {
                        Ok(v) => v,
                        Err(e) => {
                            return Err(e);
                        },
                    };
                    let ghost pushed = value@;
                    self.stack.push(value);
                    proof {
                        assert(self.stack.deep_view() =~= st0.stack.push(pushed));
                        assert(self.st() =~= (VmState {
                            ip: st0.ip + 2,
                            stack: st0.stack.push(consts[code[st0.ip + 1] as int]),
                            ..st0
                        }));
                    }
                },
                OpCode::Nil => {
                    self.stack.push(Value::Nil);
                    proof {
                        assert(self.stack.deep_view() =~= st0.stack.push(AbsValue::Nil));
                        assert(self.st() =~= (VmState {
                            ip: st0.ip + 1,
                            stack: st0.stack.push(AbsValue::Nil),
                            ..st0
                        }));
                    }
                },
                OpCode::True => {
                    self.stack.push(Value::Boolean(true));
                    proof {
                        assert(self.stack.deep_view() =~= st0.stack.push(AbsValue::Bool(true)));
                        assert(self.st() =~= (VmState {
                            ip: st0.ip + 1,
                            stack: st0.stack.push(AbsValue::Bool(true)),
                            ..st0
                        }));
                    }
                },
                OpCode::False => {
                    self.stack.push(Value::Boolean(false));
                    proof {
                        assert(self.stack.deep_view() =~= st0.stack.push(AbsValue::Bool(false)));
                        assert(self.st() =~= (VmState {
                            ip: st0.ip + 1,
                            stack: st0.stack.push(AbsValue::Bool(false)),
                            ..st0
                        }));
                    }
                },
                OpCode::Pop => {
                    match self.stack.pop() {
                        Some(_) => (),
                        None => {
                            return self.runtime_error(
                                String::from_str("Malformed bytecode."),
                                line,
                            );
                        },
                    }
                    proof {
                        assert(self.stack.deep_view() =~= st0.stack.drop_last());
                        assert(self.st() =~= (VmState {
                            ip: st0.ip + 1,
                            stack: st0.stack.drop_last(),
                            ..st0
                        }));
                    }
                },
                OpCode::Print => {
                    let v = match self.stack.pop() {
                        Some(v) => v,
                        None => {
                            return self.runtime_error(
                                String::from_str("Malformed bytecode."),
                                line,
                            );
                        },
                    };
                    self.output.push(format_value(&v));
                    proof {
                        assert(self.stack.deep_view() =~= st0.stack.drop_last());
                        assert(self.output.deep_view() =~= st0.output.push(
                            format_abs(st0.stack.last()),
                        ));
                        assert(self.st() =~= (VmState {
                            ip: st0.ip + 1,
                            stack: st0.stack.drop_last(),
                            output: st0.output.push(format_abs(st0.stack.last())),
                            ..st0
                        }));
                    }
                },
                OpCode::Not => {
                    let v = match self.stack.pop() {
                        Some(v) => v,
                        None => {
                            return self.runtime_error(
                                String::from_str("Malformed bytecode."),
                                line,
                            );
                        },
                    };
                    self.stack.push(Value::Boolean(v.is_falsy()));
                    proof {
                        assert(self.stack.deep_view() =~= st0.stack.drop_last().push(
                            AbsValue::Bool(falsy(st0.stack.last())),
                        ));
                        assert(self.st() =~= (VmState {
                            ip: st0.ip + 1,
                            stack: st0.stack.drop_last().push(
                                AbsValue::Bool(falsy(st0.stack.last())),
                            ),
                            ..st0
                        }));
                    }
                },
                OpCode::Negate => {
                    let v = match self.stack.pop() {
                        Some(v) => v,
                        None => {
                            return self.runtime_error(
                                String::from_str("Malformed bytecode."),
                                line,
                            );
                        },
                    };
                    let x = match v {
                        Value::Number(x) => x,
                        _ => {
                            return self.runtime_error(
                                String::from_str("Operand must be a number."),
                                line,
                            );
                        },
                    };
                    self.stack.push(Value::Number(bits_neg(x)));
                    proof {
                        assert(self.stack.deep_view() =~= st0.stack.drop_last().push(
                            AbsValue::Num(neg_bits(st0.stack.last()->Num_0)),
                        ));
                        assert(self.st() =~= (VmState {
                            ip: st0.ip + 1,
                            stack: st0.stack.drop_last().push(
                                AbsValue::Num(neg_bits(st0.stack.last()->Num_0)),
                            ),
                            ..st0
                        }));
                    }
                },
                OpCode::Equal | OpCode::BangEqual => {
                    let b = match self.stack.pop() {
                        Some(v) => v,
                        None => {
                            return self.runtime_error(
                                String::from_str("Malformed bytecode."),
                                line,
                            );
                        },
                    };
                    let a = match self.stack.pop() {
                        Some(v) => v,
                        None => {
                            return self.runtime_error(
                                String::from_str("Malformed bytecode."),
                                line,
                            );
                        },
                    };
                    let eq = a.equals(&b);
                    let pushed = if op == OpCode::Equal {
                        eq
                    } else {
                        !eq
                    };
                    self.stack.push(Value::Boolean(pushed));
                    proof {
                        assert(self.stack.deep_view() =~= st0.stack.drop_last().drop_last().push(
                            AbsValue::Bool(pushed),
                        ));
                        assert(self.st() =~= (VmState {
                            ip: st0.ip + 1,
                            stack: st0.stack.drop_last().drop_last().push(AbsValue::Bool(pushed)),
                            ..st0
                        }));
                    }
                },
                OpCode::Greater | OpCode::GreaterEqual | OpCode::Less | OpCode::LessEqual => {
                    let b = match self.stack.pop() {
                        Some(v) => v,
                        None => {
                            return self.runtime_error(
                                String::from_str("Malformed bytecode."),
                                line,
                            );
                        },
                    };
                    let a = match self.stack.pop() {
                        Some(v) => v,
                        None => {
                            return self.runtime_error(
                                String::from_str("Malformed bytecode."),
                                line,
                            );
                        },
                    };
                    let x = match a {
                        Value::Number(x) => x,
                        _ => {
                            return self.runtime_error(
                                String::from_str("Operands must be number or string."),
                                line,
                            );
                        },
                    };
                    let y = match b {
                        Value::Number(y) => y,
                        _ => {
                            return self.runtime_error(
                                String::from_str("Operands must be number or string."),
                                line,
                            );
                        },
                    };
                    let c = bits_cmp(x, y);
                    let holds = match c {
                        Some(o) => match o {
                            core::cmp::Ordering::Less => op == OpCode::Less || op
                                == OpCode::LessEqual,
                            core::cmp::Ordering::Equal => op == OpCode::LessEqual || op
                                == OpCode::GreaterEqual,
                            core::cmp::Ordering::Greater => op == OpCode::Greater || op
                                == OpCode::GreaterEqual,
                        },
                        None => false,
                    };
                    proof {
                        assert(holds == cmp_holds(op, cmp_bits(x, y)));
                    }
                    self.stack.push(Value::Boolean(holds));
                    proof {
                        assert(self.stack.deep_view() =~= st0.stack.drop_last().drop_last().push(
                            AbsValue::Bool(holds),
                        ));
                        assert(self.st() =~= (VmState {
                            ip: st0.ip + 1,
                            stack: st0.stack.drop_last().drop_last().push(AbsValue::Bool(holds)),
                            ..st0
                        }));
                    }
                },
                OpCode::Add => {
                    let b = match self.stack.pop() {
                        Some(v) => v,
                        None => {
                            return self.runtime_error(
                                String::from_str("Malformed bytecode."),
                                line,
                            );
                        },
                    };
                    let a = match self.stack.pop() {
                        Some(v) => v,
                        None => {
                            return self.runtime_error(
                                String::from_str("Malformed bytecode."),
                                line,
                            );
                        },
                    };
                    let result: Value = match a {
                        Value::Number(x) => match b {
                            Value::Number(y) => Value::Number(bits_add(x, y)),
                            Value::Obj(Object::Str(t)) => {
                                let mut s = number_text(x);
                                s.append(t.as_str());
                                Value::Obj(Object::Str(s))
                            },
                            _ => {
                                return self.runtime_error(
                                    String::from_str("Operands must be number or string."),
                                    line,
                                );
                            },
                        },
                        Value::Obj(Object::Str(s)) => match b {
                            Value::Number(y) => {
                                let mut s2 = s;
                                s2.append(number_text(y).as_str());
                                Value::Obj(Object::Str(s2))
                            },
                            Value::Obj(Object::Str(t)) => {
                                let mut s2 = s;
                                s2.append(t.as_str());
                                Value::Obj(Object::Str(s2))
                            },
                            _ => {
                                return self.runtime_error(
                                    String::from_str("Operands must be number or string."),
                                    line,
                                );
                            },
                        },
                        _ => {
                            return self.runtime_error(
                                String::from_str("Operands must be number or string."),
                                line,
                            );
                        },
                    };
                    let ghost rv = result@;
                    proof {
                        assert(add_values(st0.stack.drop_last().last(), st0.stack.last())
                            == Some(rv));
                    }
                    self.stack.push(result);
                    proof {
                        assert(self.stack.deep_view() =~= st0.stack.drop_last().drop_last().push(
                            rv,
                        ));
                        assert(self.st() =~= (VmState {
                            ip: st0.ip + 1,
                            stack: st0.stack.drop_last().drop_last().push(rv),
                            ..st0
                        }));
                    }
                },
                OpCode::Subtract | OpCode::Multiply | OpCode::Divide => {
                    let b = match self.stack.pop() {
                        Some(v) => v,
                        None => {
                            return self.runtime_error(
                                String::from_str("Malformed bytecode."),
                                line,
                            );
                        },
                    };
                    let a = match self.stack.pop() {
                        Some(v) => v,
                        None => {
                            return self.runtime_error(
                                String::from_str("Malformed bytecode."),
                                line,
                            );
                        },
                    };
                    let x = match a {
                        Value::Number(x) => x,
                        _ => {
                            return self.runtime_error(
                                String::from_str("Operands must be number or string."),
                                line,
                            );
                        },
                    };
                    let y = match b {
                        Value::Number(y) => y,
                        _ => {
                            return self.runtime_error(
                                String::from_str("Operands must be number or string."),
                                line,
                            );
                        },
                    };
                    let bits: u64 = if op == OpCode::Subtract {
                        bits_sub(x, y)
                    } else if op == OpCode::Multiply {
                        bits_mul(x, y)
                    } else {
                        if bits_is_zero(y) {
                            return self.runtime_error(
                                String::from_str("Can't divide by zero."),
                                line,
                            );
                        }
                        bits_div(x, y)
                    };
                    self.stack.push(Value::Number(bits));
                    proof {
                        assert(self.stack.deep_view() =~= st0.stack.drop_last().drop_last().push(
                            AbsValue::Num(bits),
                        ));
                        assert(self.st() =~= (VmState {
                            ip: st0.ip + 1,
                            stack: st0.stack.drop_last().drop_last().push(AbsValue::Num(bits)),
                            ..st0
                        }));
                    }
                },
                OpCode::DefineGlobal => {
                    if self.ip >= code_len {
                        return self.runtime_error(String::from_str("Malformed bytecode."), line);
                    }
                    let idx = self.chunk.read(self.ip);
                    self.ip = self.ip + 1;
                    let cv = match self.chunk.get_constant(idx as usize) {
                        Ok(v) => v,
                        Err(e) => {
                            return Err(e);
                        },
                    };
                    let name = match cv {
                        Value::Obj(Object::Str(name)) => name,
                        _ => {
                            return self.runtime_error(
                                String::from_str("Malformed bytecode."),
                                line,
                            );
                        },
                    };
                    let v = match self.stack.pop() {
                        Some(v) => v,
                        None => {
                            return self.runtime_error(
                                String::from_str("Malformed bytecode."),
                                line,
                            );
                        },
                    };
                    let ghost n = name@;
                    let ghost vv = v@;
                    self.set_global(name, v);
                    proof {
                        assert(self.stack.deep_view() =~= st0.stack.drop_last());
                        assert(self.st() =~= (VmState {
                            ip: st0.ip + 2,
                            stack: st0.stack.drop_last(),
                            globals: st0.globals.insert(
                                consts[code[st0.ip + 1] as int]->Str_0,
                                st0.stack.last(),
                            ),
                            ..st0
                        }));
                    }
                },
                OpCode::GetGlobal => {
                    if self.ip >= code_len {
                        return self.runtime_error(String::from_str("Malformed bytecode."), line);
                    }
                    let idx = self.chunk.read(self.ip);
                    self.ip = self.ip + 1;
                    let cv = match self.chunk.get_constant(idx as usize) {
                        Ok(v) => v,
                        Err(e) => {
                            return Err(e);
                        },
                    };
                    let name = match cv {
                        Value::Obj(Object::Str(name)) => name,
                        _ => {
                            return self.runtime_error(
                                String::from_str("Malformed bytecode."),
                                line,
                            );
                        },
                    };
                    let v = match self.get_global(&name) {
                        Some(v) => v,
                        None => {
                            let mut m = String::from_str("Undefined variable '");
                            m.append(name.as_str());
                            m.append("'.");
                            proof {
                                assert(m@ =~= msg_undefined(name@));
                            }
                            return self.runtime_error(m, line);
                        },
                    };
                    let ghost pushed = v@;
                    self.stack.push(v);
                    proof {
                        assert(self.stack.deep_view() =~= st0.stack.push(pushed));
                        assert(self.st() =~= (VmState {
                            ip: st0.ip + 2,
                            stack: st0.stack.push(
                                st0.globals[consts[code[st0.ip + 1] as int]->Str_0],
                            ),
                            ..st0
                        }));
                    }
                },
            }
        }
    }
}

} // verus!

