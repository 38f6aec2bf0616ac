use crate::opcode::{opcode_has_operand, opcode_of_byte, opcode_value, OpCode};
use crate::value::{format_abs, AbsValue, Value, ValueArray};
use crate::vm::InterpretResult;
use vstd::prelude::*;

verus! {

/// A compiled code object: a byte stream of instructions, a parallel
/// table giving the source line of every byte, and a constant pool.
pub struct Chunk {
    code: Vec<u8>,
    lines: Vec<usize>,
    constants: ValueArray,
}

/// Whether the bytes of `code` from `i` on decode into whole
/// instructions whose constant operands lie inside a pool of `nconsts`
/// values.
pub open spec fn code_wf_from(code: Seq<u8>, nconsts: nat, i: int) -> bool
    decreases code.len() - i,
{
    if i < 0 || i >= code.len() {
        i == code.len()
    } else {
        match opcode_of_byte(code[i]) {
            None => false,
            Some(op) => if opcode_has_operand(op) {
                &&& i + 2 <= code.len()
                &&& (code[i + 1] as nat) < nconsts
                &&& code_wf_from(code, nconsts, i + 2)
            } else {
                code_wf_from(code, nconsts, i + 1)
            },
        }
    }
}

/// How many values an opcode takes off the stack.
pub open spec fn op_pops(op: OpCode) -> nat {
    match op {
        OpCode::Constant => 0,
        OpCode::Return => 0,
        OpCode::Negate => 1,
        OpCode::Add => 2,
        OpCode::Subtract => 2,
        OpCode::Multiply => 2,
        OpCode::Divide => 2,
        OpCode::Nil => 0,
        OpCode::True => 0,
        OpCode::False => 0,
        OpCode::Not => 1,
        OpCode::Equal => 2,
        OpCode::Greater => 2,
        OpCode::Less => 2,
        OpCode::BangEqual => 2,
        OpCode::GreaterEqual => 2,
        OpCode::LessEqual => 2,
        OpCode::Print => 1,
        OpCode::Pop => 1,
        OpCode::DefineGlobal => 1,
        OpCode::GetGlobal => 0,
    }
}

/// How many values an opcode leaves on the stack.
pub open spec fn op_pushes(op: OpCode) -> nat {
    match op {
        OpCode::Constant => 1,
        OpCode::Return => 0,
        OpCode::Negate => 1,
        OpCode::Add => 1,
        OpCode::Subtract => 1,
        OpCode::Multiply => 1,
        OpCode::Divide => 1,
        OpCode::Nil => 1,
        OpCode::True => 1,
        OpCode::False => 1,
        OpCode::Not => 1,
        OpCode::Equal => 1,
        OpCode::Greater => 1,
        OpCode::Less => 1,
        OpCode::BangEqual => 1,
        OpCode::GreaterEqual => 1,
        OpCode::LessEqual => 1,
        OpCode::Print => 0,
        OpCode::Pop => 0,
        OpCode::DefineGlobal => 0,
        OpCode::GetGlobal => 1,
    }
}

/// How many code bytes an instruction occupies.
pub open spec fn instr_size(op: OpCode) -> int {
    if opcode_has_operand(op) {
        2
    } else {
        1
    }
}

/// The stack discipline of a straight-line block of code, run with `h`
/// values on the stack: `Some(h')` when every byte decodes as part of a
/// whole instruction other than `Return`, every constant operand lies
/// inside a pool of `nconsts` values, no instruction pops more values
/// than the stack then holds, and the block ends with `h'` values;
/// `None` otherwise.
pub open spec fn stack_shape(c: Seq<u8>, nconsts: nat, h: int) -> Option<int>
    decreases c.len(),
{
    if c.len() == 0 {
        Some(h)
    } else {
        match opcode_of_byte(c[0]) {
            None => None,
            Some(op) => {
                if op == OpCode::Return {
                    None
                } else if opcode_has_operand(op) && (c.len() < 2 || (c[1] as nat) >= nconsts) {
                    None
                } else if h < op_pops(op) {
                    None
                } else {
                    stack_shape(
                        c.subrange(instr_size(op), c.len() as int),
                        nconsts,
                        h - op_pops(op) + op_pushes(op),
                    )
                }
            },
        }
    }
}

/// A block keeps its stack shape when run with more values below it:
/// the extra values are never touched.
pub proof fn lemma_shape_monotonic(c: Seq<u8>, nconsts: nat, h: int, g: int)
    requires
        stack_shape(c, nconsts, h) is Some,
        g >= h,
    ensures
        stack_shape(c, nconsts, g) == Some(stack_shape(c, nconsts, h).unwrap() + (g - h)),
    decreases c.len(),
{
    if c.len() > 0 {
        let op = opcode_of_byte(c[0]).unwrap();
        lemma_shape_monotonic(
            c.subrange(instr_size(op), c.len() as int),
            nconsts,
            h - op_pops(op) + op_pushes(op),
            g - op_pops(op) + op_pushes(op),
        );
    }
}

/// A block keeps its stack shape when the constant pool grows: its
/// operands keep pointing at the values they did.
pub proof fn lemma_shape_more_consts(c: Seq<u8>, nconsts: nat, more: nat, h: int)
    requires
        stack_shape(c, nconsts, h) is Some,
        more >= nconsts,
    ensures
        stack_shape(c, more, h) == stack_shape(c, nconsts, h),
    decreases c.len(),
{
    if c.len() > 0 {
        let op = opcode_of_byte(c[0]).unwrap();
        lemma_shape_more_consts(
            c.subrange(instr_size(op), c.len() as int),
            nconsts,
            more,
            h - op_pops(op) + op_pushes(op),
        );
    }
}

/// Blocks compose: running one after the other chains their shapes.
pub proof fn lemma_shape_compose(c1: Seq<u8>, c2: Seq<u8>, nconsts: nat, h: int)
    requires
        stack_shape(c1, nconsts, h) is Some,
        stack_shape(c2, nconsts, stack_shape(c1, nconsts, h).unwrap()) is Some,
    ensures
        stack_shape(c1 + c2, nconsts, h) == stack_shape(
            c2,
            nconsts,
            stack_shape(c1, nconsts, h).unwrap(),
        ),
    decreases c1.len(),
{
    if c1.len() == 0 {
        assert(c1 + c2 =~= c2);
    } else {
        let op = opcode_of_byte(c1[0]).unwrap();
        let k = instr_size(op);
        assert((c1 + c2).subrange(k, (c1 + c2).len() as int) =~= c1.subrange(k, c1.len() as int)
            + c2);
        lemma_shape_compose(c1.subrange(k, c1.len() as int), c2, nconsts, h - op_pops(op)
            + op_pushes(op));
    }
}

/// The shape of a single instruction without an operand.
pub proof fn lemma_shape_single(op: OpCode, nconsts: nat, h: int)
    requires
        op != OpCode::Return,
        !opcode_has_operand(op),
        h >= op_pops(op),
    ensures
        stack_shape(seq![opcode_value(op)], nconsts, h) == Some(h - op_pops(op) + op_pushes(op)),
{
    let c = seq![opcode_value(op)];
    crate::opcode::lemma_opcode_roundtrip(op);
    assert(opcode_of_byte(c[0]) == Some(op));
    assert(c.subrange(1, 1) =~= Seq::<u8>::empty());
    let h2 = h - op_pops(op) + op_pushes(op);
    assert(stack_shape(Seq::<u8>::empty(), nconsts, h2) == Some(h2));
    assert(stack_shape(c, nconsts, h) == stack_shape(c.subrange(instr_size(op), c.len() as int), nconsts, h2));
}

/// The shape of a single instruction with a constant operand.
pub proof fn lemma_shape_single_operand(op: OpCode, idx: u8, nconsts: nat, h: int)
    requires
        op != OpCode::Return,
        opcode_has_operand(op),
        (idx as nat) < nconsts,
        h >= op_pops(op),
    ensures
        stack_shape(seq![opcode_value(op), idx], nconsts, h) == Some(
            h - op_pops(op) + op_pushes(op),
        ),
{
    let c = seq![opcode_value(op), idx];
    crate::opcode::lemma_opcode_roundtrip(op);
    assert(opcode_of_byte(c[0]) == Some(op));
    assert(c.subrange(2, 2) =~= Seq::<u8>::empty());
    let h2 = h - op_pops(op) + op_pushes(op);
    assert(stack_shape(Seq::<u8>::empty(), nconsts, h2) == Some(h2));
    assert(stack_shape(c, nconsts, h) == stack_shape(c.subrange(instr_size(op), c.len() as int), nconsts, h2));
}

/// Whether `b` is `a` with code and constants appended: compilation only
/// ever extends a chunk.
pub open spec fn chunk_extends(a: Chunk, b: Chunk) -> bool {
    &&& b.wf()
    &&& a.code_view().len() <= b.code_view().len()
    &&& b.code_view().subrange(0, a.code_view().len() as int) == a.code_view()
    &&& a.consts().len() <= b.consts().len()
    &&& b.consts().subrange(0, a.consts().len() as int) == a.consts()
}

/// The code bytes `b` holds beyond `a`.
pub open spec fn emitted(a: Chunk, b: Chunk) -> Seq<u8> {
    b.code_view().skip(a.code_view().len() as int)
}

/// Extension is transitive, and the emitted code concatenates.
pub proof fn lemma_extends_trans(a: Chunk, b: Chunk, c: Chunk)
    requires
        chunk_extends(a, b),
        chunk_extends(b, c),
    ensures
        chunk_extends(a, c),
        emitted(a, c) == emitted(a, b) + emitted(b, c),
{
    assert(c.code_view().subrange(0, a.code_view().len() as int) =~= a.code_view());
    assert(c.consts().subrange(0, a.consts().len() as int) =~= a.consts());
    assert(emitted(a, c) =~= emitted(a, b) + emitted(b, c));
}

/// The disassembler's name for an opcode.
pub open spec fn opcode_name(op: OpCode) -> Seq<char> {
    match op {
        OpCode::Constant => "OP_CONSTANT"@,
        OpCode::Return => "OP_RETURN"@,
        OpCode::Negate => "OP_NEGATE"@,
        OpCode::Add => "OP_ADD"@,
        OpCode::Subtract => "OP_SUBTRACT"@,
        OpCode::Multiply => "OP_MULTIPLY"@,
        OpCode::Divide => "OP_DIVIDE"@,
        OpCode::Nil => "OP_NIL"@,
        OpCode::True => "OP_TRUE"@,
        OpCode::False => "OP_FALSE"@,
        OpCode::Not => "OP_NOT"@,
        OpCode::Equal => "OP_EQUAL"@,
        OpCode::Greater => "OP_GREATER"@,
        OpCode::Less => "OP_LESS"@,
        OpCode::BangEqual => "OP_BANG_EQUAL"@,
        OpCode::GreaterEqual => "OP_GREATER_EQUAL"@,
        OpCode::LessEqual => "OP_LESS_EQUAL"@,
        OpCode::Print => "OP_PRINT"@,
        OpCode::Pop => "OP_POP"@,
        OpCode::DefineGlobal => "OP_DEFINE_GLOBAL"@,
        OpCode::GetGlobal => "OP_GET_GLOBAL"@,
    }
}

/// One disassembled instruction: the offset padded to four digits, the
/// source line padded to four columns — or `   |` when it repeats the
/// previous byte's line — the opcode's name, and for constant-carrying
/// instructions the operand and the constant it names.
pub open spec fn disasm_line_text(
    code: Seq<u8>,
    lines: Seq<usize>,
    consts: Seq<AbsValue>,
    offset: int,
) -> Seq<char> {
    match opcode_of_byte(code[offset]) {
        None => Seq::<char>::empty(),
        Some(op) => {
            let head = crate::text::pad_left(crate::text::dec_str(offset as nat), 4, '0') + " "@
                + (if offset > 0 && lines[offset] == lines[offset - 1] {
                "   |"@
            } else {
                crate::text::pad_left(crate::text::dec_str(lines[offset] as nat), 4, ' ')
            }) + "  "@ + opcode_name(op);
            if opcode_has_operand(op) {
                head + " "@ + crate::text::dec_str(code[offset + 1] as nat) + " '"@ + format_abs(
                    consts[code[offset + 1] as int],
                ) + "'"@
            } else {
                head
            }
        },
    }
}

/// The disassembly of the instructions from `i` on, one text per
/// instruction.
pub open spec fn disasm_lines(
    code: Seq<u8>,
    lines: Seq<usize>,
    consts: Seq<AbsValue>,
    i: int,
) -> Seq<Seq<char>>
    decreases code.len() - i,
{
    if i < 0 || i >= code.len() {
        Seq::<Seq<char>>::empty()
    } else {
        match opcode_of_byte(code[i]) {
            None => Seq::<Seq<char>>::empty(),
            Some(op) => {
                let j = if i + instr_size(op) > code.len() {
                    code.len() as int
                } else {
                    i + instr_size(op)
                };
                seq![disasm_line_text(code, lines, consts, i)] + disasm_lines(code, lines, consts, j)
            },
        }
    }
}

impl Chunk {
    /// The instruction stream.
    pub closed spec fn code_view(&self) -> Seq<u8> {
        self.code@
    }

    /// The source line of each code byte.
    pub closed spec fn lines_view(&self) -> Seq<usize> {
        self.lines@
    }

    /// The constant pool.
    pub closed spec fn consts(&self) -> Seq<AbsValue> {
        self.constants.vals()
    }

    /// The chunk's invariant: one line entry per code byte, and a
    /// constant pool that one-byte operands can index, so at most 256
    /// entries.
    pub open spec fn wf(&self) -> bool {
        self.lines_view().len() == self.code_view().len() && self.consts().len() <= 256
    }

    pub fn new() -> (r: Chunk)
        ensures
            r.wf(),
            r.code_view() == Seq::<u8>::empty(),
            r.lines_view() == Seq::<usize>::empty(),
            r.consts() == Seq::<AbsValue>::empty(),
    {
        Chunk { code: Vec::new(), lines: Vec::new(), constants: ValueArray::new() }
    }

    /// Appends one opcode byte, recording its source line.
    pub fn write_opcode(&mut self, code: OpCode, line: usize)
        requires
            old(self).wf(),
        ensures
            final (self).wf(),
            final (self).code_view() == old(self).code_view().push(opcode_value(code)),
            final (self).lines_view() == old(self).lines_view().push(line),
            final (self).consts() == old(self).consts(),
    {
        let b = code.to_byte();
        self.write(b, line);
    }

    /// Appends one raw byte, recording its source line.
    pub fn write(&mut self, byte: u8, line: usize)
        requires
            old(self).wf(),
        ensures
            final (self).wf(),
            final (self).code_view() == old(self).code_view().push(byte),
            final (self).lines_view() == old(self).lines_view().push(line),
            final (self).consts() == old(self).consts(),
    {
        self.code.push(byte);
        self.lines.push(line);
    }

    /// The code byte at `ip`.
    pub fn read(&self, ip: usize) -> (b: u8)
        requires
            ip < self.code_view().len(),
        ensures
            b == self.code_view()[ip as int],
    {
        self.code[ip]
    }

    /// The source line that produced the code byte at `ip`.
    pub fn get_line(&self, ip: usize) -> (l: usize)
        requires
            ip < self.lines_view().len(),
        ensures
            l == self.lines_view()[ip as int],
    {
        self.lines[ip]
    }

    /// How many code bytes the chunk holds.
    pub fn code_len(&self) -> (n: usize)
        ensures
            n == self.code_view().len(),
    {
        self.code.len()
    }

    /// Empties the code, the line table and the constant pool.
    pub fn free(&mut self)
        ensures
            final (self).wf(),
            final (self).code_view() == Seq::<u8>::empty(),
            final (self).lines_view() == Seq::<usize>::empty(),
            final (self).consts() == Seq::<AbsValue>::empty(),
    {
        self.code.clear();
        self.lines.clear();
        self.constants.free();
    }

    /// Appends a constant and returns its index as an operand byte, or
    /// `None`, appending nothing, when the pool already holds 256
    /// values.
    pub fn add_constant(&mut self, value: Value) -> (r: Option<u8>)
        requires
            old(self).wf(),
        ensures
            final (self).wf(),
            final (self).code_view() == old(self).code_view(),
            final (self).lines_view() == old(self).lines_view(),
            match r {
                Some(idx) => old(self).consts().len() < 256 && idx == old(self).consts().len()
                    && final (self).consts() == old(self).consts().push(value@),
                None => old(self).consts().len() == 256 && final (self).consts() == old(
                    self,
                ).consts(),
            },
    {
        if self.constants.count() < 256 {
            let idx = self.constants.write(value);
            Some(idx as u8)
        } else {
            None
        }
    }

    /// The constant at `index`, or `CompileError` when the pool has no
    /// such entry: a chunk asking for a missing constant was not
    /// produced by the compiler.
    pub fn get_constant(&self, index: usize) -> (r: Result<Value, InterpretResult>)
        ensures
            match r {
                Ok(v) => index < self.consts().len() && v@ == self.consts()[index as int],
                Err(e) => index >= self.consts().len() && e == InterpretResult::CompileError,
            },
    {
        self.constants.read_value(index)
    }

    /// Disassembles the whole chunk: a `== name ==` header, then one
    /// line per instruction.
    #[verifier::loop_isolation(false)]
    pub fn disassemble(&self, name: &str) -> (r: Vec<String>)
        requires
            self.wf(),
            code_wf_from(self.code_view(), self.consts().len() as nat, 0),
        ensures
            r.deep_view() == seq!["== "@ + name@ + " =="@] + disasm_lines(
                self.code_view(),
                self.lines_view(),
                self.consts(),
                0,
            ),
    {
        let ghost code = self.code_view();
        let ghost lines = self.lines_view();
        let ghost consts = self.consts();
        let mut out: Vec<String> = Vec::new();
        let mut header = String::from_str("== ");
        header.append(name);
        header.append(" ==");
        out.push(header);
        proof {
            assert(out.deep_view() =~~= seq!["== "@ + name@ + " =="@]);
        }
        let mut offset: usize = 0;
        while offset < self.code.len()
            invariant
                offset <= code.len(),
                code_wf_from(code, consts.len() as nat, offset as int),
                out.deep_view() + disasm_lines(code, lines, consts, offset as int) == seq![
                    "== "@ + name@ + " =="@,
                ] + disasm_lines(code, lines, consts, 0),
            decreases code.len() - offset,
        {
            let ghost prev_lines = out.deep_view();
            let ghost at = offset as int;
            let (line, next) = self.disassemble_instruction(offset);
            let ghost lv = line@;
            out.push(line);
            offset = next;
            proof {
                assert(out.deep_view() =~~= prev_lines.push(lv));
                assert(disasm_lines(code, lines, consts, at) == seq![lv] + disasm_lines(
                    code,
                    lines,
                    consts,
                    offset as int,
                ));
                assert(out.deep_view() + disasm_lines(code, lines, consts, offset as int) =~~= (
                prev_lines + disasm_lines(code, lines, consts, at)));
            }
        }
        proof {
            assert(disasm_lines(code, lines, consts, offset as int) =~~= Seq::<Seq<char>>::empty());
            assert(out.deep_view() + disasm_lines(code, lines, consts, offset as int)
                =~~= out.deep_view());
        }
        out
    }

    /// Disassembles the instruction at `offset`: its text, and the
    /// offset of the next instruction.
    pub fn disassemble_instruction(&self, offset: usize) -> (r: (String, usize))
        requires
            self.wf(),
            offset < self.code_view().len(),
            code_wf_from(self.code_view(), self.consts().len() as nat, offset as int),
        ensures
            r.0@ == disasm_line_text(self.code_view(), self.lines_view(), self.consts(), offset as int),
            offset < r.1 <= self.code_view().len(),
            r.1 as int == offset + instr_size(opcode_of_byte(self.code_view()[offset as int]).unwrap()),
            code_wf_from(self.code_view(), self.consts().len() as nat, r.1 as int),
    {
        let byte = self.read(offset);
        let op = match OpCode::from_byte(byte) {
            Some(op) => op,
            None => {
                proof {
                    assert(false);
                }
                OpCode::Return
            },
        };
        let mut head = crate::text::padded_dec(offset as u64, 4, '0');
        proof {
            reveal_strlit(" ");
            reveal_strlit("   |");
            reveal_strlit("  ");
        }
        head.append(" ");
        if offset > 0 && self.get_line(offset) == self.get_line(offset - 1) {
            head.append("   |");
        } else {
            head.append(crate::text::padded_dec(self.get_line(offset) as u64, 4, ' ').as_str());
        }
        head.append("  ");
        let (body, next) = match op {
            OpCode::Return => self.simple_instruction("OP_RETURN", offset),
            OpCode::Constant => self.constant_instruction("OP_CONSTANT", offset),
            OpCode::Negate => self.simple_instruction("OP_NEGATE", offset),
            OpCode::Add => self.simple_instruction("OP_ADD", offset),
            OpCode::Subtract => self.simple_instruction("OP_SUBTRACT", offset),
            OpCode::Multiply => self.simple_instruction("OP_MULTIPLY", offset),
            OpCode::Divide => self.simple_instruction("OP_DIVIDE", offset),
            OpCode::Nil => self.simple_instruction("OP_NIL", offset),
            OpCode::True => self.simple_instruction("OP_TRUE", offset),
            OpCode::False => self.simple_instruction("OP_FALSE", offset),
            OpCode::Not => self.simple_instruction("OP_NOT", offset),
            OpCode::Equal => self.simple_instruction("OP_EQUAL", offset),
            OpCode::Greater => self.simple_instruction("OP_GREATER", offset),
            OpCode::Less => self.simple_instruction("OP_LESS", offset),
            OpCode::BangEqual => self.simple_instruction("OP_BANG_EQUAL", offset),
            OpCode::GreaterEqual => self.simple_instruction("OP_GREATER_EQUAL", offset),
            OpCode::LessEqual => self.simple_instruction("OP_LESS_EQUAL", offset),
            OpCode::Print => self.simple_instruction("OP_PRINT", offset),
            OpCode::Pop => self.simple_instruction("OP_POP", offset),
            OpCode::DefineGlobal => self.constant_instruction("OP_DEFINE_GLOBAL", offset),
            OpCode::GetGlobal => self.constant_instruction("OP_GET_GLOBAL", offset),
        };
        head.append(body.as_str());
        proof {
            assert(head@ =~= disasm_line_text(
                self.code_view(),
                self.lines_view(),
                self.consts(),
                offset as int,
            ));
        }
        (head, next)
    }

    /// The text of an instruction without an operand: its name alone;
    /// the next instruction starts one byte on.
    pub fn simple_instruction(&self, name: &str, offset: usize) -> (r: (String, usize))
        requires
            offset < self.code_view().len(),
        ensures
            r.0@ == name@,
            r.1 == offset + 1,
    {
        let n = self.code.len();
        (String::from_str(name), offset + 1)
    }

    /// The text of a constant-carrying instruction: its name, the
    /// operand, and the constant it names in quotes; the next
    /// instruction starts two bytes on.
    pub fn constant_instruction(&self, name: &str, offset: usize) -> (r: (String, usize))
        requires
            offset + 1 < self.code_view().len(),
            (self.code_view()[offset + 1] as nat) < self.consts().len(),
        ensures
            r.0@ == name@ + " "@ + crate::text::dec_str(self.code_view()[offset + 1] as nat)
                + " '"@ + format_abs(self.consts()[self.code_view()[offset + 1] as int]) + "'"@,
            r.1 == offset + 2,
    {
        let n = self.code.len();
        let idx = self.read(offset + 1);
        let mut out = String::from_str(name);
        proof {
            reveal_strlit(" ");
            reveal_strlit(" '");
            reveal_strlit("'");
        }
        out.append(" ");
        out.append(crate::text::u64_to_dec(idx as u64).as_str());
        out.append(" '");
        out.append(self.constants.print_value(idx as usize).as_str());
        out.append("'");
        proof {
            assert(out@ =~= name@ + " "@ + crate::text::dec_str(self.code_view()[offset + 1] as nat)
                + " '"@ + format_abs(self.consts()[self.code_view()[offset + 1] as int]) + "'"@);
        }
        (out, offset + 2)
    }
}

} // verus!
