//! The virtual machine: a fetch-decode-execute loop over a chunk's bytes
//! with an operand stack and dynamic type checks.
//!
//! `spec_exec` is the machine's definition: a total function giving, for
//! any code, line table, constant pool and starting state, the outcome, the
//! final stack and the final instruction pointer. `run` is proved to return
//! exactly that outcome and to leave the machine in exactly that state.
//! Bytes that do not decode — an unknown opcode, a missing operand, an
//! operand outside the pool, or an operand stack too short for the
//! instruction — stop execution as a fatal decode failure; nothing panics.

use vstd::prelude::*;
use vstd::string::StringSliceAdditionalSpecFns;

use crate::chunk::Chunk;
use crate::chunk::OpCode;
use crate::chunk::byte_of_opcode;
use crate::chunk::opcode_of_byte;
use crate::compiler::Diagnostic;
use crate::compiler::chunk_decodes;
use crate::compiler::compile;
use crate::compiler::decoded;
use crate::number::num_add_of;
use crate::number::num_div_of;
use crate::number::num_gt_of;
use crate::number::num_lt_of;
use crate::number::num_mul_of;
use crate::number::num_neg_of;
use crate::number::num_sub_of;
use crate::number::{num_add, num_div, num_gt, num_lt, num_mul, num_neg, num_sub};
use crate::value::Value;
use crate::value::spec_falsy;
use crate::value::spec_values_equal;
use crate::value::values_equal;

verus! {

#[derive(Clone, Copy, Debug, PartialEq, Eq, Structural)]
pub enum InterpretResult {
    Success,
    CompileError,
    RuntimeError,
}

#[derive(Clone, Copy, Debug, PartialEq, Eq, Structural)]
pub enum RuntimeErrorKind {
    OperandMustBeNumber,
    OperandsMustBeNumbers,
}

/// The diagnostic text of a runtime error, exactly as it is reported.
pub open spec fn spec_runtime_message(kind: RuntimeErrorKind) -> Seq<char> {
    match kind {
        RuntimeErrorKind::OperandMustBeNumber => "Operand must be a number."@,
        RuntimeErrorKind::OperandsMustBeNumbers => "Operands must be numbers."@,
    }
}

impl RuntimeErrorKind {
    pub fn message(&self) -> (r: &'static str)
        ensures
            r@ == spec_runtime_message(*self),
    {
        match self {
            RuntimeErrorKind::OperandMustBeNumber => "Operand must be a number.",
            RuntimeErrorKind::OperandsMustBeNumbers => "Operands must be numbers.",
        }
    }
}

/// A runtime type-check failure: what went wrong and the source line of
/// the instruction that failed.
#[derive(Clone, Copy, Debug, PartialEq, Eq, Structural)]
pub struct RuntimeFault {
    pub kind: RuntimeErrorKind,
    pub line: usize,
}

/// How a run of the machine ended.
#[derive(Debug)]
pub enum ExecOutcome {
    /// An `OP_RETURN` surfaced this value.
    Finished(Value),
    /// A type check failed; the operand stack was cleared.
    Fault(RuntimeFault),
    /// The bytes do not decode into executable instructions.
    BadBytecode,
}

/// The six opcodes that pop two numbers.
pub open spec fn is_binary_op(op: OpCode) -> bool {
    ||| op == OpCode::OP_GREATER
    ||| op == OpCode::OP_LESS
    ||| op == OpCode::OP_ADD
    ||| op == OpCode::OP_SUBTRACT
    ||| op == OpCode::OP_MULTIPLY
    ||| op == OpCode::OP_DIVIDE
}

/// What a binary opcode pushes for number operands with bits `x` and `y`,
/// `x` the value below `y` on the stack.
pub open spec fn spec_binary_value(op: OpCode, x: u64, y: u64) -> Value {
    match op {
        OpCode::OP_GREATER => Value::Boolean(num_gt_of(x, y)),
        OpCode::OP_LESS => Value::Boolean(num_lt_of(x, y)),
        OpCode::OP_ADD => Value::Number(num_add_of(x, y)),
        OpCode::OP_SUBTRACT => Value::Number(num_sub_of(x, y)),
        OpCode::OP_MULTIPLY => Value::Number(num_mul_of(x, y)),
        OpCode::OP_DIVIDE => Value::Number(num_div_of(x, y)),
        _ => Value::Nil,
    }
}

/// The machine itself: from instruction pointer `ip` and operand stack
/// `stack`, the outcome, the stack left behind, and where the instruction
/// pointer stops. A fault clears the stack and reports the line of the
/// opcode's byte.
pub open spec fn spec_exec(
    code: Seq<u8>,
    lines: Seq<usize>,
    consts: Seq<Value>,
    ip: int,
    stack: Seq<Value>,
) -> (ExecOutcome, Seq<Value>, int)
    decreases code.len() - ip,
{
    if !(0 <= ip < code.len()) {
        (ExecOutcome::BadBytecode, stack, ip)
    } else {
        let op = opcode_of_byte(code[ip]);
        let line = lines[ip];
        if op == OpCode::OP_CONSTANT {
            if ip + 1 < code.len() && code[ip + 1] < consts.len() {
                spec_exec(code, lines, consts, ip + 2, stack.push(consts[code[ip + 1] as int]))
            } else if ip + 1 < code.len() {
                (ExecOutcome::BadBytecode, stack, ip + 2)
            } else {
                (ExecOutcome::BadBytecode, stack, ip + 1)
            }
        } else if op == OpCode::OP_NIL {
            spec_exec(code, lines, consts, ip + 1, stack.push(Value::Nil))
        } else if op == OpCode::OP_TRUE {
            spec_exec(code, lines, consts, ip + 1, stack.push(Value::Boolean(true)))
        } else if op == OpCode::OP_FALSE {
            spec_exec(code, lines, consts, ip + 1, stack.push(Value::Boolean(false)))
        } else if op == OpCode::OP_EQUAL {
            if stack.len() < 2 {
                (ExecOutcome::BadBytecode, stack, ip + 1)
            } else {
                let a = stack[stack.len() - 2];
                let b = stack[stack.len() - 1];
                spec_exec(
                    code,
                    lines,
                    consts,
                    ip + 1,
                    stack.drop_last().drop_last().push(Value::Boolean(spec_values_equal(a, b))),
                )
            }
        } else if is_binary_op(op) {
            if stack.len() < 2 {
                (ExecOutcome::BadBytecode, stack, ip + 1)
            } else {
                let a = stack[stack.len() - 2];
                let b = stack[stack.len() - 1];
                if a matches Value::Number(x) && b matches Value::Number(y) {
                    spec_exec(
                        code,
                        lines,
                        consts,
                        ip + 1,
                        stack.drop_last().drop_last().push(
                            spec_binary_value(op, a->Number_0, b->Number_0),
                        ),
                    )
                } else {
                    (
                        ExecOutcome::Fault(
                            RuntimeFault { kind: RuntimeErrorKind::OperandsMustBeNumbers, line },
                        ),
                        Seq::empty(),
                        ip + 1,
                    )
                }
            }
        } else if op == OpCode::OP_NOT {
            if stack.len() < 1 {
                (ExecOutcome::BadBytecode, stack, ip + 1)
            } else {
                spec_exec(
                    code,
                    lines,
                    consts,
                    ip + 1,
                    stack.drop_last().push(Value::Boolean(spec_falsy(stack.last()))),
                )
            }
        } else if op == OpCode::OP_NEGATE {
            if stack.len() < 1 {
                (ExecOutcome::BadBytecode, stack, ip + 1)
            } else if stack.last() matches Value::Number(n) {
                spec_exec(
                    code,
                    lines,
                    consts,
                    ip + 1,
                    stack.drop_last().push(Value::Number(num_neg_of(stack.last()->Number_0))),
                )
            } else {
                (
                    ExecOutcome::Fault(
                        RuntimeFault { kind: RuntimeErrorKind::OperandMustBeNumber, line },
                    ),
                    Seq::empty(),
                    ip + 1,
                )
            }
        } else if op == OpCode::OP_RETURN {
            if stack.len() < 1 {
                (ExecOutcome::BadBytecode, stack, ip + 1)
            } else {
                (ExecOutcome::Finished(stack.last()), stack.drop_last(), ip + 1)
            }
        } else {
            (ExecOutcome::BadBytecode, stack, ip + 1)
        }
    }
}

pub struct VM {
    pub chunk: Chunk,
    pub ip: usize,
    pub stack: Vec<Value>,
}

impl VM {
    pub fn new(chunk: Chunk) -> (vm: VM)
        ensures
            vm.chunk == chunk,
            vm.ip == 0,
            vm.stack@ == Seq::<Value>::empty(),
    {
        VM { chunk, ip: 0, stack: Vec::new() }
    }

    fn reset_stack(&mut self)
        ensures
            final(self).stack@ == Seq::<Value>::empty(),
            final(self).chunk == old(self).chunk,
            final(self).ip == old(self).ip,
    {
        self.stack.clear();
    }

    fn push(&mut self, value: Value)
        ensures
            final(self).stack@ == old(self).stack@.push(value),
            final(self).chunk == old(self).chunk,
            final(self).ip == old(self).ip,
    {
        self.stack.push(value);
    }

    fn pop(&mut self) -> (v: Value)
        requires
            old(self).stack@.len() > 0,
        ensures
            v == old(self).stack@.last(),
            final(self).stack@ == old(self).stack@.drop_last(),
            final(self).chunk == old(self).chunk,
            final(self).ip == old(self).ip,
    {
        let v = self.stack.pop().unwrap();
        v
    }

    pub fn is_falsy(value: &Value) -> (r: bool)
        ensures
            r == spec_falsy(*value),
    {
        match value {
            Value::Nil => true,
            Value::Boolean(b) => !*b,
            _ => false,
        }
    }

    /// Clears the stack and reports which type check failed, with the
    /// source line of the instruction byte just consumed.
    fn runtime_error(&mut self, kind: RuntimeErrorKind) -> (f: RuntimeFault)
        requires
            1 <= old(self).ip,
            old(self).ip <= old(self).chunk.lines@.len(),
        ensures
            f.kind == kind,
            f.line == old(self).chunk.lines@[old(self).ip - 1],
            final(self).stack@ == Seq::<Value>::empty(),
            final(self).chunk == old(self).chunk,
            final(self).ip == old(self).ip,
    {
        let line = self.chunk.lines[self.ip - 1];
        self.reset_stack();
        RuntimeFault { kind, line }
    }

    /// Pops two operands for a binary opcode; both must be numbers, or the
    /// shared type-check failure is reported.
    fn binary_op(&mut self, op: OpCode) -> (fault: Option<RuntimeFault>)
        requires
            is_binary_op(op),
            old(self).stack@.len() >= 2,
            1 <= old(self).ip,
            old(self).ip <= old(self).chunk.lines@.len(),
        ensures
            final(self).chunk == old(self).chunk,
            final(self).ip == old(self).ip,
            (match (old(self).stack@[old(self).stack@.len() - 2], old(self).stack@[old(
                self,
            ).stack@.len() - 1]) {
                (Value::Number(x), Value::Number(y)) => fault is None && final(self).stack@ == old(
                    self,
                ).stack@.drop_last().drop_last().push(spec_binary_value(op, x, y)),
                _ => fault == Some(
                    RuntimeFault {
                        kind: RuntimeErrorKind::OperandsMustBeNumbers,
                        line: old(self).chunk.lines@[old(self).ip - 1],
                    },
                ) && final(self).stack@ == Seq::<Value>::empty(),
            }),
    {
        let len = self.stack.len();
        let both_numbers = match (&self.stack[len - 2], &self.stack[len - 1]) {
            (Value::Number(_), Value::Number(_)) => true,
            _ => false,
        };
        if !both_numbers {
            return Some(self.runtime_error(RuntimeErrorKind::OperandsMustBeNumbers));
        }
        let b = self.pop();
        let a = self.pop();
        match (a, b) {
            (Value::Number(x), Value::Number(y)) => {
                let result = match op {
                    OpCode::OP_GREATER => Value::Boolean(num_gt(x, y)),
                    OpCode::OP_LESS => Value::Boolean(num_lt(x, y)),
                    OpCode::OP_ADD => Value::Number(num_add(x, y)),
                    OpCode::OP_SUBTRACT => Value::Number(num_sub(x, y)),
                    OpCode::OP_MULTIPLY => Value::Number(num_mul(x, y)),
                    _ => Value::Number(num_div(x, y)),
                };
                self.push(result);
                None
            },
            _ => vstd::pervasive::unreached(),
        }
    }

    /// Executes the loaded chunk from the current state. The returned
    /// outcome, the stack left behind and the final instruction pointer are
    /// exactly those of `spec_exec`.
    pub fn run(&mut self) -> (r: ExecOutcome)
        requires
            old(self).chunk.wf(),
        ensures
            final(self).chunk == old(self).chunk,
            r == spec_exec(
                old(self).chunk.code@,
                old(self).chunk.lines@,
                old(self).chunk.constants.values@,
                old(self).ip as int,
                old(self).stack@,
            ).0,
            final(self).stack@ == spec_exec(
                old(self).chunk.code@,
                old(self).chunk.lines@,
                old(self).chunk.constants.values@,
                old(self).ip as int,
                old(self).stack@,
            ).1,
            final(self).ip == spec_exec(
                old(self).chunk.code@,
                old(self).chunk.lines@,
                old(self).chunk.constants.values@,
                old(self).ip as int,
                old(self).stack@,
            ).2,
    {
        let ghost code = self.chunk.code@;
        let ghost lines = self.chunk.lines@;
        let ghost consts = self.chunk.constants.values@;
        let ghost target = spec_exec(code, lines, consts, self.ip as int, self.stack@);
        loop
            invariant
                self.chunk == old(self).chunk,
                self.chunk.wf(),
                code == self.chunk.code@,
                lines == self.chunk.lines@,
                consts == self.chunk.constants.values@,
                target == spec_exec(code, lines, consts, old(self).ip as int, old(self).stack@),
                spec_exec(code, lines, consts, self.ip as int, self.stack@) == target,
            decreases code.len() - self.ip,
        {
            let ghost ip0 = self.ip as int;
            let ghost stack0 = self.stack@;
            proof {
                assert(spec_exec(code, lines, consts, ip0, stack0) == target);
            }
            if self.ip >= self.chunk.code.len() {
                return ExecOutcome::BadBytecode;
            }
            let byte = self.chunk.code[self.ip];
            self.ip = self.ip + 1;
            let op = OpCode::from_byte(byte);
            match op {
                OpCode::OP_CONSTANT => {
                    if self.ip >= self.chunk.code.len() {
                        proof {
                            assert(target == (ExecOutcome::BadBytecode, stack0, ip0 + 1));
                        }
                        return ExecOutcome::BadBytecode;
                    }
                    let idx = self.chunk.code[self.ip];
                    self.ip = self.ip + 1;
                    if (idx as usize) >= self.chunk.constants.values.len() {
                        proof {
                            assert(target == (ExecOutcome::BadBytecode, stack0, ip0 + 2));
                        }
                        return ExecOutcome::BadBytecode;
                    }
                    let v = self.chunk.constants.values[idx as usize].clone();
                    self.push(v);
                },
                OpCode::OP_NIL => {
                    self.push(Value::Nil);
                },
                OpCode::OP_TRUE => {
                    self.push(Value::Boolean(true));
                },
                OpCode::OP_FALSE => {
                    self.push(Value::Boolean(false));
                },
                OpCode::OP_EQUAL => {
                    if self.stack.len() < 2 {
                        return ExecOutcome::BadBytecode;
                    }
                    let b = self.pop();
                    let a = self.pop();
                    let eq = values_equal(&a, &b);
                    self.push(Value::Boolean(eq));
                },
                OpCode::OP_GREATER | OpCode::OP_LESS | OpCode::OP_ADD | OpCode::OP_SUBTRACT
                    | OpCode::OP_MULTIPLY | OpCode::OP_DIVIDE => {
                    if self.stack.len() < 2 {
                        return ExecOutcome::BadBytecode;
                    }
                    match self.binary_op(op) {
                        Some(fault) => {
                            return ExecOutcome::Fault(fault);
                        },
                        None => {},
                    }
                },
                OpCode::OP_NOT => {
                    if self.stack.len() < 1 {
                        return ExecOutcome::BadBytecode;
                    }
                    let v = self.pop();
                    let falsy = Self::is_falsy(&v);
                    self.push(Value::Boolean(falsy));
                },
                OpCode::OP_NEGATE => {
                    if self.stack.len() < 1 {
                        return ExecOutcome::BadBytecode;
                    }
                    let is_number = match &self.stack[self.stack.len() - 1] {
                        Value::Number(_) => true,
                        _ => false,
                    };
                    if !is_number {
                        let fault = self.runtime_error(RuntimeErrorKind::OperandMustBeNumber);
                        return ExecOutcome::Fault(fault);
                    }
                    let v = self.pop();
                    match v {
                        Value::Number(n) => {
                            self.push(Value::Number(num_neg(n)));
                        },
                        _ => {
                            vstd::pervasive::unreached::<()>();
                        },
                    }
                },
                OpCode::OP_RETURN => {
                    if self.stack.len() < 1 {
                        return ExecOutcome::BadBytecode;
                    }
                    let v = self.pop();
                    return ExecOutcome::Finished(v);
                },
                OpCode::UNKNOWN => {
                    return ExecOutcome::BadBytecode;
                },
            }
        }
    }

    /// Compiles one expression and executes it on this machine. A compile
    /// failure leaves the machine untouched and hands back the
    /// diagnostics; otherwise the freshly compiled chunk is loaded, run
    /// from instruction pointer zero on the stack as it stood, and the
    /// outcome is exactly `spec_exec` of that chunk.
    pub fn interpret(&mut self, source: Vec<u8>) -> (r: InterpretOutcome)
        requires
            source@.len() < usize::MAX,
        ensures
            !(r matches InterpretOutcome::BadBytecode),
            crate::compiler::spec_source_ok(source@) && crate::compiler::spec_source_pool(
                source@,
            ).len() <= 256 ==> !(r matches InterpretOutcome::CompileFailure(_))
                && final(self).chunk.code@ == crate::debug::encode_instructions(
                crate::compiler::spec_source_emission(source@),
            )
                && final(self).chunk.constants.values@ == crate::compiler::spec_source_pool(
                source@,
            ),
            r matches InterpretOutcome::CompileFailure(d) ==> d@.len() > 0 && *final(self)
                == *old(self) && !(crate::compiler::spec_source_ok(source@)
                && crate::compiler::spec_source_pool(source@).len() <= 256),
            ({
                // a failing compile hands its diagnostic through unchanged
                let first = crate::scanner::spec_scan_token(source@, 0, 1);
                let w = crate::compiler::spec_pp(
                    source@,
                    first.0,
                    first.1,
                    first.2,
                    first.3,
                    1,
                    Seq::<Value>::empty(),
                );
                r matches InterpretOutcome::CompileFailure(d) ==> {
                    &&& (first.0 == crate::scanner::TokenType::Error ==> d@.len() == 1
                        && d@[0].message@ == first.1 && d@[0].line as int == first.3)
                    &&& (first.0 != crate::scanner::TokenType::Error && !w.0 && w.6.len() <= 256
                        ==> d@.len() == 1 && d@[0].message@ == w.7.0 && d@[0].line as int == w.7.1)
                    &&& (first.0 != crate::scanner::TokenType::Error && w.0 && w.6.len() <= 256
                        && w.1 != crate::scanner::TokenType::Eof ==> d@.len() == 1
                        && d@[0].message@ == "Expect end of expression.".spec_bytes()
                        && d@[0].line as int == w.3)
                }
            }),
            !(r matches InterpretOutcome::CompileFailure(_)) ==> {
                let t = spec_exec(
                    final(self).chunk.code@,
                    final(self).chunk.lines@,
                    final(self).chunk.constants.values@,
                    0,
                    old(self).stack@,
                );
                &&& final(self).chunk.wf()
                &&& chunk_decodes(final(self).chunk)
                &&& decoded(final(self).chunk).len() >= 1
                &&& decoded(final(self).chunk).last().op == OpCode::OP_RETURN
                &&& (match r {
                    InterpretOutcome::Success(v) => t.0 == ExecOutcome::Finished(v),
                    InterpretOutcome::RuntimeFailure(f) => t.0 == ExecOutcome::Fault(f),
                    InterpretOutcome::BadBytecode => t.0 == ExecOutcome::BadBytecode,
                    InterpretOutcome::CompileFailure(_) => false,
                })
                &&& final(self).stack@ == t.1
                &&& final(self).ip == t.2
            },
    {
        let (chunk_opt, diagnostics) = compile(source);
        let chunk = match chunk_opt {
            Some(c) => c,
            None => {
                return InterpretOutcome::CompileFailure(diagnostics);
            },
        };
        self.chunk = chunk;
        self.ip = 0;
        match self.run() {
            ExecOutcome::Finished(v) => InterpretOutcome::Success(v),
            ExecOutcome::Fault(f) => InterpretOutcome::RuntimeFailure(f),
            ExecOutcome::BadBytecode => InterpretOutcome::BadBytecode,
        }
    }
}

/// Everything an `interpret` call can end in. `status` collapses it to the
/// three-way result the embedding maps to exit codes.
#[derive(Debug)]
pub enum InterpretOutcome {
    Success(Value),
    CompileFailure(Vec<Diagnostic>),
    RuntimeFailure(RuntimeFault),
    BadBytecode,
}

impl InterpretOutcome {
    /// A decode failure surfaces like a compile failure: a byte that is no
    /// instruction is the compiler's fault, not the running program's.
    pub open spec fn spec_status(self) -> InterpretResult {
        match self {
            InterpretOutcome::Success(_) => InterpretResult::Success,
            InterpretOutcome::CompileFailure(_) => InterpretResult::CompileError,
            InterpretOutcome::RuntimeFailure(_) => InterpretResult::RuntimeError,
            InterpretOutcome::BadBytecode => InterpretResult::CompileError,
        }
    }

    pub fn status(&self) -> (r: InterpretResult)
        ensures
            r == self.spec_status(),
    {
        match self {
            InterpretOutcome::Success(_) => InterpretResult::Success,
            InterpretOutcome::CompileFailure(_) => InterpretResult::CompileError,
            InterpretOutcome::RuntimeFailure(_) => InterpretResult::RuntimeError,
            InterpretOutcome::BadBytecode => InterpretResult::CompileError,
        }
    }
}

/// The stack-length discipline of a code segment emitted mid-expression:
/// walking the bytes from `ip` with `h` values on the stack, each
/// instruction finds its operands, and the segment closes at its end with
/// some height. `RETURN` and unknown bytes never appear inside such a
/// segment. Heights say nothing about values: a walk that closes can
/// still fault at runtime on a type check, but it cannot underflow.
pub open spec fn spec_heights(seg: Seq<u8>, ip: int, h: int) -> Option<int>
    decreases seg.len() - ip,
{
    if ip == seg.len() {
        Some(h)
    } else if 0 <= ip < seg.len() {
        let op = opcode_of_byte(seg[ip]);
        if op == OpCode::OP_CONSTANT {
            if ip + 1 < seg.len() {
                spec_heights(seg, ip + 2, h + 1)
            } else {
                None
            }
        } else if op == OpCode::OP_NIL || op == OpCode::OP_TRUE || op == OpCode::OP_FALSE {
            spec_heights(seg, ip + 1, h + 1)
        } else if op == OpCode::OP_EQUAL || is_binary_op(op) {
            if h >= 2 {
                spec_heights(seg, ip + 1, h - 1)
            } else {
                None
            }
        } else if op == OpCode::OP_NOT || op == OpCode::OP_NEGATE {
            if h >= 1 {
                spec_heights(seg, ip + 1, h)
            } else {
                None
            }
        } else {
            None
        }
    } else {
        None
    }
}

/// The height discipline of a whole segment: from any stack of at least
/// `need` values, the walk closes at the segment's end `net` values
/// taller.
pub open spec fn heights_profile(seg: Seq<u8>, need: int, net: int) -> bool {
    forall|h: int| h >= need ==> spec_heights(seg, 0, h) == Some(h + net)
}

/// Profiles concatenate: the first segment's closing height must satisfy
/// the second segment's need.
pub proof fn lemma_profile_concat(
    a: Seq<u8>,
    b: Seq<u8>,
    need1: int,
    net1: int,
    need2: int,
    net2: int,
    need: int,
)
    requires
        heights_profile(a, need1, net1),
        heights_profile(b, need2, net2),
        need >= need1,
        need + net1 >= need2,
    ensures
        heights_profile(a + b, need, net1 + net2),
{
    assert forall|h: int| h >= need implies spec_heights(a + b, 0, h) == Some(
        h + net1 + net2,
    ) by {
        assert(spec_heights(a, 0, h) == Some(h + net1));
        lemma_heights_concat(a, b, 0, h);
        assert(spec_heights(b, 0, h + net1) == Some(h + net1 + net2));
    }
}

/// Walking one segment and then another chains the heights.
pub proof fn lemma_heights_concat(a: Seq<u8>, b: Seq<u8>, j: int, h: int)
    requires
        0 <= j <= a.len(),
        spec_heights(a, j, h) is Some,
    ensures
        spec_heights(a + b, j, h) == spec_heights(b, 0, spec_heights(a, j, h)->Some_0),
    decreases a.len() - j,
{
    let cat = a + b;
    if j == a.len() {
        if b.len() == 0 {
            assert(spec_heights(cat, j, h) == Some(h));
            assert(spec_heights(b, 0, h) == Some(h));
        } else {
            assert forall|k: int| 0 <= k < b.len() implies cat[j + k] == b[k] by {}
            lemma_heights_shift(a, b, 0, h);
        }
    } else {
        assert(cat[j] == a[j]);
        let op = opcode_of_byte(a[j]);
        if op == OpCode::OP_CONSTANT {
            lemma_heights_concat(a, b, j + 2, h + 1);
        } else if op == OpCode::OP_NIL || op == OpCode::OP_TRUE || op == OpCode::OP_FALSE {
            lemma_heights_concat(a, b, j + 1, h + 1);
        } else if op == OpCode::OP_EQUAL || is_binary_op(op) {
            lemma_heights_concat(a, b, j + 1, h - 1);
        } else {
            lemma_heights_concat(a, b, j + 1, h);
        }
    }
}

/// A segment walks the same behind any prefix.
proof fn lemma_heights_shift(pre: Seq<u8>, seg: Seq<u8>, ip: int, h: int)
    requires
        0 <= ip <= seg.len(),
    ensures
        spec_heights(pre + seg, pre.len() + ip, h) == spec_heights(seg, ip, h),
    decreases seg.len() - ip,
{
    let cat = pre + seg;
    if ip == seg.len() {
        assert(pre.len() + ip == cat.len());
    } else {
        assert(cat[pre.len() + ip] == seg[ip]);
        let op = opcode_of_byte(seg[ip]);
        if op == OpCode::OP_CONSTANT {
            if ip + 1 < seg.len() {
                lemma_heights_shift(pre, seg, ip + 2, h + 1);
            }
        } else if op == OpCode::OP_NIL || op == OpCode::OP_TRUE || op == OpCode::OP_FALSE {
            lemma_heights_shift(pre, seg, ip + 1, h + 1);
        } else if op == OpCode::OP_EQUAL || is_binary_op(op) {
            if h >= 2 {
                lemma_heights_shift(pre, seg, ip + 1, h - 1);
            }
        } else if op == OpCode::OP_NOT || op == OpCode::OP_NEGATE {
            if h >= 1 {
                lemma_heights_shift(pre, seg, ip + 1, h);
            }
        }
    }
}

/// Running a segment that decodes and whose height walk closes: from any
/// stack of the walk's starting height, the machine either faults on a
/// type check, or carries the whole run on from the segment's end with a
/// stack of the closing height. In particular it never underflows and
/// never meets a byte it cannot decode inside the segment.
pub proof fn lemma_run_segment(
    code: Seq<u8>,
    lines: Seq<usize>,
    consts: Seq<Value>,
    i0: int,
    i1: int,
    stack: Seq<Value>,
    h1: int,
)
    requires
        0 <= i0 <= i1 <= code.len(),
        code.len() == lines.len(),
        crate::debug::spec_decode(
            code.subrange(i0, i1),
            lines.subrange(i0, i1),
            0,
            consts.len() as int,
        ) is Some,
        spec_heights(code.subrange(i0, i1), 0, stack.len() as int) == Some(h1),
    ensures
        (exists|s2: Seq<Value>|
            s2.len() == h1 && spec_exec(code, lines, consts, i0, stack) == spec_exec(
                code,
                lines,
                consts,
                i1,
                s2,
            )) || (spec_exec(code, lines, consts, i0, stack).0 matches ExecOutcome::Fault(_)
            && spec_exec(code, lines, consts, i0, stack).1 == Seq::<Value>::empty()),
    decreases i1 - i0,
{
    let seg = code.subrange(i0, i1);
    let segl = lines.subrange(i0, i1);
    if i0 == i1 {
        assert(stack.len() == h1);
        assert(spec_exec(code, lines, consts, i0, stack) == spec_exec(code, lines, consts, i1, stack));
    } else {
        assert(seg[0] == code[i0]);
        assert(segl[0] == lines[i0]);
        let op = opcode_of_byte(code[i0]);
        let d: int = if op == OpCode::OP_CONSTANT {
            2
        } else {
            1
        };
        // what the decode of the segment guarantees about its first instruction
        assert(op != OpCode::UNKNOWN);
        if op == OpCode::OP_CONSTANT {
            assert(0 + 1 < seg.len() && seg[1] < consts.len());
            assert(seg[1] == code[i0 + 1]);
        }
        // the next stack, by the case of the first instruction
        let stack2: Seq<Value> = if op == OpCode::OP_CONSTANT {
            stack.push(consts[code[i0 + 1] as int])
        } else if op == OpCode::OP_NIL {
            stack.push(Value::Nil)
        } else if op == OpCode::OP_TRUE {
            stack.push(Value::Boolean(true))
        } else if op == OpCode::OP_FALSE {
            stack.push(Value::Boolean(false))
        } else if op == OpCode::OP_EQUAL {
            stack.drop_last().drop_last().push(
                Value::Boolean(spec_values_equal(stack[stack.len() - 2], stack[stack.len() - 1])),
            )
        } else if is_binary_op(op) {
            if stack[stack.len() - 2] matches Value::Number(x) && stack[stack.len()
                - 1] matches Value::Number(y) {
                stack.drop_last().drop_last().push(
                    spec_binary_value(
                        op,
                        stack[stack.len() - 2]->Number_0,
                        stack[stack.len() - 1]->Number_0,
                    ),
                )
            } else {
                stack
            }
        } else if op == OpCode::OP_NOT {
            stack.drop_last().push(Value::Boolean(spec_falsy(stack.last())))
        } else {
            if stack.last() matches Value::Number(_) {
                stack.drop_last().push(Value::Number(num_neg_of(stack.last()->Number_0)))
            } else {
                stack
            }
        };
        // a closing height walk holds only the expression opcodes
        assert(op == OpCode::OP_CONSTANT || op == OpCode::OP_NIL || op == OpCode::OP_TRUE || op
            == OpCode::OP_FALSE || op == OpCode::OP_EQUAL || is_binary_op(op) || op
            == OpCode::OP_NOT || op == OpCode::OP_NEGATE);
        // arity and the height after the first instruction
        if op == OpCode::OP_CONSTANT {
            assert(spec_heights(seg, 2, stack.len() as int + 1) == Some(h1));
        } else if op == OpCode::OP_NIL || op == OpCode::OP_TRUE || op == OpCode::OP_FALSE {
            assert(spec_heights(seg, 1, stack.len() as int + 1) == Some(h1));
        } else if op == OpCode::OP_EQUAL || is_binary_op(op) {
            assert(stack.len() >= 2);
            assert(spec_heights(seg, 1, stack.len() as int - 1) == Some(h1));
        } else {
            assert(stack.len() >= 1);
            assert(spec_heights(seg, 1, stack.len() as int) == Some(h1));
        }
        let faulted = (is_binary_op(op) && !(stack[stack.len() - 2] matches Value::Number(_)
            && stack[stack.len() - 1] matches Value::Number(_))) || (op == OpCode::OP_NEGATE && !(
        stack.last() matches Value::Number(_)));
        if faulted {
            assert(spec_exec(code, lines, consts, i0, stack).0 matches ExecOutcome::Fault(_));
            assert(spec_exec(code, lines, consts, i0, stack).1 == Seq::<Value>::empty());
        } else {
            if op == OpCode::OP_CONSTANT {
                assert(stack2.len() == stack.len() + 1);
            } else if op == OpCode::OP_NIL || op == OpCode::OP_TRUE || op == OpCode::OP_FALSE {
                assert(stack2.len() == stack.len() + 1);
            } else if op == OpCode::OP_EQUAL || is_binary_op(op) {
                assert(stack2.len() == stack.len() - 1);
            } else {
                assert(stack2.len() == stack.len());
            }
            assert(spec_exec(code, lines, consts, i0, stack) == spec_exec(
                code,
                lines,
                consts,
                i0 + d,
                stack2,
            ));
            // the rest of the segment still decodes and still closes
            let seg2 = code.subrange(i0 + d, i1);
            let segl2 = lines.subrange(i0 + d, i1);
            assert(seg2 =~= seg.subrange(d, seg.len() as int));
            assert(segl2 =~= segl.subrange(d, segl.len() as int));
            lemma_decode_tail(seg, segl, d, consts.len() as int);
            lemma_heights_tail(seg, d, stack2.len() as int, h1);
            lemma_run_segment(code, lines, consts, i0 + d, i1, stack2, h1);
            if exists|s2: Seq<Value>|
                s2.len() == h1 && spec_exec(code, lines, consts, i0 + d, stack2) == spec_exec(
                    code,
                    lines,
                    consts,
                    i1,
                    s2,
                ) {
                let s2 = choose|s2: Seq<Value>|
                    s2.len() == h1 && spec_exec(code, lines, consts, i0 + d, stack2) == spec_exec(
                        code,
                        lines,
                        consts,
                        i1,
                        s2,
                    );
                assert(s2.len() == h1 && spec_exec(code, lines, consts, i0, stack) == spec_exec(
                    code,
                    lines,
                    consts,
                    i1,
                    s2,
                ));
            }
        }
    }
}

/// A segment that decodes from position `d` decodes as its own segment.
proof fn lemma_decode_tail(seg: Seq<u8>, segl: Seq<usize>, d: int, n: int)
    requires
        seg.len() == segl.len(),
        0 < d <= seg.len(),
        crate::debug::spec_decode(seg, segl, d, n) is Some,
    ensures
        crate::debug::spec_decode(
            seg.subrange(d, seg.len() as int),
            segl.subrange(d, segl.len() as int),
            0,
            n,
        ) is Some,
{
    let pre = seg.subrange(0, d);
    let prel = segl.subrange(0, d);
    let tail = seg.subrange(d, seg.len() as int);
    let taill = segl.subrange(d, segl.len() as int);
    assert(pre + tail =~= seg);
    assert(prel + taill =~= segl);
    crate::debug::lemma_decode_shift(pre, tail, prel, taill, 0, n);
}

/// A height walk that closes from position `d` closes as its own segment.
proof fn lemma_heights_tail(seg: Seq<u8>, d: int, h2: int, h1: int)
    requires
        0 < d <= seg.len(),
        spec_heights(seg, d, h2) == Some(h1),
    ensures
        spec_heights(seg.subrange(d, seg.len() as int), 0, h2) == Some(h1),
{
    let pre = seg.subrange(0, d);
    let tail = seg.subrange(d, seg.len() as int);
    assert(pre + tail =~= seg);
    lemma_heights_shift(pre, tail, 0, h2);
}

/// The comparison an opcode computes on number bits.
pub open spec fn spec_comparison_of(op: OpCode, a: u64, b: u64) -> bool {
    match op {
        OpCode::OP_LESS => num_lt_of(a, b),
        OpCode::OP_GREATER => num_gt_of(a, b),
        OpCode::OP_EQUAL => crate::number::num_eq_of(a, b),
        _ => arbitrary(),
    }
}

/// A derived comparison equals its defining combinator: running a
/// primitive comparison opcode and then `NOT` — exactly what `>=`, `<=`
/// and `!=` compile to — finishes with the negation of the primitive.
/// With a NaN among the operands the primitive is false, so the derived
/// comparison comes out true, the documented departure from IEEE-754.
pub proof fn lemma_derived_comparison(
    op: OpCode,
    lines: Seq<usize>,
    consts: Seq<Value>,
    a: u64,
    b: u64,
)
    requires
        op == OpCode::OP_LESS || op == OpCode::OP_GREATER || op == OpCode::OP_EQUAL,
        lines.len() == 3,
    ensures
        spec_exec(
            seq![byte_of_opcode(op), byte_of_opcode(OpCode::OP_NOT), byte_of_opcode(
                OpCode::OP_RETURN,
            )],
            lines,
            consts,
            0,
            seq![Value::Number(a), Value::Number(b)],
        ).0 == ExecOutcome::Finished(Value::Boolean(!spec_comparison_of(op, a, b))),
{
    let code = seq![byte_of_opcode(op), byte_of_opcode(OpCode::OP_NOT), byte_of_opcode(
        OpCode::OP_RETURN,
    )];
    let stack0 = seq![Value::Number(a), Value::Number(b)];
    let stack1 = stack0.drop_last().drop_last().push(
        Value::Boolean(spec_comparison_of(op, a, b)),
    );
    let stack2 = stack1.drop_last().push(Value::Boolean(!spec_comparison_of(op, a, b)));
    assert(opcode_of_byte(code[0]) == op);
    assert(opcode_of_byte(code[1]) == OpCode::OP_NOT);
    assert(opcode_of_byte(code[2]) == OpCode::OP_RETURN);
    assert(stack0[0] == Value::Number(a) && stack0[1] == Value::Number(b));
    if op == OpCode::OP_EQUAL {
        assert(spec_values_equal(Value::Number(a), Value::Number(b)) == spec_comparison_of(
            op,
            a,
            b,
        ));
        assert(spec_exec(code, lines, consts, 0, stack0) == spec_exec(
            code,
            lines,
            consts,
            1,
            stack1,
        ));
    } else {
        assert(spec_exec(code, lines, consts, 0, stack0) == spec_exec(
            code,
            lines,
            consts,
            1,
            stack1,
        ));
    }
    assert(!spec_falsy(Value::Boolean(true)) && spec_falsy(Value::Boolean(false)));
    assert(spec_exec(code, lines, consts, 1, stack1) == spec_exec(
        code,
        lines,
        consts,
        2,
        stack2,
    ));
    assert(spec_exec(code, lines, consts, 2, stack2).0 == ExecOutcome::Finished(
        Value::Boolean(!spec_comparison_of(op, a, b)),
    ));
}

/// The type-error boundary for the binary opcodes: whenever either of the
/// two operands of an arithmetic or comparison instruction is not a
/// number, execution faults with "Operands must be numbers.", the line of
/// that instruction, and a cleared stack.
pub proof fn lemma_binary_type_error(
    code: Seq<u8>,
    lines: Seq<usize>,
    consts: Seq<Value>,
    ip: int,
    stack: Seq<Value>,
)
    requires
        0 <= ip < code.len(),
        is_binary_op(opcode_of_byte(code[ip])),
        stack.len() >= 2,
        !(stack[stack.len() - 2] matches Value::Number(_)) || !(stack[stack.len()
            - 1] matches Value::Number(_)),
    ensures
        spec_exec(code, lines, consts, ip, stack).0 == ExecOutcome::Fault(
            RuntimeFault { kind: RuntimeErrorKind::OperandsMustBeNumbers, line: lines[ip] },
        ),
        spec_exec(code, lines, consts, ip, stack).1 == Seq::<Value>::empty(),
{
}

/// The type-error boundary for negation: a non-number operand faults with
/// "Operand must be a number.", the line of that instruction, and a
/// cleared stack.
pub proof fn lemma_negate_type_error(
    code: Seq<u8>,
    lines: Seq<usize>,
    consts: Seq<Value>,
    ip: int,
    stack: Seq<Value>,
)
    requires
        0 <= ip < code.len(),
        opcode_of_byte(code[ip]) == OpCode::OP_NEGATE,
        stack.len() >= 1,
        !(stack.last() matches Value::Number(_)),
    ensures
        spec_exec(code, lines, consts, ip, stack).0 == ExecOutcome::Fault(
            RuntimeFault { kind: RuntimeErrorKind::OperandMustBeNumber, line: lines[ip] },
        ),
        spec_exec(code, lines, consts, ip, stack).1 == Seq::<Value>::empty(),
{
}

} // verus!
