//! Decoding a chunk back into instructions.
//!
//! An instruction is an opcode together with its one-byte operand (present
//! exactly for `OP_CONSTANT`) and the source line its bytes carry in the
//! chunk's line table. Decoding walks the code sequentially, so the triples
//! come back in exactly the order the compiler emitted them; the round-trip
//! lemma at the bottom states that.

use vstd::prelude::*;

use crate::chunk::Chunk;
use crate::chunk::OpCode;
use crate::chunk::byte_of_opcode;
use crate::chunk::lemma_opcode_byte_round_trip;
use crate::chunk::opcode_of_byte;

verus! {

#[derive(Clone, Copy, Debug, PartialEq, Eq, Structural)]
pub struct Instruction {
    pub op: OpCode,
    pub operand: Option<u8>,
    pub line: usize,
}

/// An instruction the code of a chunk with `n_consts` constants can hold:
/// a real opcode, with an operand exactly when the opcode takes one, and
/// that operand inside the constant pool.
pub open spec fn instruction_wf(i: Instruction, n_consts: int) -> bool {
    &&& i.op != OpCode::UNKNOWN
    &&& (i.op == OpCode::OP_CONSTANT <==> i.operand is Some)
    &&& (i.operand matches Some(idx) ==> idx < n_consts)
}

/// The code bytes of one instruction.
pub open spec fn encode_instruction(i: Instruction) -> Seq<u8> {
    match i.operand {
        Some(idx) => seq![byte_of_opcode(i.op), idx],
        None => seq![byte_of_opcode(i.op)],
    }
}

/// The line-table entries of one instruction: its line, once per byte.
pub open spec fn encode_instruction_lines(i: Instruction) -> Seq<usize> {
    match i.operand {
        Some(_) => seq![i.line, i.line],
        None => seq![i.line],
    }
}

/// The code bytes of a run of instructions.
pub open spec fn encode_instructions(l: Seq<Instruction>) -> Seq<u8>
    decreases l.len(),
{
    if l.len() == 0 {
        Seq::empty()
    } else {
        encode_instruction(l[0]) + encode_instructions(l.drop_first())
    }
}

/// The line-table entries of a run of instructions.
pub open spec fn encode_lines(l: Seq<Instruction>) -> Seq<usize>
    decreases l.len(),
{
    if l.len() == 0 {
        Seq::empty()
    } else {
        encode_instruction_lines(l[0]) + encode_lines(l.drop_first())
    }
}

/// Sequential decoding of `code` from position `i` against a pool of
/// `n_consts` constants: the run of instructions it encodes, or nothing if
/// an unknown opcode, a missing operand, or an operand outside the pool is
/// met.
pub open spec fn spec_decode(code: Seq<u8>, lines: Seq<usize>, i: int, n_consts: int) -> Option<
    Seq<Instruction>,
>
    decreases code.len() - i,
{
    if i == code.len() {
        Some(Seq::empty())
    } else if 0 <= i < code.len() {
        let op = opcode_of_byte(code[i]);
        if op == OpCode::UNKNOWN {
            None
        } else if op == OpCode::OP_CONSTANT {
            if i + 1 < code.len() && code[i + 1] < n_consts {
                match spec_decode(code, lines, i + 2, n_consts) {
                    Some(rest) => Some(
                        seq![Instruction { op, operand: Some(code[i + 1]), line: lines[i] }] + rest,
                    ),
                    None => None,
                }
            } else {
                None
            }
        } else {
            match spec_decode(code, lines, i + 1, n_consts) {
                Some(rest) => Some(seq![Instruction { op, operand: None, line: lines[i] }] + rest),
                None => None,
            }
        }
    } else {
        None
    }
}

/// Decodes a whole chunk into its instructions, or reports that some byte
/// does not decode.
pub fn disassemble(chunk: &Chunk) -> (r: Option<Vec<Instruction>>)
    requires
        chunk.code@.len() == chunk.lines@.len(),
    ensures
        (match r {
            Some(v) => spec_decode(
                chunk.code@,
                chunk.lines@,
                0,
                chunk.constants.values@.len() as int,
            ) == Some(v@),
            None => spec_decode(
                chunk.code@,
                chunk.lines@,
                0,
                chunk.constants.values@.len() as int,
            ) is None,
        }),
{
    let ghost code = chunk.code@;
    let ghost lines = chunk.lines@;
    let ghost n = chunk.constants.values@.len() as int;
    let mut result: Vec<Instruction> = Vec::new();
    let mut offset: usize = 0;
    while offset < chunk.code.len()
        invariant
            0 <= offset <= code.len(),
            code == chunk.code@,
            lines == chunk.lines@,
            n == chunk.constants.values@.len() as int,
            code.len() == lines.len(),
            forall|rest: Seq<Instruction>|
                spec_decode(code, lines, offset as int, n) == Some(rest) ==> spec_decode(
                    code,
                    lines,
                    0,
                    n,
                ) == Some(result@ + rest),
            spec_decode(code, lines, offset as int, n) is None ==> spec_decode(
                code,
                lines,
                0,
                n,
            ) is None,
        decreases code.len() - offset,
    {
        let op = OpCode::from_byte(chunk.code[offset]);
        if op == OpCode::UNKNOWN {
            return None;
        }
        let instr: Instruction;
        let next: usize;
        if op == OpCode::OP_CONSTANT {
            if !(offset + 1 < chunk.code.len()) {
                return None;
            }
            let idx = chunk.code[offset + 1];
            if !((idx as usize) < chunk.constants.values.len()) {
                return None;
            }
            instr = Instruction { op, operand: Some(idx), line: chunk.lines[offset] };
            next = offset + 2;
        } else {
            instr = Instruction { op, operand: None, line: chunk.lines[offset] };
            next = offset + 1;
        }
        proof {
            assert forall|rest: Seq<Instruction>|
                spec_decode(code, lines, next as int, n) == Some(rest) implies spec_decode(
                code,
                lines,
                0,
                n,
            ) == Some(result@.push(instr) + rest) by {
                assert(spec_decode(code, lines, offset as int, n) == Some(seq![instr] + rest));
                assert(result@ + (seq![instr] + rest) =~= result@.push(instr) + rest);
            }
            assert(spec_decode(code, lines, next as int, n) is None ==> spec_decode(
                code,
                lines,
                offset as int,
                n,
            ) is None);
        }
        result.push(instr);
        offset = next;
    }
    proof {
        assert(spec_decode(code, lines, offset as int, n) == Some(Seq::<Instruction>::empty()));
        assert(result@ + Seq::<Instruction>::empty() =~= result@);
    }
    Some(result)
}

/// Decoding picks out the very bytes and lines that encoding laid down:
/// the helper for the round-trip law below.
pub proof fn lemma_decode_shift(
    pre: Seq<u8>,
    code: Seq<u8>,
    pre_lines: Seq<usize>,
    lines: Seq<usize>,
    i: int,
    n: int,
)
    requires
        pre.len() == pre_lines.len(),
        code.len() == lines.len(),
        0 <= i <= code.len(),
    ensures
        spec_decode(pre + code, pre_lines + lines, pre.len() + i, n) == spec_decode(
            code,
            lines,
            i,
            n,
        ),
    decreases code.len() - i,
{
    let fullc = pre + code;
    let fulll = pre_lines + lines;
    if i == code.len() {
        assert(pre.len() + i == fullc.len());
    } else {
        assert(fullc[pre.len() + i] == code[i]);
        assert(fulll[pre.len() + i] == lines[i]);
        let op = opcode_of_byte(code[i]);
        if op == OpCode::UNKNOWN {
        } else if op == OpCode::OP_CONSTANT {
            if i + 1 < code.len() {
                assert(fullc[pre.len() + i + 1] == code[i + 1]);
                lemma_decode_shift(pre, code, pre_lines, lines, i + 2, n);
            }
        } else {
            lemma_decode_shift(pre, code, pre_lines, lines, i + 1, n);
        }
    }
}

/// A run of instructions encodes as many code bytes as line entries.
pub proof fn lemma_encode_lens(l: Seq<Instruction>)
    ensures
        encode_instructions(l).len() == encode_lines(l).len(),
    decreases l.len(),
{
    if l.len() == 0 {
    } else {
        lemma_encode_lens(l.drop_first());
    }
}

/// Round trip: decoding the code and line table that a run of well-formed
/// instructions encodes gives back exactly that run, in emission order.
pub proof fn lemma_encode_decode(l: Seq<Instruction>, n_consts: int)
    requires
        forall|j: int| 0 <= j < l.len() ==> instruction_wf(#[trigger] l[j], n_consts),
    ensures
        spec_decode(encode_instructions(l), encode_lines(l), 0, n_consts) == Some(l),
    decreases l.len(),
{
    if l.len() == 0 {
        assert(spec_decode(encode_instructions(l), encode_lines(l), 0, n_consts) == Some(
            Seq::<Instruction>::empty(),
        ));
        assert(l =~= Seq::<Instruction>::empty());
    } else {
        let first = l[0];
        let rest = l.drop_first();
        assert(instruction_wf(first, n_consts));
        assert(forall|j: int| 0 <= j < rest.len() ==> instruction_wf(#[trigger] rest[j], n_consts));
        lemma_encode_decode(rest, n_consts);
        let e0 = encode_instruction(first);
        let el0 = encode_instruction_lines(first);
        let ec = encode_instructions(rest);
        let el = encode_lines(rest);
        assert(encode_instructions(l) == e0 + ec);
        assert(encode_lines(l) == el0 + el);
        lemma_encode_lens(rest);
        lemma_decode_shift(e0, ec, el0, el, 0, n_consts);
        let code = e0 + ec;
        let lns = el0 + el;
        assert(spec_decode(code, lns, e0.len() as int, n_consts) == Some(rest));
        lemma_opcode_byte_round_trip(first.op);
        assert(code[0] == byte_of_opcode(first.op));
        assert(lns[0] == first.line);
        match first.operand {
            Some(idx) => {
                assert(code[1] == idx);
                assert(spec_decode(code, lns, 0, n_consts) == Some(seq![first] + rest));
            },
            None => {
                assert(spec_decode(code, lns, 0, n_consts) == Some(seq![first] + rest));
            },
        }
        assert(seq![first] + rest =~= l);
    }
}

/// Appending one well-formed instruction to code that decodes extends the
/// decoded run by that instruction.
pub proof fn lemma_decode_append_at(
    code: Seq<u8>,
    lines: Seq<usize>,
    j: int,
    n: int,
    l: Seq<Instruction>,
    instr: Instruction,
)
    requires
        code.len() == lines.len(),
        0 <= j <= code.len(),
        spec_decode(code, lines, j, n) == Some(l),
        instruction_wf(instr, n),
    ensures
        spec_decode(
            code + encode_instruction(instr),
            lines + encode_instruction_lines(instr),
            j,
            n,
        ) == Some(l.push(instr)),
    decreases code.len() - j,
{
    let enc = encode_instruction(instr);
    let encl = encode_instruction_lines(instr);
    let fullc = code + enc;
    let fulll = lines + encl;
    if j == code.len() {
        assert(l == Seq::<Instruction>::empty());
        lemma_opcode_byte_round_trip(instr.op);
        assert(fullc[j] == enc[0]);
        assert(fulll[j] == encl[0]);
        match instr.operand {
            Some(idx) => {
                assert(fullc[j + 1] == enc[1]);
                assert(spec_decode(fullc, fulll, j + 2, n) == Some(Seq::<Instruction>::empty()));
                assert(spec_decode(fullc, fulll, j, n) == Some(
                    seq![instr] + Seq::<Instruction>::empty(),
                ));
            },
            None => {
                assert(spec_decode(fullc, fulll, j + 1, n) == Some(Seq::<Instruction>::empty()));
                assert(spec_decode(fullc, fulll, j, n) == Some(
                    seq![instr] + Seq::<Instruction>::empty(),
                ));
            },
        }
        assert(seq![instr] + Seq::<Instruction>::empty() =~= l.push(instr));
    } else {
        assert(fullc[j] == code[j]);
        assert(fulll[j] == lines[j]);
        let op = opcode_of_byte(code[j]);
        if op == OpCode::OP_CONSTANT {
            assert(fullc[j + 1] == code[j + 1]);
            let rest = spec_decode(code, lines, j + 2, n)->Some_0;
            let head = Instruction { op, operand: Some(code[j + 1]), line: lines[j] };
            assert(l == seq![head] + rest);
            lemma_decode_append_at(code, lines, j + 2, n, rest, instr);
            assert(spec_decode(fullc, fulll, j, n) == Some(seq![head] + rest.push(instr)));
            assert(seq![head] + rest.push(instr) =~= (seq![head] + rest).push(instr));
        } else {
            let rest = spec_decode(code, lines, j + 1, n)->Some_0;
            let head = Instruction { op, operand: None, line: lines[j] };
            assert(l == seq![head] + rest);
            lemma_decode_append_at(code, lines, j + 1, n, rest, instr);
            assert(spec_decode(fullc, fulll, j, n) == Some(seq![head] + rest.push(instr)));
            assert(seq![head] + rest.push(instr) =~= (seq![head] + rest).push(instr));
        }
    }
}

/// Two decodable segments decode in sequence.
pub proof fn lemma_decode_concat(
    a: Seq<u8>,
    al: Seq<usize>,
    b: Seq<u8>,
    bl: Seq<usize>,
    j: int,
    n: int,
)
    requires
        a.len() == al.len(),
        b.len() == bl.len(),
        0 <= j <= a.len(),
        spec_decode(a, al, j, n) is Some,
        spec_decode(b, bl, 0, n) is Some,
    ensures
        spec_decode(a + b, al + bl, j, n) is Some,
    decreases a.len() - j,
{
    let cat = a + b;
    let catl = al + bl;
    if j == a.len() {
        lemma_decode_shift(a, b, al, bl, 0, n);
    } else {
        assert(cat[j] == a[j]);
        assert(catl[j] == al[j]);
        let op = opcode_of_byte(a[j]);
        if op == OpCode::OP_CONSTANT {
            assert(cat[j + 1] == a[j + 1]);
            lemma_decode_concat(a, al, b, bl, j + 2, n);
        } else {
            lemma_decode_concat(a, al, b, bl, j + 1, n);
        }
    }
}

/// Appending one instruction appends its line entries.
pub proof fn lemma_encode_lines_push(l: Seq<Instruction>, i: Instruction)
    ensures
        encode_lines(l.push(i)) == encode_lines(l) + encode_instruction_lines(i),
    decreases l.len(),
{
    if l.len() == 0 {
        assert(l.push(i).drop_first() =~= Seq::<Instruction>::empty());
        assert(l.push(i)[0] == i);
        assert(encode_lines(Seq::<Instruction>::empty()) == Seq::<usize>::empty());
        assert(encode_instruction_lines(i) + Seq::<usize>::empty() =~= encode_instruction_lines(
            i,
        ));
        assert(encode_lines(l) + encode_instruction_lines(i) =~= encode_instruction_lines(i));
    } else {
        assert(l.push(i).drop_first() =~= l.drop_first().push(i));
        assert(l.push(i)[0] == l[0]);
        lemma_encode_lines_push(l.drop_first(), i);
        assert(encode_instruction_lines(l[0]) + (encode_lines(l.drop_first())
            + encode_instruction_lines(i)) =~= (encode_instruction_lines(l[0]) + encode_lines(
            l.drop_first(),
        )) + encode_instruction_lines(i));
    }
}

/// Decoding is the inverse of encoding also right to left: bytes that
/// decode are exactly the encoding of what they decode to. (The line table
/// is not pinned the same way: decoding reads only the line of each
/// opcode byte, which the decoded instructions carry.)
pub proof fn lemma_decode_encode_inverse(code: Seq<u8>, lines: Seq<usize>, j: int, n: int)
    requires
        0 <= j <= code.len(),
        spec_decode(code, lines, j, n) is Some,
    ensures
        code.subrange(j, code.len() as int) == encode_instructions(
            spec_decode(code, lines, j, n)->Some_0,
        ),
    decreases code.len() - j,
{
    let l = spec_decode(code, lines, j, n)->Some_0;
    if j == code.len() {
        assert(code.subrange(j, code.len() as int) =~= Seq::<u8>::empty());
    } else {
        let op = opcode_of_byte(code[j]);
        let d: int = if op == OpCode::OP_CONSTANT {
            2
        } else {
            1
        };
        lemma_decode_encode_inverse(code, lines, j + d, n);
        let rest = spec_decode(code, lines, j + d, n)->Some_0;
        assert(l.drop_first() =~= rest);
        assert(byte_of_opcode(op) == code[j]);
        if op == OpCode::OP_CONSTANT {
            assert(code.subrange(j, code.len() as int) =~= seq![code[j], code[j + 1]]
                + code.subrange(j + 2, code.len() as int));
        } else {
            assert(code.subrange(j, code.len() as int) =~= seq![code[j]] + code.subrange(
                j + 1,
                code.len() as int,
            ));
        }
        assert(encode_instruction(l[0]) =~= code.subrange(j, j + d));
    }
}

/// A larger constant pool decodes everything a smaller one does.
pub proof fn lemma_decode_pool_grow(
    code: Seq<u8>,
    lines: Seq<usize>,
    j: int,
    n1: int,
    n2: int,
    l: Seq<Instruction>,
)
    requires
        n1 <= n2,
        0 <= j,
        spec_decode(code, lines, j, n1) == Some(l),
    ensures
        spec_decode(code, lines, j, n2) == Some(l),
    decreases code.len() - j,
{
    if j == code.len() {
    } else {
        let op = opcode_of_byte(code[j]);
        if op == OpCode::OP_CONSTANT {
            let rest = spec_decode(code, lines, j + 2, n1)->Some_0;
            lemma_decode_pool_grow(code, lines, j + 2, n1, n2, rest);
        } else {
            let rest = spec_decode(code, lines, j + 1, n1)->Some_0;
            lemma_decode_pool_grow(code, lines, j + 1, n1, n2, rest);
        }
    }
}

} // verus!
