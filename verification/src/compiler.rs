//! The compiler: single-pass precedence-climbing ("Pratt") parsing that
//! emits bytecode while it recognizes the expression grammar, with no
//! intermediate syntax tree.
//!
//! The grammar itself is a specification: `spec_pp` and `spec_infix` give
//! the token stream a parse accepts, the instructions and constants it
//! emits, and the diagnostic of the first fault of a stream it rejects.
//! `compile` is proved both ways against them — a chunk comes back exactly
//! for a well-formed source whose constants fit the pool, its code, lines
//! and pool are then exactly the source's emission, and a failing compile
//! returns exactly one diagnostic, pinned down for every kind of failure.
//! Besides that, every parse action keeps the chunk decodable (see
//! `debug::spec_decode`), the emitting actions say exactly which
//! instructions they append, and the error protocol is part of the
//! contracts: one diagnostic per error burst, sticky `had_error`, and a
//! chunk handed out only when nothing failed.

use vstd::prelude::*;
use vstd::string::StrSliceExecFns;
use vstd::string::StringSliceAdditionalSpecFns;

use crate::chunk::Chunk;
use crate::chunk::OpCode;
use crate::chunk::byte_of_opcode;
use crate::chunk::lemma_opcode_byte_round_trip;
use crate::debug::Instruction;
use crate::debug::encode_instructions;
use crate::debug::encode_lines;
use crate::debug::lemma_decode_concat;
use crate::debug::lemma_encode_decode;
use crate::debug::encode_instruction;
use crate::debug::encode_instruction_lines;
use crate::debug::instruction_wf;
use crate::debug::lemma_decode_append_at;
use crate::debug::lemma_decode_pool_grow;
use crate::debug::spec_decode;
use crate::number::is_number_lexeme;
use crate::number::num_of_lexeme;
use crate::number::num_parse;
use crate::scanner::Scanner;
use crate::scanner::Token;
use crate::scanner::TokenType;
use crate::scanner::clone_bytes;
use crate::scanner::lemma_spec_scan_progress;
use crate::scanner::spec_scan_token;
use crate::scanner::spec_skip;
use crate::value::Value;
use crate::vm::ExecOutcome;
use crate::vm::heights_profile;
use crate::vm::lemma_profile_concat;
use crate::vm::lemma_run_segment;
use crate::vm::spec_exec;
use crate::vm::spec_heights;

verus! {

/// The binding-precedence scale, weakest first. `Lowest` is the level of
/// tokens that bind nothing at all.
#[derive(Clone, Copy, Debug, PartialEq, Eq, Structural)]
pub enum Precedence {
    Lowest,
    Assignment,
    Or,
    And,
    Equality,
    Comparison,
    Term,
    Factor,
    Unary,
    Call,
    Primary,
}

/// The place of a precedence on the scale.
pub open spec fn spec_prec_idx(p: Precedence) -> int {
    match p {
        Precedence::Lowest => 0,
        Precedence::Assignment => 1,
        Precedence::Or => 2,
        Precedence::And => 3,
        Precedence::Equality => 4,
        Precedence::Comparison => 5,
        Precedence::Term => 6,
        Precedence::Factor => 7,
        Precedence::Unary => 8,
        Precedence::Call => 9,
        Precedence::Primary => 10,
    }
}

impl Precedence {
    fn idx(self) -> (r: u8)
        ensures
            r == spec_prec_idx(self),
    {
        match self {
            Precedence::Lowest => 0,
            Precedence::Assignment => 1,
            Precedence::Or => 2,
            Precedence::And => 3,
            Precedence::Equality => 4,
            Precedence::Comparison => 5,
            Precedence::Term => 6,
            Precedence::Factor => 7,
            Precedence::Unary => 8,
            Precedence::Call => 9,
            Precedence::Primary => 10,
        }
    }

    /// The next stronger level; binary operators parse their right operand
    /// one level above their own, which makes them left-associative.
    fn next(self) -> (r: Precedence)
        requires
            self != Precedence::Primary,
        ensures
            spec_prec_idx(r) == spec_prec_idx(self) + 1,
    {
        match self {
            Precedence::Lowest => Precedence::Assignment,
            Precedence::Assignment => Precedence::Or,
            Precedence::Or => Precedence::And,
            Precedence::And => Precedence::Equality,
            Precedence::Equality => Precedence::Comparison,
            Precedence::Comparison => Precedence::Term,
            Precedence::Term => Precedence::Factor,
            Precedence::Factor => Precedence::Unary,
            Precedence::Unary => Precedence::Call,
            Precedence::Call => Precedence::Primary,
            Precedence::Primary => Precedence::Primary,
        }
    }

    fn le(self, other: Precedence) -> (r: bool)
        ensures
            r == (spec_prec_idx(self) <= spec_prec_idx(other)),
    {
        self.idx() <= other.idx()
    }
}

/// The parse actions a token can trigger: how an expression may start with
/// it (prefix) and how it may continue one (infix).
#[derive(Clone, Copy, Debug, PartialEq, Eq, Structural)]
pub enum ParseFn {
    Grouping,
    Unary,
    Binary,
    Number,
    Literal,
}

#[derive(Clone, Copy, Debug, PartialEq, Eq, Structural)]
pub struct ParseRule {
    pub prefix: Option<ParseFn>,
    pub infix: Option<ParseFn>,
    pub precedence: Precedence,
}

/// The grammar table: for each token category, its optional prefix action,
/// its optional infix action, and its infix binding precedence.
pub open spec fn spec_get_rule(t: TokenType) -> ParseRule {
    match t {
        TokenType::LeftParen => ParseRule {
            prefix: Some(ParseFn::Grouping),
            infix: None,
            precedence: Precedence::Lowest,
        },
        TokenType::Minus => ParseRule {
            prefix: Some(ParseFn::Unary),
            infix: Some(ParseFn::Binary),
            precedence: Precedence::Term,
        },
        TokenType::Plus => ParseRule {
            prefix: None,
            infix: Some(ParseFn::Binary),
            precedence: Precedence::Term,
        },
        TokenType::Slash => ParseRule {
            prefix: None,
            infix: Some(ParseFn::Binary),
            precedence: Precedence::Factor,
        },
        TokenType::Star => ParseRule {
            prefix: None,
            infix: Some(ParseFn::Binary),
            precedence: Precedence::Factor,
        },
        TokenType::Bang => ParseRule {
            prefix: Some(ParseFn::Unary),
            infix: None,
            precedence: Precedence::Lowest,
        },
        TokenType::BangEqual => ParseRule {
            prefix: None,
            infix: Some(ParseFn::Binary),
            precedence: Precedence::Equality,
        },
        TokenType::EqualEqual => ParseRule {
            prefix: None,
            infix: Some(ParseFn::Binary),
            precedence: Precedence::Equality,
        },
        TokenType::Greater => ParseRule {
            prefix: None,
            infix: Some(ParseFn::Binary),
            precedence: Precedence::Comparison,
        },
        TokenType::GreaterEqual => ParseRule {
            prefix: None,
            infix: Some(ParseFn::Binary),
            precedence: Precedence::Comparison,
        },
        TokenType::Less => ParseRule {
            prefix: None,
            infix: Some(ParseFn::Binary),
            precedence: Precedence::Comparison,
        },
        TokenType::LessEqual => ParseRule {
            prefix: None,
            infix: Some(ParseFn::Binary),
            precedence: Precedence::Comparison,
        },
        TokenType::Number => ParseRule {
            prefix: Some(ParseFn::Number),
            infix: None,
            precedence: Precedence::Lowest,
        },
        TokenType::False => ParseRule {
            prefix: Some(ParseFn::Literal),
            infix: None,
            precedence: Precedence::Lowest,
        },
        TokenType::Nil => ParseRule {
            prefix: Some(ParseFn::Literal),
            infix: None,
            precedence: Precedence::Lowest,
        },
        TokenType::True => ParseRule {
            prefix: Some(ParseFn::Literal),
            infix: None,
            precedence: Precedence::Lowest,
        },
        _ => ParseRule { prefix: None, infix: None, precedence: Precedence::Lowest },
    }
}

/// Where a compile diagnostic points: at the end of the source, at a
/// token's lexeme, or nowhere (the token was itself an in-band error).
#[derive(Debug, PartialEq, Eq)]
pub enum ErrorContext {
    AtEnd,
    AtLexeme(Vec<u8>),
    Bare,
}

/// One compile error: the source line, where it points, and the message.
#[derive(Debug, PartialEq, Eq)]
pub struct Diagnostic {
    pub line: usize,
    pub context: ErrorContext,
    pub message: Vec<u8>,
}

/// The context a diagnostic for `t` must carry: `AtEnd` for the end of
/// input, nothing for an in-band error token, the lexeme otherwise.
pub open spec fn spec_context_matches(c: ErrorContext, t: Token) -> bool {
    match c {
        ErrorContext::AtEnd => t.token_type == TokenType::Eof,
        ErrorContext::Bare => t.token_type == TokenType::Error,
        ErrorContext::AtLexeme(v) => t.token_type != TokenType::Eof && t.token_type
            != TokenType::Error && v@ == t.lexeme@,
    }
}

/// The diagnostic that reporting an error at token `t` with message text
/// `msg` produces.
pub open spec fn spec_diag_for(d: Diagnostic, t: Token, msg: Seq<u8>) -> bool {
    &&& d.line == t.line
    &&& spec_context_matches(d.context, t)
    &&& d.message@ == msg
}

/// What a chunk's code currently decodes to (meaningful while
/// `chunk_decodes` holds).
pub open spec fn decoded(c: Chunk) -> Seq<Instruction> {
    spec_decode(c.code@, c.lines@, 0, c.constants.values@.len() as int)->Some_0
}

pub open spec fn chunk_decodes(c: Chunk) -> bool {
    spec_decode(c.code@, c.lines@, 0, c.constants.values@.len() as int) is Some
}

/// `post` begins with `pre`: things were only appended.
pub open spec fn seq_extends<T>(pre: Seq<T>, post: Seq<T>) -> bool {
    &&& pre.len() <= post.len()
    &&& forall|i: int| 0 <= i < pre.len() ==> post[i] == #[trigger] pre[i]
}

/// The code bytes a parse action laid down between two chunk states.
pub open spec fn emitted_code(pre: Chunk, post: Chunk) -> Seq<u8> {
    post.code@.subrange(pre.code@.len() as int, post.code@.len() as int)
}

/// The line entries laid down beside those bytes.
pub open spec fn emitted_lines(pre: Chunk, post: Chunk) -> Seq<usize> {
    post.lines@.subrange(pre.lines@.len() as int, post.lines@.len() as int)
}

/// What a parse action's emission is worth on the machine: the new bytes
/// decode as a segment of their own, and their height discipline closes
/// from any stack of `need` values, `net` values taller. An expression
/// emits with `need` 0 and `net` 1: one value on top of anything; an
/// infix operator with its right operand emits with `need` 1 and `net` 0.
pub open spec fn emits_segment(pre: Chunk, post: Chunk, need: int, net: int) -> bool {
    &&& seq_extends(pre.code@, post.code@)
    &&& seq_extends(pre.lines@, post.lines@)
    &&& post.code@.len() - pre.code@.len() == post.lines@.len() - pre.lines@.len()
    &&& crate::debug::spec_decode(
        emitted_code(pre, post),
        emitted_lines(pre, post),
        0,
        post.constants.values@.len() as int,
    ) is Some
    &&& heights_profile(emitted_code(pre, post), need, net)
}

/// How many stacked values each expression opcode needs, and how the
/// stack height changes past it.
pub open spec fn spec_op_need(op: OpCode) -> int {
    if op == OpCode::OP_NOT || op == OpCode::OP_NEGATE {
        1
    } else if op == OpCode::OP_EQUAL || op == OpCode::OP_GREATER || op == OpCode::OP_LESS || op
        == OpCode::OP_ADD || op == OpCode::OP_SUBTRACT || op == OpCode::OP_MULTIPLY || op
        == OpCode::OP_DIVIDE {
        2
    } else {
        0
    }
}

pub open spec fn spec_op_net(op: OpCode) -> int {
    if op == OpCode::OP_NOT || op == OpCode::OP_NEGATE {
        0
    } else if op == OpCode::OP_EQUAL || op == OpCode::OP_GREATER || op == OpCode::OP_LESS || op
        == OpCode::OP_ADD || op == OpCode::OP_SUBTRACT || op == OpCode::OP_MULTIPLY || op
        == OpCode::OP_DIVIDE {
        -1
    } else {
        1
    }
}

/// One appended instruction is a one-instruction segment.
proof fn lemma_emission_single(pre: Chunk, post: Chunk, instr: Instruction)
    requires
        post.code@ == pre.code@ + encode_instruction(instr),
        post.lines@ == pre.lines@ + encode_instruction_lines(instr),
        instruction_wf(instr, post.constants.values@.len() as int),
        instr.op != OpCode::OP_RETURN,
    ensures
        emits_segment(pre, post, spec_op_need(instr.op), spec_op_net(instr.op)),
{
    let n = post.constants.values@.len() as int;
    let seg = encode_instruction(instr);
    let segl = encode_instruction_lines(instr);
    assert(emitted_code(pre, post) =~= seg);
    assert(emitted_lines(pre, post) =~= segl);
    assert(seq![instr][0] == instr);
    lemma_encode_decode(seq![instr], n);
    assert(seq![instr].drop_first() =~= Seq::<Instruction>::empty());
    assert(encode_instructions(Seq::<Instruction>::empty()) == Seq::<u8>::empty());
    assert(encode_lines(Seq::<Instruction>::empty()) == Seq::<usize>::empty());
    assert(encode_instructions(seq![instr]) =~= seg);
    assert(encode_lines(seq![instr]) =~= segl);
    lemma_opcode_byte_round_trip(instr.op);
    assert(seg[0] == byte_of_opcode(instr.op));
    let need = spec_op_need(instr.op);
    let net = spec_op_net(instr.op);
    assert forall|h: int| h >= need implies spec_heights(seg, 0, h) == Some(h + net) by {
        if instr.op == OpCode::OP_CONSTANT {
            assert(seg.len() == 2);
            assert(spec_heights(seg, 2, h + 1) == Some(h + 1));
        } else {
            assert(seg.len() == 1);
            assert(spec_heights(seg, 1, h + net) == Some(h + net));
        }
    }
}

/// Segments chain: the closing height of the first must satisfy the need
/// of the second.
proof fn lemma_emits_chain(
    pre: Chunk,
    mid: Chunk,
    post: Chunk,
    need1: int,
    net1: int,
    need2: int,
    net2: int,
    need: int,
)
    requires
        emits_segment(pre, mid, need1, net1),
        emits_segment(mid, post, need2, net2),
        mid.constants.values@.len() <= post.constants.values@.len(),
        need >= need1,
        need + net1 >= need2,
    ensures
        emits_segment(pre, post, need, net1 + net2),
{
    let a = emitted_code(pre, mid);
    let al = emitted_lines(pre, mid);
    let b = emitted_code(mid, post);
    let bl = emitted_lines(mid, post);
    assert(emitted_code(pre, post) =~= a + b);
    assert(emitted_lines(pre, post) =~= al + bl);
    let n1 = mid.constants.values@.len() as int;
    let n2 = post.constants.values@.len() as int;
    lemma_decode_pool_grow(
        a,
        al,
        0,
        n1,
        n2,
        crate::debug::spec_decode(a, al, 0, n1)->Some_0,
    );
    lemma_decode_concat(a, al, b, bl, 0, n2);
    lemma_profile_concat(a, b, need1, net1, need2, net2, need);
}

/// The opcode a literal keyword emits.
pub open spec fn spec_literal_op(t: TokenType) -> OpCode {
    if t == TokenType::False {
        OpCode::OP_FALSE
    } else if t == TokenType::Nil {
        OpCode::OP_NIL
    } else if t == TokenType::True {
        OpCode::OP_TRUE
    } else {
        OpCode::UNKNOWN
    }
}

/// The opcode a unary operator emits after its operand.
pub open spec fn spec_unary_op(t: TokenType) -> OpCode {
    if t == TokenType::Bang {
        OpCode::OP_NOT
    } else if t == TokenType::Minus {
        OpCode::OP_NEGATE
    } else {
        OpCode::UNKNOWN
    }
}

/// The opcodes a binary operator emits after its right operand. The
/// operators without an opcode of their own are combinators: `!=` is
/// `EQUAL` then `NOT`, `>=` is `LESS` then `NOT`, `<=` is `GREATER` then
/// `NOT`.
pub open spec fn spec_binary_suffix(t: TokenType) -> Seq<OpCode> {
    if t == TokenType::BangEqual {
        seq![OpCode::OP_EQUAL, OpCode::OP_NOT]
    } else if t == TokenType::EqualEqual {
        seq![OpCode::OP_EQUAL]
    } else if t == TokenType::Greater {
        seq![OpCode::OP_GREATER]
    } else if t == TokenType::GreaterEqual {
        seq![OpCode::OP_LESS, OpCode::OP_NOT]
    } else if t == TokenType::Less {
        seq![OpCode::OP_LESS]
    } else if t == TokenType::LessEqual {
        seq![OpCode::OP_GREATER, OpCode::OP_NOT]
    } else if t == TokenType::Plus {
        seq![OpCode::OP_ADD]
    } else if t == TokenType::Minus {
        seq![OpCode::OP_SUBTRACT]
    } else if t == TokenType::Star {
        seq![OpCode::OP_MULTIPLY]
    } else if t == TokenType::Slash {
        seq![OpCode::OP_DIVIDE]
    } else {
        Seq::empty()
    }
}

/// The token categories `binary` accepts.
pub open spec fn is_binary_operator(t: TokenType) -> bool {
    spec_binary_suffix(t).len() > 0
}

/// The token stream as the parser sees it: a lookahead `t` (with its
/// lexeme where it matters) and the scanner standing at `(pos, line)` just
/// past it; `line` is also the lookahead's own line. `spec_scan_token`
/// scans the following token.
///
/// What is left to parse: the bytes past the scanner, plus one for a
/// lookahead that is not yet the end.
pub open spec fn stream_fuel(src: Seq<u8>, t: TokenType, pos: int) -> int {
    src.len() - pos + (if t == TokenType::Eof {
        0int
    } else {
        1int
    })
}

/// A scan step that moves the stream forward; the real scanner always
/// does (progress is part of `scan_token`'s contract), so the grammar
/// below loses nothing by treating a stalled walk as ill-formed.
pub open spec fn spec_step_down(
    src: Seq<u8>,
    t: TokenType,
    pos: int,
    nt: TokenType,
    npos: int,
) -> bool {
    &&& npos <= src.len()
    &&& stream_fuel(src, nt, npos) < stream_fuel(src, t, pos)
}

/// The instructions a binary operator emits after its right operand, on
/// the line of the operand's last token.
pub open spec fn spec_suffix_instrs(t: TokenType, line: int) -> Seq<Instruction> {
    spec_binary_suffix(t).map(
        |i: int, op: OpCode| Instruction { op, operand: None, line: line as usize },
    )
}

/// The expression grammar and its emission, as the precedence-climbing
/// parser accepts it: from lookahead `t` with lexeme `lex`, parse one
/// expression whose operators bind at least `min_prec`, with `consts` the
/// constant pool so far. The result carries: whether the stream is
/// well-formed, the lookahead and scanner state after the expression, the
/// line of the last consumed token, the instructions emitted, the pool
/// afterwards, and — for an ill-formed stream — the message and line of
/// the first diagnostic the parser reports. A stream that reaches an
/// in-band error token is ill-formed, with the scanner's message.
pub open spec fn spec_pp(
    src: Seq<u8>,
    t: TokenType,
    lex: Seq<u8>,
    pos: int,
    line: int,
    min_prec: int,
    consts: Seq<Value>,
) -> (bool, TokenType, int, int, int, Seq<Instruction>, Seq<Value>, (Seq<u8>, int))
    decreases stream_fuel(src, t, pos), 1int,
{
    let rule = spec_get_rule(t);
    let expect = ("Expect expression.".spec_bytes(), line);
    let n = spec_scan_token(src, pos, line);
    if n.0 == TokenType::Error {
        (false, t, pos, line, line, Seq::<Instruction>::empty(), consts, (n.1, n.3))
    } else {
        if rule.prefix is None {
            (false, t, pos, line, line, Seq::<Instruction>::empty(), consts, expect)
        } else if !spec_step_down(src, t, pos, n.0, n.2) {
            (false, t, pos, line, line, Seq::<Instruction>::empty(), consts, expect)
        } else {
            match rule.prefix->Some_0 {
                ParseFn::Number => {
                    let instr = Instruction {
                        op: OpCode::OP_CONSTANT,
                        operand: Some(consts.len() as u8),
                        line: line as usize,
                    };
                    let rest = spec_infix(
                        src,
                        n.0,
                        n.2,
                        n.3,
                        line,
                        min_prec,
                        consts.push(Value::Number(num_of_lexeme(lex))),
                    );
                    (rest.0, rest.1, rest.2, rest.3, rest.4, seq![instr] + rest.5, rest.6, rest.7)
                },
                ParseFn::Literal => {
                    let instr = Instruction {
                        op: spec_literal_op(t),
                        operand: None,
                        line: line as usize,
                    };
                    let rest = spec_infix(src, n.0, n.2, n.3, line, min_prec, consts);
                    (rest.0, rest.1, rest.2, rest.3, rest.4, seq![instr] + rest.5, rest.6, rest.7)
                },
                ParseFn::Unary => {
                    let inner = spec_pp(src, n.0, n.1, n.2, n.3, 8, consts);
                    if !inner.0 {
                        (false, inner.1, inner.2, inner.3, inner.4, inner.5, inner.6, inner.7)
                    } else if !(0 <= stream_fuel(src, inner.1, inner.2) <= stream_fuel(
                        src,
                        n.0,
                        n.2,
                    )) {
                        (false, t, pos, line, line, Seq::<Instruction>::empty(), consts, expect)
                    } else {
                        let instr = Instruction {
                            op: spec_unary_op(t),
                            operand: None,
                            line: inner.4 as usize,
                        };
                        let rest = spec_infix(
                            src,
                            inner.1,
                            inner.2,
                            inner.3,
                            inner.4,
                            min_prec,
                            inner.6,
                        );
                        (
                            rest.0,
                            rest.1,
                            rest.2,
                            rest.3,
                            rest.4,
                            inner.5 + seq![instr] + rest.5,
                            rest.6,
                            rest.7,
                        )
                    }
                },
                ParseFn::Grouping => {
                    let inner = spec_pp(src, n.0, n.1, n.2, n.3, 1, consts);
                    if !inner.0 {
                        (false, inner.1, inner.2, inner.3, inner.4, inner.5, inner.6, inner.7)
                    } else if inner.1 != TokenType::RightParen || !(0 <= stream_fuel(
                        src,
                        inner.1,
                        inner.2,
                    ) && stream_fuel(src, inner.1, inner.2) <= stream_fuel(src, n.0, n.2)) {
                        (
                            false,
                            inner.1,
                            inner.2,
                            inner.3,
                            inner.4,
                            inner.5,
                            inner.6,
                            ("Expect ')' after expression.".spec_bytes(), inner.3),
                        )
                    } else {
                        let n2 = spec_scan_token(src, inner.2, inner.3);
                        if n2.0 == TokenType::Error {
                            (
                                false,
                                inner.1,
                                inner.2,
                                inner.3,
                                inner.4,
                                inner.5,
                                inner.6,
                                (n2.1, n2.3),
                            )
                        } else if !spec_step_down(src, inner.1, inner.2, n2.0, n2.2) {
                            (
                                false,
                                inner.1,
                                inner.2,
                                inner.3,
                                inner.4,
                                inner.5,
                                inner.6,
                                ("Expect ')' after expression.".spec_bytes(), inner.3),
                            )
                        } else {
                            let rest = spec_infix(
                                src,
                                n2.0,
                                n2.2,
                                n2.3,
                                inner.3,
                                min_prec,
                                inner.6,
                            );
                            (
                                rest.0,
                                rest.1,
                                rest.2,
                                rest.3,
                                rest.4,
                                inner.5 + rest.5,
                                rest.6,
                                rest.7,
                            )
                        }
                    }
                },
                ParseFn::Binary => (
                    false,
                    t,
                    pos,
                    line,
                    line,
                    Seq::<Instruction>::empty(),
                    consts,
                    expect,
                ),
            }
        }
    }
}

/// The operator run of `spec_pp`: while the lookahead is an operator
/// binding at least `min_prec`, take it and its right operand, emitting
/// the operator's instructions after the operand's.
pub open spec fn spec_infix(
    src: Seq<u8>,
    t: TokenType,
    pos: int,
    line: int,
    prev_line: int,
    min_prec: int,
    consts: Seq<Value>,
) -> (bool, TokenType, int, int, int, Seq<Instruction>, Seq<Value>, (Seq<u8>, int))
    decreases stream_fuel(src, t, pos), 0int,
{
    let rule = spec_get_rule(t);
    let expect = ("Expect expression.".spec_bytes(), line);
    if spec_prec_idx(rule.precedence) < min_prec {
        if t == TokenType::Error {
            (false, t, pos, line, prev_line, Seq::<Instruction>::empty(), consts, expect)
        } else {
            (true, t, pos, line, prev_line, Seq::<Instruction>::empty(), consts, expect)
        }
    } else {
        let n = spec_scan_token(src, pos, line);
        if n.0 == TokenType::Error {
            (false, t, pos, line, prev_line, Seq::<Instruction>::empty(), consts, (n.1, n.3))
        } else if !spec_step_down(src, t, pos, n.0, n.2) {
            (false, t, pos, line, prev_line, Seq::<Instruction>::empty(), consts, expect)
        } else {
            let rhs = spec_pp(src, n.0, n.1, n.2, n.3, spec_prec_idx(rule.precedence) + 1, consts);
            if !rhs.0 {
                (false, rhs.1, rhs.2, rhs.3, rhs.4, rhs.5, rhs.6, rhs.7)
            } else if !(0 <= stream_fuel(src, rhs.1, rhs.2) && stream_fuel(src, rhs.1, rhs.2)
                < stream_fuel(src, t, pos)) {
                (false, t, pos, line, prev_line, Seq::<Instruction>::empty(), consts, expect)
            } else {
                let ops = spec_suffix_instrs(t, rhs.4);
                let rest = spec_infix(src, rhs.1, rhs.2, rhs.3, rhs.4, min_prec, rhs.6);
                (rest.0, rest.1, rest.2, rest.3, rest.4, rhs.5 + ops + rest.5, rest.6, rest.7)
            }
        }
    }
}

/// A well-formed source: its first token begins one expression that runs
/// exactly to the end of the input.
pub open spec fn spec_source_ok(src: Seq<u8>) -> bool {
    let n0 = spec_scan_token(src, 0, 1);
    let r = spec_pp(src, n0.0, n0.1, n0.2, n0.3, 1, Seq::<Value>::empty());
    &&& r.0
    &&& r.1 == TokenType::Eof
}

/// The constant pool compiling a well-formed source builds.
pub open spec fn spec_source_pool(src: Seq<u8>) -> Seq<Value> {
    let n0 = spec_scan_token(src, 0, 1);
    spec_pp(src, n0.0, n0.1, n0.2, n0.3, 1, Seq::<Value>::empty()).6
}

/// The instructions compiling a well-formed source emits: the expression's
/// own, then the terminating return on the line of the end of input.
pub open spec fn spec_source_emission(src: Seq<u8>) -> Seq<Instruction> {
    let n0 = spec_scan_token(src, 0, 1);
    let r = spec_pp(src, n0.0, n0.1, n0.2, n0.3, 1, Seq::<Value>::empty());
    r.5.push(Instruction { op: OpCode::OP_RETURN, operand: None, line: r.3 as usize })
}

/// Parsing only ever adds constants: the pool in a well-formed result
/// extends the pool handed in.
pub proof fn lemma_spec_counts_monotone(
    src: Seq<u8>,
    t: TokenType,
    lex: Seq<u8>,
    pos: int,
    line: int,
    prev_line: int,
    min_prec: int,
    consts: Seq<Value>,
)
    ensures
        spec_pp(src, t, lex, pos, line, min_prec, consts).6.len() >= consts.len(),
        spec_infix(src, t, pos, line, prev_line, min_prec, consts).6.len() >= consts.len(),
    decreases stream_fuel(src, t, pos),
{
    let rule = spec_get_rule(t);
    let n = spec_scan_token(src, pos, line);
    // the expression side
    if rule.prefix is Some && spec_step_down(src, t, pos, n.0, n.2) {
        match rule.prefix->Some_0 {
            ParseFn::Number => {
                lemma_spec_counts_monotone(
                    src,
                    n.0,
                    n.1,
                    n.2,
                    n.3,
                    line,
                    min_prec,
                    consts.push(Value::Number(num_of_lexeme(lex))),
                );
            },
            ParseFn::Literal => {
                lemma_spec_counts_monotone(src, n.0, n.1, n.2, n.3, line, min_prec, consts);
            },
            ParseFn::Unary => {
                lemma_spec_counts_monotone(src, n.0, n.1, n.2, n.3, line, 8, consts);
                let inner = spec_pp(src, n.0, n.1, n.2, n.3, 8, consts);
                if inner.0 && 0 <= stream_fuel(src, inner.1, inner.2) <= stream_fuel(
                    src,
                    n.0,
                    n.2,
                ) {
                    lemma_spec_counts_monotone(
                        src,
                        inner.1,
                        Seq::<u8>::empty(),
                        inner.2,
                        inner.3,
                        inner.4,
                        min_prec,
                        inner.6,
                    );
                }
            },
            ParseFn::Grouping => {
                lemma_spec_counts_monotone(src, n.0, n.1, n.2, n.3, line, 1, consts);
                let inner = spec_pp(src, n.0, n.1, n.2, n.3, 1, consts);
                if inner.0 && inner.1 == TokenType::RightParen && 0 <= stream_fuel(
                    src,
                    inner.1,
                    inner.2,
                ) && stream_fuel(src, inner.1, inner.2) <= stream_fuel(src, n.0, n.2) {
                    let n2 = spec_scan_token(src, inner.2, inner.3);
                    if spec_step_down(src, inner.1, inner.2, n2.0, n2.2) {
                        lemma_spec_counts_monotone(
                            src,
                            n2.0,
                            n2.1,
                            n2.2,
                            n2.3,
                            inner.3,
                            min_prec,
                            inner.6,
                        );
                    }
                }
            },
            ParseFn::Binary => {},
        }
    }
    // the operator side
    if spec_prec_idx(rule.precedence) >= min_prec && spec_step_down(src, t, pos, n.0, n.2) {
        lemma_spec_counts_monotone(
            src,
            n.0,
            n.1,
            n.2,
            n.3,
            line,
            spec_prec_idx(rule.precedence) + 1,
            consts,
        );
        let rhs = spec_pp(src, n.0, n.1, n.2, n.3, spec_prec_idx(rule.precedence) + 1, consts);
        if rhs.0 && 0 <= stream_fuel(src, rhs.1, rhs.2) && stream_fuel(src, rhs.1, rhs.2)
            < stream_fuel(src, t, pos) {
            lemma_spec_counts_monotone(
                src,
                rhs.1,
                Seq::<u8>::empty(),
                rhs.2,
                rhs.3,
                rhs.4,
                min_prec,
                rhs.6,
            );
        }
    }
}

/// A well-formed parse stays inside the source and never gains fuel.
pub proof fn lemma_spec_fuel_bounds(
    src: Seq<u8>,
    t: TokenType,
    lex: Seq<u8>,
    pos: int,
    line: int,
    prev_line: int,
    min_prec: int,
    consts: Seq<Value>,
)
    requires
        0 <= pos <= src.len(),
    ensures
        ({
            let r = spec_pp(src, t, lex, pos, line, min_prec, consts);
            r.0 ==> 0 <= r.2 <= src.len() && stream_fuel(src, r.1, r.2) <= stream_fuel(src, t, pos)
        }),
        ({
            let r = spec_infix(src, t, pos, line, prev_line, min_prec, consts);
            r.0 ==> 0 <= r.2 <= src.len() && stream_fuel(src, r.1, r.2) <= stream_fuel(src, t, pos)
        }),
    decreases stream_fuel(src, t, pos),
{
    let rule = spec_get_rule(t);
    let n = spec_scan_token(src, pos, line);
    if rule.prefix is Some && spec_step_down(src, t, pos, n.0, n.2) {
        assert(0 <= n.2 <= src.len());
        match rule.prefix->Some_0 {
            ParseFn::Number => {
                lemma_spec_fuel_bounds(
                    src,
                    n.0,
                    n.1,
                    n.2,
                    n.3,
                    line,
                    min_prec,
                    consts.push(Value::Number(num_of_lexeme(lex))),
                );
            },
            ParseFn::Literal => {
                lemma_spec_fuel_bounds(src, n.0, n.1, n.2, n.3, line, min_prec, consts);
            },
            ParseFn::Unary => {
                let inner = spec_pp(src, n.0, n.1, n.2, n.3, 8, consts);
                if inner.0 && 0 <= stream_fuel(src, inner.1, inner.2) <= stream_fuel(
                    src,
                    n.0,
                    n.2,
                ) {
                    lemma_spec_fuel_bounds(src, n.0, n.1, n.2, n.3, line, 8, consts);
                    lemma_spec_fuel_bounds(
                        src,
                        inner.1,
                        Seq::<u8>::empty(),
                        inner.2,
                        inner.3,
                        inner.4,
                        min_prec,
                        inner.6,
                    );
                }
            },
            ParseFn::Grouping => {
                let inner = spec_pp(src, n.0, n.1, n.2, n.3, 1, consts);
                if inner.0 && inner.1 == TokenType::RightParen && 0 <= stream_fuel(
                    src,
                    inner.1,
                    inner.2,
                ) && stream_fuel(src, inner.1, inner.2) <= stream_fuel(src, n.0, n.2) {
                    lemma_spec_fuel_bounds(src, n.0, n.1, n.2, n.3, line, 1, consts);
                    let n2 = spec_scan_token(src, inner.2, inner.3);
                    if spec_step_down(src, inner.1, inner.2, n2.0, n2.2) {
                        lemma_spec_fuel_bounds(
                            src,
                            n2.0,
                            n2.1,
                            n2.2,
                            n2.3,
                            inner.3,
                            min_prec,
                            inner.6,
                        );
                    }
                }
            },
            ParseFn::Binary => {},
        }
    }
    if spec_prec_idx(rule.precedence) >= min_prec && spec_step_down(src, t, pos, n.0, n.2) {
        let rhs = spec_pp(src, n.0, n.1, n.2, n.3, spec_prec_idx(rule.precedence) + 1, consts);
        if rhs.0 && 0 <= stream_fuel(src, rhs.1, rhs.2) && stream_fuel(src, rhs.1, rhs.2)
            < stream_fuel(src, t, pos) {
            lemma_spec_fuel_bounds(
                src,
                n.0,
                n.1,
                n.2,
                n.3,
                line,
                spec_prec_idx(rule.precedence) + 1,
                consts,
            );
            lemma_spec_fuel_bounds(
                src,
                rhs.1,
                Seq::<u8>::empty(),
                rhs.2,
                rhs.3,
                rhs.4,
                min_prec,
                rhs.6,
            );
        }
    }
}

pub struct Compiler {
    pub scanner: Scanner,
    pub current_chunk: Chunk,
    pub current: Token,
    pub previous: Token,
    pub had_error: bool,
    pub panic_mode: bool,
    pub diagnostics: Vec<Diagnostic>,
}

impl Compiler {
    /// The parser's invariant: a sound scanner position, lookahead tokens
    /// consistent with it, a well-formed chunk whose code decodes into
    /// whole instructions, and an error flag that mirrors the diagnostics.
    pub open spec fn wf(self) -> bool {
        &&& self.scanner.wf()
        &&& (self.current.token_type == TokenType::Eof ==> self.scanner.current
            == self.scanner.source@.len())
        &&& (self.current.token_type == TokenType::Number ==> is_number_lexeme(
            self.current.lexeme@,
        ))
        &&& (self.previous.token_type == TokenType::Number ==> is_number_lexeme(
            self.previous.lexeme@,
        ))
        &&& self.current.line == self.scanner.line
        &&& self.current_chunk.wf()
        &&& chunk_decodes(self.current_chunk)
        &&& self.current_chunk.lines@ == encode_lines(decoded(self.current_chunk))
        &&& (self.had_error <==> self.diagnostics@.len() > 0)
        &&& (self.panic_mode <==> self.had_error)
        &&& self.diagnostics@.len() <= 1
    }

    /// How much input is left to consume: the scanner's remaining bytes,
    /// plus one for a lookahead token that is not yet the end. Every parse
    /// action consumes fuel or leaves it alone; recursion strictly shrinks
    /// it.
    pub open spec fn fuel(self) -> int {
        self.scanner.source@.len() - self.scanner.current + (
        if self.current.token_type == TokenType::Eof {
            0int
        } else {
            1int
        })
    }

    /// What every parse action promises besides its own effect: the source
    /// stands still, fuel does not grow, diagnostics and instructions are
    /// only appended, and errors are sticky.
    pub open spec fn parse_step(pre: Compiler, post: Compiler) -> bool {
        &&& post.scanner.source == pre.scanner.source
        &&& post.fuel() <= pre.fuel()
        &&& seq_extends(pre.diagnostics@, post.diagnostics@)
        &&& (pre.had_error ==> post.had_error)
        &&& seq_extends(decoded(pre.current_chunk), decoded(post.current_chunk))
        &&& seq_extends(
            pre.current_chunk.constants.values@,
            post.current_chunk.constants.values@,
        )
    }

    pub fn new(scanner: Scanner, chunk: Chunk) -> (c: Compiler)
        requires
            scanner.wf(),
            chunk.code@ == Seq::<u8>::empty(),
            chunk.lines@ == Seq::<usize>::empty(),
            chunk.constants.values@ == Seq::<Value>::empty(),
        ensures
            c.wf(),
            c.scanner == scanner,
            c.current_chunk == chunk,
            !c.had_error,
            c.diagnostics@ == Seq::<Diagnostic>::empty(),
            c.current.token_type != TokenType::Eof,
            c.fuel() == scanner.source@.len() - scanner.current + 1,
    {
        let placeholder_line = scanner.line;
        let mut placeholder = Token::none();
        placeholder.line = placeholder_line;
        let c = Compiler {
            scanner,
            current_chunk: chunk,
            current: placeholder,
            previous: Token::none(),
            had_error: false,
            panic_mode: false,
            diagnostics: Vec::new(),
        };
        proof {
            assert(spec_decode(c.current_chunk.code@, c.current_chunk.lines@, 0, 0) == Some(
                Seq::<Instruction>::empty(),
            ));
            assert(encode_lines(Seq::<Instruction>::empty()) == Seq::<usize>::empty());
        }
        c
    }

    pub fn get_rule(t: TokenType) -> (r: ParseRule)
        ensures
            r == spec_get_rule(t),
    {
        match t {
            TokenType::LeftParen => ParseRule {
                prefix: Some(ParseFn::Grouping),
                infix: None,
                precedence: Precedence::Lowest,
            },
            TokenType::Minus => ParseRule {
                prefix: Some(ParseFn::Unary),
                infix: Some(ParseFn::Binary),
                precedence: Precedence::Term,
            },
            TokenType::Plus => ParseRule {
                prefix: None,
                infix: Some(ParseFn::Binary),
                precedence: Precedence::Term,
            },
            TokenType::Slash => ParseRule {
                prefix: None,
                infix: Some(ParseFn::Binary),
                precedence: Precedence::Factor,
            },
            TokenType::Star => ParseRule {
                prefix: None,
                infix: Some(ParseFn::Binary),
                precedence: Precedence::Factor,
            },
            TokenType::Bang => ParseRule {
                prefix: Some(ParseFn::Unary),
                infix: None,
                precedence: Precedence::Lowest,
            },
            TokenType::BangEqual => ParseRule {
                prefix: None,
                infix: Some(ParseFn::Binary),
                precedence: Precedence::Equality,
            },
            TokenType::EqualEqual => ParseRule {
                prefix: None,
                infix: Some(ParseFn::Binary),
                precedence: Precedence::Equality,
            },
            TokenType::Greater => ParseRule {
                prefix: None,
                infix: Some(ParseFn::Binary),
                precedence: Precedence::Comparison,
            },
            TokenType::GreaterEqual => ParseRule {
                prefix: None,
                infix: Some(ParseFn::Binary),
                precedence: Precedence::Comparison,
            },
            TokenType::Less => ParseRule {
                prefix: None,
                infix: Some(ParseFn::Binary),
                precedence: Precedence::Comparison,
            },
            TokenType::LessEqual => ParseRule {
                prefix: None,
                infix: Some(ParseFn::Binary),
                precedence: Precedence::Comparison,
            },
            TokenType::Number => ParseRule {
                prefix: Some(ParseFn::Number),
                infix: None,
                precedence: Precedence::Lowest,
            },
            TokenType::False => ParseRule {
                prefix: Some(ParseFn::Literal),
                infix: None,
                precedence: Precedence::Lowest,
            },
            TokenType::Nil => ParseRule {
                prefix: Some(ParseFn::Literal),
                infix: None,
                precedence: Precedence::Lowest,
            },
            TokenType::True => ParseRule {
                prefix: Some(ParseFn::Literal),
                infix: None,
                precedence: Precedence::Lowest,
            },
            _ => ParseRule { prefix: None, infix: None, precedence: Precedence::Lowest },
        }
    }

    /// The context piece of a diagnostic for this token.
    fn context_for(t: &Token) -> (c: ErrorContext)
        ensures
            spec_context_matches(c, *t),
    {
        if t.token_type == TokenType::Eof {
            ErrorContext::AtEnd
        } else if t.token_type == TokenType::Error {
            ErrorContext::Bare
        } else {
            ErrorContext::AtLexeme(clone_bytes(&t.lexeme))
        }
    }

    /// Records one diagnostic, unless an error burst is already being
    /// suppressed; either way the sticky flags are set afterwards.
    fn report(&mut self, line: usize, context: ErrorContext, message: Vec<u8>)
        requires
            old(self).panic_mode ==> old(self).had_error,
        ensures
            final(self).scanner == old(self).scanner,
            final(self).current == old(self).current,
            final(self).previous == old(self).previous,
            final(self).current_chunk == old(self).current_chunk,
            final(self).panic_mode,
            final(self).had_error,
            old(self).panic_mode ==> *final(self) == *old(self),
            !old(self).panic_mode ==> final(self).diagnostics@ == old(self).diagnostics@.push(
                Diagnostic { line, context, message },
            ),
            old(self).panic_mode ==> final(self).diagnostics == old(self).diagnostics,
    {
        if self.panic_mode {
            return ;
        }
        self.panic_mode = true;
        self.had_error = true;
        self.diagnostics.push(Diagnostic { line, context, message });
    }

    /// An error at the token just consumed.
    fn error(&mut self, message: &str)
        requires
            old(self).panic_mode ==> old(self).had_error,
        ensures
            final(self).scanner == old(self).scanner,
            final(self).current == old(self).current,
            final(self).previous == old(self).previous,
            final(self).current_chunk == old(self).current_chunk,
            final(self).panic_mode,
            final(self).had_error,
            old(self).panic_mode ==> final(self).diagnostics == old(self).diagnostics,
            !old(self).panic_mode ==> final(self).diagnostics@.len() == old(
                self,
            ).diagnostics@.len() + 1 && spec_diag_for(
                final(self).diagnostics@.last(),
                old(self).previous,
                message.spec_bytes(),
            ),
            seq_extends(old(self).diagnostics@, final(self).diagnostics@),
    {
        let line = self.previous.line;
        let context = Self::context_for(&self.previous);
        let msg = message.as_bytes_vec();
        self.report(line, context, msg);
    }

    /// An error at the lookahead token.
    fn error_at_current(&mut self, message: &str)
        requires
            old(self).panic_mode ==> old(self).had_error,
        ensures
            final(self).scanner == old(self).scanner,
            final(self).current == old(self).current,
            final(self).previous == old(self).previous,
            final(self).current_chunk == old(self).current_chunk,
            final(self).panic_mode,
            final(self).had_error,
            old(self).panic_mode ==> final(self).diagnostics == old(self).diagnostics,
            !old(self).panic_mode ==> final(self).diagnostics@.len() == old(
                self,
            ).diagnostics@.len() + 1 && spec_diag_for(
                final(self).diagnostics@.last(),
                old(self).current,
                message.spec_bytes(),
            ),
            seq_extends(old(self).diagnostics@, final(self).diagnostics@),
    {
        let line = self.current.line;
        let context = Self::context_for(&self.current);
        let msg = message.as_bytes_vec();
        self.report(line, context, msg);
    }

    /// Moves the lookahead forward, reporting and skipping any in-band
    /// error tokens the scanner hands over.
    pub fn advance(&mut self)
        requires
            old(self).wf(),
        ensures
            final(self).wf(),
            Self::parse_step(*old(self), *final(self)),
            final(self).current_chunk == old(self).current_chunk,
            final(self).previous == old(self).current,
            final(self).current.token_type != TokenType::Error,
            old(self).current.token_type != TokenType::Eof ==> final(self).fuel() < old(
                self,
            ).fuel(),
            old(self).panic_mode ==> final(self).diagnostics == old(self).diagnostics,
            ({
                // the lookahead becomes exactly the next scanned token
                let n = spec_scan_token(
                    old(self).scanner.source@,
                    old(self).scanner.current as int,
                    old(self).scanner.line as int,
                );
                &&& (n.0 != TokenType::Error ==> final(self).current.token_type == n.0
                    && final(self).current.lexeme@ == n.1
                    && final(self).scanner.current as int == n.2
                    && final(self).scanner.line as int == n.3
                    && final(self).current.line as int == n.3
                    && final(self).diagnostics == old(self).diagnostics
                    && final(self).panic_mode == old(self).panic_mode
                    && final(self).had_error == old(self).had_error)
                &&& (n.0 == TokenType::Error ==> final(self).panic_mode && final(self).had_error)
                &&& (n.0 == TokenType::Error && !old(self).panic_mode
                    ==> final(self).diagnostics@.len() == old(self).diagnostics@.len() + 1
                    && final(self).diagnostics@.last().line as int == n.3
                    && final(self).diagnostics@.last().context == ErrorContext::Bare
                    && final(self).diagnostics@.last().message@ == n.1)
            }),
    {
        core::mem::swap(&mut self.previous, &mut self.current);
        let token = self.scanner.scan_token();
        if !(token.token_type == TokenType::Error) {
            self.current = token;
            return ;
        }
        let ghost n = spec_scan_token(
            old(self).scanner.source@,
            old(self).scanner.current as int,
            old(self).scanner.line as int,
        );
        let line = token.line;
        let msg = token.lexeme;
        self.report(line, ErrorContext::Bare, msg);
        loop
            invariant
                n == spec_scan_token(
                    old(self).scanner.source@,
                    old(self).scanner.current as int,
                    old(self).scanner.line as int,
                ),
                !old(self).panic_mode ==> self.diagnostics@.last().line as int == n.3
                    && self.diagnostics@.last().context == ErrorContext::Bare
                    && self.diagnostics@.last().message@ == n.1,
                self.scanner.wf(),
                self.scanner.source == old(self).scanner.source,
                self.scanner.current >= old(self).scanner.current,
                self.current_chunk == old(self).current_chunk,
                self.previous == old(self).current,
                self.current_chunk.wf(),
                chunk_decodes(self.current_chunk),
                (self.had_error <==> self.diagnostics@.len() > 0),
                (self.panic_mode ==> self.had_error),
                old(self).had_error ==> self.had_error,
                old(self).panic_mode ==> self.panic_mode,
                seq_extends(old(self).diagnostics@, self.diagnostics@),
                old(self).panic_mode ==> self.diagnostics == old(self).diagnostics,
                old(self).wf(),
                self.panic_mode,
                self.had_error,
                !old(self).panic_mode ==> self.diagnostics@.len() == old(self).diagnostics@.len()
                    + 1,
            ensures
                self.current.token_type != TokenType::Error,
                self.current.line == self.scanner.line,
                self.current.token_type == TokenType::Eof ==> self.scanner.current
                    == self.scanner.source@.len(),
                self.current.token_type == TokenType::Number ==> is_number_lexeme(
                    self.current.lexeme@,
                ),
                self.current.token_type != TokenType::Eof ==> self.scanner.current > old(
                    self,
                ).scanner.current,
            decreases self.scanner.source@.len() - self.scanner.current,
        {
            let token = self.scanner.scan_token();
            if !(token.token_type == TokenType::Error) {
                self.current = token;
                break ;
            }
            let line = token.line;
            let msg = token.lexeme;
            self.report(line, ErrorContext::Bare, msg);
        }
        proof {
            if old(self).current.token_type != TokenType::Eof {
                if self.current.token_type == TokenType::Eof {
                    assert(self.fuel() == 0);
                    assert(old(self).fuel() >= 1);
                }
            }
        }
    }

    /// Consumes the lookahead if it has the wanted category, else reports
    /// the given message at it.
    pub fn consume(&mut self, token_type: TokenType, message: &str)
        requires
            old(self).wf(),
        ensures
            final(self).wf(),
            Self::parse_step(*old(self), *final(self)),
            final(self).current_chunk == old(self).current_chunk,
            old(self).current.token_type != token_type ==> final(self).had_error,
            old(self).current.token_type != token_type && !old(self).panic_mode
                ==> final(self).diagnostics@.len() == old(self).diagnostics@.len() + 1
                && spec_diag_for(
                final(self).diagnostics@.last(),
                old(self).current,
                message.spec_bytes(),
            ),
            old(self).current.token_type != token_type && old(self).panic_mode
                ==> final(self).diagnostics == old(self).diagnostics,
            old(self).current.token_type != token_type ==> final(self).current == old(
                self,
            ).current,
            old(self).current.token_type == token_type ==> final(self).previous == old(
                self,
            ).current && final(self).current.token_type != TokenType::Error,
            ({
                let n = spec_scan_token(
                    old(self).scanner.source@,
                    old(self).scanner.current as int,
                    old(self).scanner.line as int,
                );
                &&& (old(self).current.token_type == token_type && n.0 == TokenType::Error
                    ==> final(self).had_error)
                &&& (old(self).current.token_type == token_type && n.0 == TokenType::Error && !old(
                    self,
                ).panic_mode ==> final(self).diagnostics@.len() == old(self).diagnostics@.len() + 1
                    && final(self).diagnostics@.last().message@ == n.1
                    && final(self).diagnostics@.last().line as int == n.3
                    && final(self).diagnostics@.last().context == ErrorContext::Bare)
                &&& old(self).current.token_type == token_type && n.0 != TokenType::Error
                    ==> final(self).current.token_type == n.0
                    && final(self).scanner.current as int == n.2
                    && final(self).scanner.line as int == n.3
                    && final(self).had_error == old(self).had_error
                    && final(self).panic_mode == old(self).panic_mode
                    && final(self).diagnostics == old(self).diagnostics
                    && final(self).current_chunk == old(self).current_chunk
            }),
    {
        if self.current.token_type == token_type {
            self.advance();
            return ;
        }
        self.error_at_current(message);
    }

    /// Appends one operand-less instruction, at the line of the token just
    /// consumed.
    fn emit_op(&mut self, op: OpCode)
        requires
            old(self).wf(),
            op != OpCode::UNKNOWN,
            op != OpCode::OP_CONSTANT,
        ensures
            final(self).wf(),
            final(self).scanner == old(self).scanner,
            final(self).current == old(self).current,
            final(self).previous == old(self).previous,
            final(self).had_error == old(self).had_error,
            final(self).panic_mode == old(self).panic_mode,
            final(self).diagnostics == old(self).diagnostics,
            final(self).current_chunk.constants == old(self).current_chunk.constants,
            decoded(final(self).current_chunk) == decoded(old(self).current_chunk).push(
                Instruction { op, operand: None, line: old(self).previous.line },
            ),
            final(self).current_chunk.code@.len() == old(self).current_chunk.code@.len() + 1,
            final(self).current_chunk.code@ == old(self).current_chunk.code@ + encode_instruction(
                (Instruction { op, operand: None, line: old(self).previous.line }),
            ),
            final(self).current_chunk.lines@ == old(self).current_chunk.lines@
                + encode_instruction_lines(
                (Instruction { op, operand: None, line: old(self).previous.line }),
            ),
            op != OpCode::OP_RETURN ==> emits_segment(
                old(self).current_chunk,
                final(self).current_chunk,
                spec_op_need(op),
                spec_op_net(op),
            ),
    {
        let line = self.previous.line;
        let byte = op.to_byte();
        let ghost pre = self.current_chunk;
        let ghost instr = Instruction { op, operand: None, line };
        self.current_chunk.write(byte, line);
        proof {
            let n = pre.constants.values@.len() as int;
            lemma_decode_append_at(pre.code@, pre.lines@, 0, n, decoded(pre), instr);
            assert(pre.code@ + encode_instruction(instr) =~= self.current_chunk.code@);
            assert(pre.lines@ + encode_instruction_lines(instr) =~= self.current_chunk.lines@);
            crate::debug::lemma_encode_lines_push(decoded(pre), instr);
            if op != OpCode::OP_RETURN {
                lemma_emission_single(pre, self.current_chunk, instr);
            }
        }
    }

    /// Adds a value to the constant pool and returns its index; a full
    /// pool is the compile error "Too many constants in one chunk.", and
    /// index zero stands in so compilation can go on.
    fn make_constant(&mut self, value: Value) -> (index: u8)
        requires
            old(self).wf(),
        ensures
            final(self).wf(),
            final(self).scanner == old(self).scanner,
            final(self).current == old(self).current,
            final(self).previous == old(self).previous,
            final(self).current_chunk.code == old(self).current_chunk.code,
            final(self).current_chunk.lines == old(self).current_chunk.lines,
            seq_extends(old(self).diagnostics@, final(self).diagnostics@),
            old(self).had_error ==> final(self).had_error,
            final(self).panic_mode ==> final(self).had_error,
            seq_extends(
                old(self).current_chunk.constants.values@,
                final(self).current_chunk.constants.values@,
            ),
            decoded(final(self).current_chunk) == decoded(old(self).current_chunk),
            index < 256,
            old(self).current_chunk.constants.values@.len() < 256 ==> {
                &&& final(self).current_chunk.constants.values@ == old(
                    self,
                ).current_chunk.constants.values@.push(value)
                &&& index == old(self).current_chunk.constants.values@.len()
                &&& final(self).had_error == old(self).had_error
                &&& final(self).diagnostics == old(self).diagnostics
                &&& final(self).panic_mode == old(self).panic_mode
            },
            old(self).current_chunk.constants.values@.len() >= 256 ==> {
                &&& final(self).current_chunk.constants == old(self).current_chunk.constants
                &&& index == 0
                &&& final(self).had_error
                &&& (!old(self).panic_mode ==> final(self).diagnostics@.len() == old(
                    self,
                ).diagnostics@.len() + 1 && spec_diag_for(
                    final(self).diagnostics@.last(),
                    old(self).previous,
                    "Too many constants in one chunk.".spec_bytes(),
                ))
            },
            index < final(self).current_chunk.constants.values@.len(),
    {
        if self.current_chunk.constants.values.len() >= 256 {
            self.error("Too many constants in one chunk.");
            return 0;
        }
        let ghost pre = self.current_chunk;
        let index = self.current_chunk.add_constant(value);
        proof {
            let c = self.current_chunk;
            lemma_decode_pool_grow(
                c.code@,
                c.lines@,
                0,
                pre.constants.values@.len() as int,
                c.constants.values@.len() as int,
                decoded(pre),
            );
        }
        index
    }

    /// Emits a `CONSTANT` instruction loading `value` (or constant zero
    /// after a pool-overflow error).
    fn emit_constant(&mut self, value: Value)
        requires
            old(self).wf(),
        ensures
            final(self).wf(),
            final(self).scanner == old(self).scanner,
            final(self).current == old(self).current,
            final(self).previous == old(self).previous,
            seq_extends(old(self).diagnostics@, final(self).diagnostics@),
            old(self).had_error ==> final(self).had_error,
            seq_extends(
                old(self).current_chunk.constants.values@,
                final(self).current_chunk.constants.values@,
            ),
            old(self).current_chunk.constants.values@.len() < 256 ==> {
                &&& final(self).current_chunk.constants.values@ == old(
                    self,
                ).current_chunk.constants.values@.push(value)
                &&& decoded(final(self).current_chunk) == decoded(old(self).current_chunk).push(
                    Instruction {
                        op: OpCode::OP_CONSTANT,
                        operand: Some(old(self).current_chunk.constants.values@.len() as u8),
                        line: old(self).previous.line,
                    },
                )
                &&& final(self).had_error == old(self).had_error
                &&& final(self).diagnostics == old(self).diagnostics
            },
            old(self).current_chunk.constants.values@.len() >= 256 ==> {
                &&& final(self).current_chunk.constants == old(self).current_chunk.constants
                &&& decoded(final(self).current_chunk) == decoded(old(self).current_chunk).push(
                    Instruction {
                        op: OpCode::OP_CONSTANT,
                        operand: Some(0u8),
                        line: old(self).previous.line,
                    },
                )
                &&& final(self).had_error
                &&& (!old(self).panic_mode ==> final(self).diagnostics@.len() == old(
                    self,
                ).diagnostics@.len() + 1 && spec_diag_for(
                    final(self).diagnostics@.last(),
                    old(self).previous,
                    "Too many constants in one chunk.".spec_bytes(),
                ))
            },
            seq_extends(decoded(old(self).current_chunk), decoded(final(self).current_chunk)),
            emits_segment(old(self).current_chunk, final(self).current_chunk, 0, 1),
    {
        let index = self.make_constant(value);
        let line = self.previous.line;
        let ghost pre = self.current_chunk;
        let ghost instr = Instruction { op: OpCode::OP_CONSTANT, operand: Some(index), line };
        let opbyte = OpCode::OP_CONSTANT.to_byte();
        self.current_chunk.write(opbyte, line);
        self.current_chunk.write(index, line);
        proof {
            let n = pre.constants.values@.len() as int;
            assert(instruction_wf(instr, n));
            lemma_decode_append_at(pre.code@, pre.lines@, 0, n, decoded(pre), instr);
            assert(pre.code@ + encode_instruction(instr) =~= self.current_chunk.code@);
            assert(pre.lines@ + encode_instruction_lines(instr) =~= self.current_chunk.lines@);
            crate::debug::lemma_encode_lines_push(decoded(pre), instr);
            lemma_emission_single(pre, self.current_chunk, instr);
            assert(emitted_code(old(self).current_chunk, self.current_chunk) =~= emitted_code(
                pre,
                self.current_chunk,
            ));
            assert(emitted_lines(old(self).current_chunk, self.current_chunk) =~= emitted_lines(
                pre,
                self.current_chunk,
            ));
        }
    }

    /// Emits the two-opcode combinator of a derived comparison: the
    /// primitive comparison, then `NOT`.
    fn emit_combinator(&mut self, cmp: OpCode)
        requires
            old(self).wf(),
            cmp == OpCode::OP_EQUAL || cmp == OpCode::OP_GREATER || cmp == OpCode::OP_LESS,
        ensures
            final(self).wf(),
            final(self).scanner == old(self).scanner,
            final(self).current == old(self).current,
            final(self).previous == old(self).previous,
            final(self).had_error == old(self).had_error,
            final(self).panic_mode == old(self).panic_mode,
            final(self).diagnostics == old(self).diagnostics,
            final(self).current_chunk.constants == old(self).current_chunk.constants,
            decoded(final(self).current_chunk) == decoded(old(self).current_chunk).push(
                Instruction { op: cmp, operand: None, line: old(self).previous.line },
            ).push(
                Instruction { op: OpCode::OP_NOT, operand: None, line: old(self).previous.line },
            ),
            emits_segment(old(self).current_chunk, final(self).current_chunk, 2, -1),
    {
        self.emit_op(cmp);
        let ghost mid = *self;
        self.emit_op(OpCode::OP_NOT);
        proof {
            lemma_emits_chain(
                old(self).current_chunk,
                mid.current_chunk,
                self.current_chunk,
                2,
                -1,
                1,
                0,
                2,
            );
        }
    }

    fn emit_return(&mut self)
        requires
            old(self).wf(),
        ensures
            final(self).wf(),
            final(self).scanner == old(self).scanner,
            final(self).current == old(self).current,
            final(self).previous == old(self).previous,
            final(self).had_error == old(self).had_error,
            final(self).diagnostics == old(self).diagnostics,
            final(self).current_chunk.constants == old(self).current_chunk.constants,
            decoded(final(self).current_chunk) == decoded(old(self).current_chunk).push(
                Instruction {
                    op: OpCode::OP_RETURN,
                    operand: None,
                    line: old(self).previous.line,
                },
            ),
            final(self).current_chunk.code@ == old(self).current_chunk.code@.push(
                byte_of_opcode(OpCode::OP_RETURN),
            ),
            final(self).current_chunk.lines@ == old(self).current_chunk.lines@.push(
                old(self).previous.line,
            ),
    {
        let ghost pre = self.current_chunk;
        self.emit_op(OpCode::OP_RETURN);
        proof {
            assert(self.current_chunk.code@ =~= pre.code@.push(byte_of_opcode(OpCode::OP_RETURN)));
            assert(self.current_chunk.lines@ =~= pre.lines@.push(old(self).previous.line));
        }
    }

    /// Finishes the chunk with the terminating `RETURN`.
    pub fn end_compiler(&mut self)
        requires
            old(self).wf(),
        ensures
            final(self).wf(),
            final(self).scanner == old(self).scanner,
            final(self).had_error == old(self).had_error,
            final(self).diagnostics == old(self).diagnostics,
            decoded(final(self).current_chunk) == decoded(old(self).current_chunk).push(
                Instruction {
                    op: OpCode::OP_RETURN,
                    operand: None,
                    line: old(self).previous.line,
                },
            ),
            final(self).current_chunk.constants == old(self).current_chunk.constants,
            final(self).current_chunk.code@ == old(self).current_chunk.code@.push(
                byte_of_opcode(OpCode::OP_RETURN),
            ),
            final(self).current_chunk.lines@ == old(self).current_chunk.lines@.push(
                old(self).previous.line,
            ),
            old(self).had_error ==> final(self).had_error,
    {
        self.emit_return();
    }

    /// The prefix action for a number literal: its lexeme, a run of digits
    /// with an optional fraction, becomes a constant.
    pub fn number(&mut self)
        requires
            old(self).wf(),
            old(self).previous.token_type == TokenType::Number,
        ensures
            final(self).wf(),
            Self::parse_step(*old(self), *final(self)),
            final(self).current == old(self).current,
            final(self).previous == old(self).previous,
            final(self).scanner == old(self).scanner,
            old(self).current_chunk.constants.values@.len() < 256 ==> {
                &&& final(self).current_chunk.constants.values@ == old(
                    self,
                ).current_chunk.constants.values@.push(
                    Value::Number(num_of_lexeme(old(self).previous.lexeme@)),
                )
                &&& decoded(final(self).current_chunk) == decoded(old(self).current_chunk).push(
                    Instruction {
                        op: OpCode::OP_CONSTANT,
                        operand: Some(old(self).current_chunk.constants.values@.len() as u8),
                        line: old(self).previous.line,
                    },
                )
                &&& final(self).had_error == old(self).had_error
            },
            old(self).current_chunk.constants.values@.len() >= 256 ==> final(self).had_error,
            old(self).current_chunk.constants.values@.len() >= 256 && !old(self).panic_mode
                ==> final(self).diagnostics@.len() == old(self).diagnostics@.len() + 1
                && spec_diag_for(
                final(self).diagnostics@.last(),
                old(self).previous,
                "Too many constants in one chunk.".spec_bytes(),
            ),
            emits_segment(old(self).current_chunk, final(self).current_chunk, 0, 1),
    {
        let bits_opt = num_parse(self.previous.lexeme.as_slice());
        let bits = match bits_opt {
            Some(b) => b,
            None => { vstd::pervasive::unreached() },
        };
        self.emit_constant(Value::Number(bits));
    }

    /// The prefix action for `nil`, `true` and `false`: one opcode, no
    /// constant-pool entry.
    pub fn literal(&mut self)
        requires
            old(self).wf(),
            old(self).previous.token_type == TokenType::False || old(self).previous.token_type
                == TokenType::Nil || old(self).previous.token_type == TokenType::True,
        ensures
            final(self).wf(),
            Self::parse_step(*old(self), *final(self)),
            final(self).current == old(self).current,
            final(self).previous == old(self).previous,
            final(self).scanner == old(self).scanner,
            final(self).had_error == old(self).had_error,
            final(self).diagnostics == old(self).diagnostics,
            final(self).current_chunk.constants == old(self).current_chunk.constants,
            decoded(final(self).current_chunk) == decoded(old(self).current_chunk).push(
                Instruction {
                    op: spec_literal_op(old(self).previous.token_type),
                    operand: None,
                    line: old(self).previous.line,
                },
            ),
            emits_segment(old(self).current_chunk, final(self).current_chunk, 0, 1),
    {
        match self.previous.token_type {
            TokenType::False => self.emit_op(OpCode::OP_FALSE),
            TokenType::Nil => self.emit_op(OpCode::OP_NIL),
            _ => self.emit_op(OpCode::OP_TRUE),
        }
    }

    /// The prefix action for `(`: the inner expression, then the `)`.
    pub fn grouping(&mut self)
        requires
            old(self).wf(),
        ensures
            final(self).wf(),
            Self::parse_step(*old(self), *final(self)),
            !final(self).had_error ==> emits_segment(
                old(self).current_chunk,
                final(self).current_chunk,
                0,
                1,
            ),
            final(self).current.token_type != TokenType::Error
                || old(self).current.token_type == TokenType::Error,
            ({
                let src = old(self).scanner.source@;
                let inner = spec_pp(
                    src,
                    old(self).current.token_type,
                    old(self).current.lexeme@,
                    old(self).scanner.current as int,
                    old(self).scanner.line as int,
                    1,
                    old(self).current_chunk.constants.values@,
                );
                let n2 = spec_scan_token(src, inner.2, inner.3);
                &&& (!old(self).had_error && inner.0 && inner.1 == TokenType::RightParen && n2.0
                    != TokenType::Error && inner.6.len() <= 256 ==> !final(self).had_error
                    && final(self).current.token_type == n2.0
                    && final(self).scanner.current as int == n2.2
                    && final(self).scanner.line as int == n2.3
                    && final(self).previous.line as int == inner.3
                    && decoded(final(self).current_chunk) == decoded(old(self).current_chunk)
                        + inner.5
                    && final(self).current_chunk.constants.values@ == inner.6)
                &&& (!old(self).had_error && !final(self).had_error ==> inner.0 && inner.1
                    == TokenType::RightParen && n2.0 != TokenType::Error
                    && final(self).current_chunk.constants.values@ == inner.6)
                &&& (!old(self).had_error && !inner.0 && inner.6.len() <= 256
                    ==> final(self).had_error
                    && final(self).diagnostics@.len() == old(self).diagnostics@.len() + 1
                    && final(self).diagnostics@.last().message@ == inner.7.0
                    && final(self).diagnostics@.last().line as int == inner.7.1)
                &&& (!old(self).had_error && inner.0 && inner.6.len() <= 256 && inner.1
                    != TokenType::RightParen ==> final(self).had_error
                    && final(self).diagnostics@.len() == old(self).diagnostics@.len() + 1
                    && final(self).diagnostics@.last().message@
                    == "Expect ')' after expression.".spec_bytes()
                    && final(self).diagnostics@.last().line as int == inner.3)
                &&& (!old(self).had_error && inner.0 && inner.6.len() <= 256 && inner.1
                    == TokenType::RightParen && n2.0 == TokenType::Error ==> final(self).had_error
                    && final(self).diagnostics@.len() == old(self).diagnostics@.len() + 1
                    && final(self).diagnostics@.last().message@ == n2.1
                    && final(self).diagnostics@.last().line as int == n2.3)
                &&& (!old(self).had_error && inner.6.len() > 256 ==> final(self).had_error
                    && final(self).diagnostics@.len() == old(self).diagnostics@.len() + 1
                    && final(self).diagnostics@.last().message@
                    == "Too many constants in one chunk.".spec_bytes())
            }),
        decreases old(self).fuel(), 2int,
    {
        self.expression();
        let ghost mid = *self;
        self.consume(TokenType::RightParen, "Expect ')' after expression.");
        proof {
            assert(self.current_chunk == mid.current_chunk);
        }
    }

    /// The prefix action for `!` and unary `-`: the operand at `Unary`
    /// precedence, then the matching opcode.
    pub fn unary(&mut self)
        requires
            old(self).wf(),
            old(self).previous.token_type == TokenType::Bang || old(self).previous.token_type
                == TokenType::Minus,
        ensures
            final(self).wf(),
            Self::parse_step(*old(self), *final(self)),
            decoded(final(self).current_chunk).len() >= 1,
            decoded(final(self).current_chunk).last() == (Instruction {
                op: spec_unary_op(old(self).previous.token_type),
                operand: None,
                line: final(self).previous.line,
            }),
            !final(self).had_error ==> emits_segment(
                old(self).current_chunk,
                final(self).current_chunk,
                0,
                1,
            ),
            final(self).current.token_type != TokenType::Error
                || old(self).current.token_type == TokenType::Error,
            ({
                let r = spec_pp(
                    old(self).scanner.source@,
                    old(self).current.token_type,
                    old(self).current.lexeme@,
                    old(self).scanner.current as int,
                    old(self).scanner.line as int,
                    8,
                    old(self).current_chunk.constants.values@,
                );
                &&& (!old(self).had_error && r.0 && r.6.len() <= 256 ==> !final(self).had_error
                    && final(self).current.token_type == r.1
                    && final(self).scanner.current as int == r.2
                    && final(self).scanner.line as int == r.3
                    && final(self).previous.line as int == r.4
                    && decoded(final(self).current_chunk) == decoded(old(self).current_chunk) + r.5
                        + seq![(Instruction {
                        op: spec_unary_op(old(self).previous.token_type),
                        operand: None,
                        line: (r.4 as usize),
                    })]
                    && final(self).current_chunk.constants.values@ == r.6)
                &&& (!old(self).had_error && !final(self).had_error ==> r.0
                    && final(self).current_chunk.constants.values@ == r.6)
                &&& (!old(self).had_error && !r.0 && r.6.len() <= 256
                    ==> final(self).had_error
                    && final(self).diagnostics@.len() == old(self).diagnostics@.len() + 1
                    && final(self).diagnostics@.last().message@ == r.7.0
                    && final(self).diagnostics@.last().line as int == r.7.1)
                &&& (!old(self).had_error && r.6.len() > 256 ==> final(self).had_error
                    && final(self).diagnostics@.len() == old(self).diagnostics@.len() + 1
                    && final(self).diagnostics@.last().message@
                    == "Too many constants in one chunk.".spec_bytes())
            }),
        decreases old(self).fuel(), 2int,
    {
        let operator_type = self.previous.token_type;
        self.parse_precedence(Precedence::Unary);
        let ghost mid = *self;
        match operator_type {
            TokenType::Bang => self.emit_op(OpCode::OP_NOT),
            _ => self.emit_op(OpCode::OP_NEGATE),
        }
        proof {
            if !self.had_error {
                lemma_emits_chain(
                    old(self).current_chunk,
                    mid.current_chunk,
                    self.current_chunk,
                    0,
                    1,
                    1,
                    0,
                    0,
                );
            }
        }
    }

    /// The infix action for the ten binary operators: the right operand at
    /// one level above the operator's own (left-associativity), then the
    /// operator's opcodes — a combinator of two for `!=`, `>=` and `<=`.
    pub fn binary(&mut self)
        requires
            old(self).wf(),
            is_binary_operator(old(self).previous.token_type),
        ensures
            final(self).wf(),
            Self::parse_step(*old(self), *final(self)),
            ({
                let d = decoded(final(self).current_chunk);
                let sfx = spec_binary_suffix(old(self).previous.token_type);
                &&& d.len() >= sfx.len()
                &&& forall|k: int|
                    0 <= k < sfx.len() ==> d[d.len() - sfx.len() + k] == Instruction {
                        op: sfx[k],
                        operand: None,
                        line: final(self).previous.line,
                    }
            }),
            !final(self).had_error ==> emits_segment(
                old(self).current_chunk,
                final(self).current_chunk,
                1,
                0,
            ),
            final(self).current.token_type != TokenType::Error
                || old(self).current.token_type == TokenType::Error,
            ({
                let r = spec_pp(
                    old(self).scanner.source@,
                    old(self).current.token_type,
                    old(self).current.lexeme@,
                    old(self).scanner.current as int,
                    old(self).scanner.line as int,
                    spec_prec_idx(spec_get_rule(old(self).previous.token_type).precedence) + 1,
                    old(self).current_chunk.constants.values@,
                );
                &&& (!old(self).had_error && r.0 && r.6.len() <= 256 ==> !final(self).had_error
                    && final(self).current.token_type == r.1
                    && final(self).scanner.current as int == r.2
                    && final(self).scanner.line as int == r.3
                    && final(self).previous.line as int == r.4
                    && decoded(final(self).current_chunk) == decoded(old(self).current_chunk) + r.5
                        + spec_suffix_instrs(old(self).previous.token_type, r.4)
                    && final(self).current_chunk.constants.values@ == r.6)
                &&& (!old(self).had_error && !final(self).had_error ==> r.0
                    && final(self).current_chunk.constants.values@ == r.6)
                &&& (!old(self).had_error && !r.0 && r.6.len() <= 256
                    ==> final(self).had_error
                    && final(self).diagnostics@.len() == old(self).diagnostics@.len() + 1
                    && final(self).diagnostics@.last().message@ == r.7.0
                    && final(self).diagnostics@.last().line as int == r.7.1)
                &&& (!old(self).had_error && r.6.len() > 256 ==> final(self).had_error
                    && final(self).diagnostics@.len() == old(self).diagnostics@.len() + 1
                    && final(self).diagnostics@.last().message@
                    == "Too many constants in one chunk.".spec_bytes())
            }),
        decreases old(self).fuel(), 2int,
    {
        let operator_type = self.previous.token_type;
        let rule = Self::get_rule(operator_type);
        self.parse_precedence(rule.precedence.next());
        let ghost mid = *self;
        match operator_type {
            TokenType::BangEqual => self.emit_combinator(OpCode::OP_EQUAL),
            TokenType::EqualEqual => self.emit_op(OpCode::OP_EQUAL),
            TokenType::Greater => self.emit_op(OpCode::OP_GREATER),
            TokenType::GreaterEqual => self.emit_combinator(OpCode::OP_LESS),
            TokenType::Less => self.emit_op(OpCode::OP_LESS),
            TokenType::LessEqual => self.emit_combinator(OpCode::OP_GREATER),
            TokenType::Plus => self.emit_op(OpCode::OP_ADD),
            TokenType::Minus => self.emit_op(OpCode::OP_SUBTRACT),
            TokenType::Star => self.emit_op(OpCode::OP_MULTIPLY),
            _ => self.emit_op(OpCode::OP_DIVIDE),
        }
        proof {
            if !self.had_error {
                lemma_emits_chain(
                    old(self).current_chunk,
                    mid.current_chunk,
                    self.current_chunk,
                    0,
                    1,
                    2,
                    -1,
                    1,
                );
            }
        }
    }

    /// The heart of the parser: consume one token and run its prefix
    /// action (or report "Expect expression."), then keep consuming
    /// operators whose binding precedence is at least `precedence`,
    /// running their infix actions.
    #[verifier::rlimit(100)]
    pub fn parse_precedence(&mut self, precedence: Precedence)
        requires
            old(self).wf(),
            spec_prec_idx(precedence) >= 1,
        ensures
            final(self).wf(),
            Self::parse_step(*old(self), *final(self)),
            !final(self).had_error ==> emits_segment(
                old(self).current_chunk,
                final(self).current_chunk,
                0,
                1,
            ),
            !final(self).had_error ==> spec_prec_idx(
                spec_get_rule(final(self).current.token_type).precedence,
            ) < spec_prec_idx(precedence),
            final(self).current.token_type != TokenType::Error,
            ({
                // a token that cannot begin an expression is reported as
                // "Expect expression." at that token, and nothing is emitted
                let n = spec_scan_token(
                    old(self).scanner.source@,
                    old(self).scanner.current as int,
                    old(self).scanner.line as int,
                );
                !old(self).had_error && n.0 != TokenType::Error && spec_get_rule(
                    old(self).current.token_type,
                ).prefix is None ==> final(self).had_error && final(self).current_chunk == old(
                    self,
                ).current_chunk && final(self).diagnostics@.len() == old(self).diagnostics@.len()
                    + 1 && spec_diag_for(
                    final(self).diagnostics@.last(),
                    old(self).current,
                    "Expect expression.".spec_bytes(),
                )
            }),
            ({
                let r = spec_pp(
                    old(self).scanner.source@,
                    old(self).current.token_type,
                    old(self).current.lexeme@,
                    old(self).scanner.current as int,
                    old(self).scanner.line as int,
                    spec_prec_idx(precedence),
                    old(self).current_chunk.constants.values@,
                );
                &&& (!old(self).had_error && r.0 && r.6.len() <= 256 ==> !final(self).had_error
                    && final(self).current.token_type == r.1
                    && final(self).scanner.current as int == r.2
                    && final(self).scanner.line as int == r.3
                    && final(self).previous.line as int == r.4
                    && decoded(final(self).current_chunk) == decoded(old(self).current_chunk) + r.5
                    && final(self).current_chunk.constants.values@ == r.6)
                &&& (!old(self).had_error && !final(self).had_error ==> r.0
                    && final(self).current_chunk.constants.values@ == r.6)
                &&& (!old(self).had_error && !r.0 && r.6.len() <= 256
                    ==> final(self).had_error
                    && final(self).diagnostics@.len() == old(self).diagnostics@.len() + 1
                    && final(self).diagnostics@.last().message@ == r.7.0
                    && final(self).diagnostics@.last().line as int == r.7.1)
                &&& (!old(self).had_error && r.6.len() > 256 ==> final(self).had_error
                    && final(self).diagnostics@.len() == old(self).diagnostics@.len() + 1
                    && final(self).diagnostics@.last().message@
                    == "Too many constants in one chunk.".spec_bytes())
            }),
        decreases old(self).fuel(), 0int,
    {
        let ghost src = old(self).scanner.source@;
        let ghost t0 = old(self).current.token_type;
        let ghost lex0 = old(self).current.lexeme@;
        let ghost p0 = old(self).scanner.current as int;
        let ghost l0 = old(self).scanner.line as int;
        let ghost cs0 = old(self).current_chunk.constants.values@;
        let ghost mp = spec_prec_idx(precedence);
        let ghost rr = spec_pp(src, t0, lex0, p0, l0, mp, cs0);
        let ghost nn = spec_scan_token(src, p0, l0);
        let ghost gg = !old(self).had_error && rr.0 && rr.6.len() <= 256;
        self.advance();
        proof {
            if gg {
                assert(spec_get_rule(t0).prefix is Some);
                assert(spec_step_down(src, t0, p0, nn.0, nn.2));
                if nn.0 == TokenType::Error {
                    match spec_get_rule(t0).prefix->Some_0 {
                        ParseFn::Number => {
                            assert(!spec_infix(
                                src,
                                nn.0,
                                nn.2,
                                nn.3,
                                l0,
                                mp,
                                cs0.push(Value::Number(num_of_lexeme(lex0))),
                            ).0);
                        },
                        ParseFn::Literal => {
                            assert(!spec_infix(src, nn.0, nn.2, nn.3, l0, mp, cs0).0);
                        },
                        ParseFn::Unary => {
                            assert(!spec_pp(src, nn.0, nn.1, nn.2, nn.3, 8, cs0).0);
                        },
                        ParseFn::Grouping => {
                            assert(!spec_pp(src, nn.0, nn.1, nn.2, nn.3, 1, cs0).0);
                        },
                        ParseFn::Binary => {},
                    }
                    assert(false);
                }
                assert(self.current.token_type == nn.0);
                assert(self.current.lexeme@ == nn.1);
                assert(self.scanner.current as int == nn.2);
                assert(self.scanner.line as int == nn.3);
                assert(self.previous.line as int == l0);
            }
            if !self.had_error {
                assert(nn.0 != TokenType::Error);
                assert(self.current.token_type == nn.0);
                assert(self.current.lexeme@ == nn.1);
                assert(self.scanner.current as int == nn.2);
                assert(self.scanner.line as int == nn.3);
                assert(self.previous.line as int == l0);
                lemma_spec_scan_progress(src, p0, l0);
            }
        }
        let ghost adv = *self;
        let prefix_opt = Self::get_rule(self.previous.token_type).prefix;
        let prefix = match prefix_opt {
            None => {
                self.error("Expect expression.");
                proof {
                    if !old(self).had_error {
                        if nn.0 == TokenType::Error {
                            // the scanner's error was already reported by the
                            // advance; this error is suppressed
                            assert(rr.7 == (nn.1, nn.3));
                        } else {
                            assert(rr.7 == ("Expect expression.".spec_bytes(), l0));
                            assert(self.diagnostics@.last().line as int == l0);
                        }
                    }
                }
                return ;
            },
            Some(p) => p,
        };
        proof {
            assert(self.previous.token_type != TokenType::Eof);
            assert(self.fuel() < old(self).fuel());
        }
        match prefix {
            ParseFn::Grouping => {
                self.grouping();
                proof {
                    if gg {
                        let inner = spec_pp(src, nn.0, nn.1, nn.2, nn.3, 1, cs0);
                        let n2 = spec_scan_token(src, inner.2, inner.3);
                        assert(inner.0 && inner.1 == TokenType::RightParen);
                        assert(spec_step_down(src, inner.1, inner.2, n2.0, n2.2));
                        if n2.0 == TokenType::Error {
                            assert(!spec_infix(src, n2.0, n2.2, n2.3, inner.3, mp, inner.6).0);
                            assert(false);
                        }
                        lemma_spec_counts_monotone(
                            src,
                            n2.0,
                            n2.1,
                            n2.2,
                            n2.3,
                            inner.3,
                            mp,
                            inner.6,
                        );
                    }
                    if !self.had_error {
                        let inner = spec_pp(src, nn.0, nn.1, nn.2, nn.3, 1, cs0);
                        let n2 = spec_scan_token(src, inner.2, inner.3);
                        assert(inner.0 && inner.1 == TokenType::RightParen && n2.0
                            != TokenType::Error);
                        assert(self.current_chunk.constants.values@ == inner.6);
                        assert(inner.6.len() <= 256);
                        lemma_spec_fuel_bounds(src, nn.0, nn.1, nn.2, nn.3, l0, 1, cs0);
                        lemma_spec_scan_progress(src, inner.2, inner.3);
                        assert(spec_step_down(src, inner.1, inner.2, n2.0, n2.2));
                    }
                    if !old(self).had_error && self.had_error && !rr.0 && rr.6.len() <= 256
                        && nn.0 != TokenType::Error {
                        let inner = spec_pp(src, nn.0, nn.1, nn.2, nn.3, 1, cs0);
                        let n2 = spec_scan_token(src, inner.2, inner.3);
                        if inner.0 && inner.6.len() <= 256 {
                            lemma_spec_fuel_bounds(src, nn.0, nn.1, nn.2, nn.3, l0, 1, cs0);
                            lemma_spec_scan_progress(src, inner.2, inner.3);
                        } else if inner.0 {
                            lemma_spec_counts_monotone(
                                src,
                                n2.0,
                                n2.1,
                                n2.2,
                                n2.3,
                                inner.3,
                                mp,
                                inner.6,
                            );
                        }
                    }
                    if !old(self).had_error && self.had_error && rr.6.len() > 256 && nn.0
                        != TokenType::Error {
                        let inner = spec_pp(src, nn.0, nn.1, nn.2, nn.3, 1, cs0);
                        let n2 = spec_scan_token(src, inner.2, inner.3);
                        if inner.0 && inner.6.len() <= 256 {
                            lemma_spec_fuel_bounds(src, nn.0, nn.1, nn.2, nn.3, l0, 1, cs0);
                            lemma_spec_scan_progress(src, inner.2, inner.3);
                            lemma_spec_counts_monotone(
                                src,
                                n2.0,
                                n2.1,
                                n2.2,
                                n2.3,
                                inner.3,
                                mp,
                                inner.6,
                            );
                        }
                    }
                }
            },
            ParseFn::Unary => {
                self.unary();
                proof {
                    if gg {
                        let inner = spec_pp(src, nn.0, nn.1, nn.2, nn.3, 8, cs0);
                        assert(inner.0);
                        lemma_spec_counts_monotone(
                            src,
                            inner.1,
                            Seq::<u8>::empty(),
                            inner.2,
                            inner.3,
                            inner.4,
                            mp,
                            inner.6,
                        );
                    }
                    if !self.had_error {
                        let inner = spec_pp(src, nn.0, nn.1, nn.2, nn.3, 8, cs0);
                        assert(inner.0);
                        assert(self.current_chunk.constants.values@ == inner.6);
                        assert(inner.6.len() <= 256);
                        lemma_spec_fuel_bounds(src, nn.0, nn.1, nn.2, nn.3, l0, 8, cs0);
                    }
                    if !old(self).had_error && self.had_error && !rr.0 && rr.6.len() <= 256
                        && nn.0 != TokenType::Error {
                        let inner = spec_pp(src, nn.0, nn.1, nn.2, nn.3, 8, cs0);
                        if inner.0 {
                            lemma_spec_fuel_bounds(src, nn.0, nn.1, nn.2, nn.3, l0, 8, cs0);
                            let rest = spec_infix(
                                src,
                                inner.1,
                                inner.2,
                                inner.3,
                                inner.4,
                                mp,
                                inner.6,
                            );
                            lemma_spec_counts_monotone(
                                src,
                                inner.1,
                                Seq::<u8>::empty(),
                                inner.2,
                                inner.3,
                                inner.4,
                                mp,
                                inner.6,
                            );
                        }
                    }
                    if !old(self).had_error && self.had_error && rr.6.len() > 256 && nn.0
                        != TokenType::Error {
                        let inner = spec_pp(src, nn.0, nn.1, nn.2, nn.3, 8, cs0);
                        if inner.0 && inner.6.len() <= 256 {
                            lemma_spec_fuel_bounds(src, nn.0, nn.1, nn.2, nn.3, l0, 8, cs0);
                            lemma_spec_counts_monotone(
                                src,
                                inner.1,
                                Seq::<u8>::empty(),
                                inner.2,
                                inner.3,
                                inner.4,
                                mp,
                                inner.6,
                            );
                        }
                    }
                }
            },
            ParseFn::Number => {
                self.number();
                proof {
                    if gg {
                        lemma_spec_counts_monotone(
                            src,
                            nn.0,
                            nn.1,
                            nn.2,
                            nn.3,
                            l0,
                            mp,
                            cs0.push(Value::Number(num_of_lexeme(lex0))),
                        );
                        assert(cs0.len() < 256);
                    }
                    if !self.had_error {
                        assert(cs0.len() < 256);
                        assert(self.current_chunk.constants.values@ == cs0.push(
                            Value::Number(num_of_lexeme(lex0)),
                        ));
                    }
                    if !old(self).had_error && self.had_error && nn.0 != TokenType::Error {
                        // a number literal fails only by overflowing the pool
                        assert(cs0.len() >= 256);
                        lemma_spec_counts_monotone(
                            src,
                            nn.0,
                            nn.1,
                            nn.2,
                            nn.3,
                            l0,
                            mp,
                            cs0.push(Value::Number(num_of_lexeme(lex0))),
                        );
                        assert(rr.6.len() > 256);
                    }
                }
            },
            ParseFn::Literal => self.literal(),
            ParseFn::Binary => {
                proof {
                    assert(false);
                }
            },
        }
        proof {
            if !old(self).had_error && nn.0 == TokenType::Error {
                // the scanner's in-band error was reported by the advance and
                // stays the only diagnostic
                assert(rr.7 == (nn.1, nn.3));
                assert(adv.diagnostics@.len() == old(self).diagnostics@.len() + 1);
                assert(self.diagnostics@.len() == 1);
                assert(self.diagnostics@[0] == adv.diagnostics@[0]);
                assert(self.diagnostics@.last() == adv.diagnostics@.last());
                assert(rr.6 == cs0 && cs0.len() <= 256);
            }
        }
        while precedence.le(Self::get_rule(self.current.token_type).precedence)
            invariant
                spec_prec_idx(precedence) >= 1,
                self.wf(),
                Self::parse_step(*old(self), *self),
                self.fuel() < old(self).fuel(),
                !self.had_error ==> emits_segment(
                    old(self).current_chunk,
                    self.current_chunk,
                    0,
                    1,
                ),
                src == old(self).scanner.source@,
                self.scanner.source@ == src,
                mp == spec_prec_idx(precedence),
                rr == spec_pp(
                    src,
                    old(self).current.token_type,
                    old(self).current.lexeme@,
                    old(self).scanner.current as int,
                    old(self).scanner.line as int,
                    mp,
                    old(self).current_chunk.constants.values@,
                ),
                gg == (!old(self).had_error && rr.0 && rr.6.len() <= 256),
                gg ==> !self.had_error && ({
                    let rest = spec_infix(
                        src,
                        self.current.token_type,
                        self.scanner.current as int,
                        self.scanner.line as int,
                        self.previous.line as int,
                        mp,
                        self.current_chunk.constants.values@,
                    );
                    &&& rest == (true, rr.1, rr.2, rr.3, rr.4, rest.5, rr.6, rest.7)
                    &&& decoded(self.current_chunk) + rest.5 == decoded(old(self).current_chunk)
                        + rr.5
                }),
                self.current.token_type != TokenType::Error,
                !self.had_error ==> ({
                    let rest = spec_infix(
                        src,
                        self.current.token_type,
                        self.scanner.current as int,
                        self.scanner.line as int,
                        self.previous.line as int,
                        mp,
                        self.current_chunk.constants.values@,
                    );
                    rr.0 == rest.0 && rr.6 == rest.6 && rr.7 == rest.7
                }),
                !old(self).had_error && self.had_error && !rr.0 && rr.6.len() <= 256
                    ==> self.diagnostics@.len() == old(self).diagnostics@.len() + 1
                    && self.diagnostics@.last().message@ == rr.7.0
                    && self.diagnostics@.last().line as int == rr.7.1,
                !old(self).had_error && self.had_error && rr.6.len() > 256
                    ==> self.diagnostics@.len() == old(self).diagnostics@.len() + 1
                    && self.diagnostics@.last().message@
                    == "Too many constants in one chunk.".spec_bytes(),
            decreases self.fuel(),
        {
            let ghost had0 = self.had_error;
            let ghost diags0 = self.diagnostics@;
            let ghost ct = self.current.token_type;
            let ghost cp = self.scanner.current as int;
            let ghost cl = self.scanner.line as int;
            let ghost cpl = self.previous.line as int;
            let ghost ccs = self.current_chunk.constants.values@;
            let ghost n1 = spec_scan_token(src, cp, cl);
            let ghost rhs_prec = spec_prec_idx(spec_get_rule(ct).precedence) + 1;
            let ghost dpre = decoded(self.current_chunk);
            proof {
                assert(spec_get_rule(self.current.token_type).infix == Some(ParseFn::Binary));
                assert(self.current.token_type != TokenType::Eof);
                if gg {
                    assert(spec_step_down(src, ct, cp, n1.0, n1.2));
                    if n1.0 == TokenType::Error {
                        assert(!spec_pp(src, n1.0, n1.1, n1.2, n1.3, rhs_prec, ccs).0);
                        assert(false);
                    }
                }
            }
            self.advance();
            let ghost mid = *self;
            self.binary();
            proof {
                if !self.had_error {
                    lemma_emits_chain(
                        old(self).current_chunk,
                        mid.current_chunk,
                        self.current_chunk,
                        0,
                        1,
                        1,
                        0,
                        0,
                    );
                }
                if gg {
                    let rhs = spec_pp(src, n1.0, n1.1, n1.2, n1.3, rhs_prec, ccs);
                    assert(rhs.0);
                    lemma_spec_counts_monotone(
                        src,
                        rhs.1,
                        Seq::<u8>::empty(),
                        rhs.2,
                        rhs.3,
                        rhs.4,
                        mp,
                        rhs.6,
                    );
                    let ops = spec_suffix_instrs(ct, rhs.4);
                    let rest2 = spec_infix(
                        src,
                        rhs.1,
                        rhs.2,
                        rhs.3,
                        rhs.4,
                        mp,
                        rhs.6,
                    );
                    assert(decoded(self.current_chunk) == (dpre + rhs.5) + ops);
                    assert((dpre + rhs.5 + ops) + rest2.5 =~= dpre + (rhs.5 + ops + rest2.5));
                }
                if !self.had_error {
                    lemma_spec_scan_progress(src, cp, cl);
                    assert(n1.0 != TokenType::Error);
                    assert(spec_step_down(src, ct, cp, n1.0, n1.2));
                    let rhs = spec_pp(src, n1.0, n1.1, n1.2, n1.3, rhs_prec, ccs);
                    assert(rhs.0);
                    assert(self.current_chunk.constants.values@ == rhs.6);
                    assert(rhs.6.len() <= 256);
                    lemma_spec_fuel_bounds(src, n1.0, n1.1, n1.2, n1.3, cl, rhs_prec, ccs);
                }
                if !old(self).had_error && self.had_error && !rr.0 && rr.6.len() <= 256 {
                    if had0 {
                        // already errored: the diagnostics are frozen through
                        // the iteration
                        assert(mid.diagnostics@ == diags0);
                        assert(diags0.len() == 1);
                        assert(self.diagnostics@.len() == 1);
                        assert(self.diagnostics@[0] == diags0[0]);
                        assert(self.diagnostics@.last() == diags0.last());
                    } else {
                        // the error arose in this iteration
                        let rest = spec_infix(src, ct, cp, cl, cpl, mp, ccs);
                        assert(rr.0 == rest.0 && rr.6 == rest.6 && rr.7 == rest.7);
                        lemma_spec_scan_progress(src, cp, cl);
                        if n1.0 == TokenType::Error {
                            // the scanner's error, reported by this advance
                            assert(rest.7 == (n1.1, n1.3));
                            assert(mid.diagnostics@.len() == diags0.len() + 1);
                            assert(diags0.len() == 0);
                            assert(self.diagnostics@.len() == 1);
                            assert(self.diagnostics@[0] == mid.diagnostics@[0]);
                        } else {
                            assert(spec_step_down(src, ct, cp, n1.0, n1.2));
                            let rhs = spec_pp(src, n1.0, n1.1, n1.2, n1.3, rhs_prec, ccs);
                            if rhs.0 {
                                lemma_spec_fuel_bounds(
                                    src,
                                    n1.0,
                                    n1.1,
                                    n1.2,
                                    n1.3,
                                    cl,
                                    rhs_prec,
                                    ccs,
                                );
                                let rest2 = spec_infix(
                                    src,
                                    rhs.1,
                                    rhs.2,
                                    rhs.3,
                                    rhs.4,
                                    mp,
                                    rhs.6,
                                );
                                lemma_spec_counts_monotone(
                                    src,
                                    rhs.1,
                                    Seq::<u8>::empty(),
                                    rhs.2,
                                    rhs.3,
                                    rhs.4,
                                    mp,
                                    rhs.6,
                                );
                            }
                            assert(diags0.len() == 0);
                            assert(diags0 =~= old(self).diagnostics@);
                        }
                    }
                }
            }
        }
        proof {
            if gg {
                let rest = spec_infix(
                    src,
                    self.current.token_type,
                    self.scanner.current as int,
                    self.scanner.line as int,
                    self.previous.line as int,
                    mp,
                    self.current_chunk.constants.values@,
                );
                if self.current.token_type == TokenType::Error {
                    assert(!rest.0);
                    assert(false);
                }
                assert(rest.5 =~= Seq::<Instruction>::empty());
                assert(decoded(self.current_chunk) + rest.5 =~= decoded(self.current_chunk));
            }
            if !self.had_error {
                let rest = spec_infix(
                    src,
                    self.current.token_type,
                    self.scanner.current as int,
                    self.scanner.line as int,
                    self.previous.line as int,
                    mp,
                    self.current_chunk.constants.values@,
                );
                assert(rest.0 && rest.6 == self.current_chunk.constants.values@);
            }
        }
    }

    /// An expression is everything from `Assignment` precedence up.
    pub fn expression(&mut self)
        requires
            old(self).wf(),
        ensures
            final(self).wf(),
            Self::parse_step(*old(self), *final(self)),
            !final(self).had_error ==> emits_segment(
                old(self).current_chunk,
                final(self).current_chunk,
                0,
                1,
            ),
            final(self).current.token_type != TokenType::Error,
            ({
                let r = spec_pp(
                    old(self).scanner.source@,
                    old(self).current.token_type,
                    old(self).current.lexeme@,
                    old(self).scanner.current as int,
                    old(self).scanner.line as int,
                    1,
                    old(self).current_chunk.constants.values@,
                );
                &&& (!old(self).had_error && r.0 && r.6.len() <= 256 ==> !final(self).had_error
                    && final(self).current.token_type == r.1
                    && final(self).scanner.current as int == r.2
                    && final(self).scanner.line as int == r.3
                    && final(self).previous.line as int == r.4
                    && decoded(final(self).current_chunk) == decoded(old(self).current_chunk) + r.5
                    && final(self).current_chunk.constants.values@ == r.6)
                &&& (!old(self).had_error && !final(self).had_error ==> r.0
                    && final(self).current_chunk.constants.values@ == r.6)
                &&& (!old(self).had_error && !r.0 && r.6.len() <= 256
                    ==> final(self).had_error
                    && final(self).diagnostics@.len() == old(self).diagnostics@.len() + 1
                    && final(self).diagnostics@.last().message@ == r.7.0
                    && final(self).diagnostics@.last().line as int == r.7.1)
                &&& (!old(self).had_error && r.6.len() > 256 ==> final(self).had_error
                    && final(self).diagnostics@.len() == old(self).diagnostics@.len() + 1
                    && final(self).diagnostics@.last().message@
                    == "Too many constants in one chunk.".spec_bytes())
            }),
        decreases old(self).fuel(), 1int,
    {
        self.parse_precedence(Precedence::Assignment);
    }
}

pub fn binary(compiler: &mut Compiler)
    requires
        old(compiler).wf(),
        is_binary_operator(old(compiler).previous.token_type),
    ensures
        final(compiler).wf(),
        Compiler::parse_step(*old(compiler), *final(compiler)),
{
    compiler.binary();
}

pub fn grouping(compiler: &mut Compiler)
    requires
        old(compiler).wf(),
    ensures
        final(compiler).wf(),
        Compiler::parse_step(*old(compiler), *final(compiler)),
{
    compiler.grouping();
}

pub fn number(compiler: &mut Compiler)
    requires
        old(compiler).wf(),
        old(compiler).previous.token_type == TokenType::Number,
    ensures
        final(compiler).wf(),
        Compiler::parse_step(*old(compiler), *final(compiler)),
{
    compiler.number();
}

pub fn unary(compiler: &mut Compiler)
    requires
        old(compiler).wf(),
        old(compiler).previous.token_type == TokenType::Bang || old(
            compiler,
        ).previous.token_type == TokenType::Minus,
    ensures
        final(compiler).wf(),
        Compiler::parse_step(*old(compiler), *final(compiler)),
{
    compiler.unary();
}

pub fn literal(compiler: &mut Compiler)
    requires
        old(compiler).wf(),
        old(compiler).previous.token_type == TokenType::False || old(
            compiler,
        ).previous.token_type == TokenType::Nil || old(compiler).previous.token_type
            == TokenType::True,
    ensures
        final(compiler).wf(),
        Compiler::parse_step(*old(compiler), *final(compiler)),
{
    compiler.literal();
}

/// Compiles one expression from source bytes. On success the chunk is
/// well-formed, decodes into whole instructions and ends with the
/// terminating `RETURN`; on failure the diagnostics say what went wrong,
/// in source order, one per error burst. Exactly one of the two comes
/// back.
pub fn compile(source: Vec<u8>) -> (r: (Option<Chunk>, Vec<Diagnostic>))
    requires
        source@.len() < usize::MAX,
    ensures
        r.0 is Some <==> r.1@.len() == 0,
        r.0 is None ==> r.1@.len() == 1,
        r.0 matches Some(c) ==> {
            &&& c.wf()
            &&& chunk_decodes(c)
            &&& decoded(c).len() >= 1
            &&& decoded(c).last().op == OpCode::OP_RETURN
        },
        r.0 matches Some(c) ==> forall|stack: Seq<Value>|
            !((#[trigger] spec_exec(c.code@, c.lines@, c.constants.values@, 0, stack)).0
                matches ExecOutcome::BadBytecode),
        spec_source_ok(source@) && spec_source_pool(source@).len() <= 256 <==> r.0 is Some,
        ({
            // the one diagnostic of a failed compile, for every way a
            // compile can fail: an in-band scanner error on the first
            // token, an ill-formed expression (whose first fault the
            // grammar names), a trailing token, or an overflowing pool
            let first = spec_scan_token(source@, 0, 1);
            let w = spec_pp(source@, first.0, first.1, first.2, first.3, 1, Seq::<Value>::empty());
            &&& (first.0 == TokenType::Error ==> r.1@.len() == 1 && r.1@[0].message@ == first.1
                && r.1@[0].line as int == first.3 && r.1@[0].context == ErrorContext::Bare)
            &&& (first.0 != TokenType::Error && !w.0 && w.6.len() <= 256 ==> r.1@.len() == 1
                && r.1@[0].message@ == w.7.0 && r.1@[0].line as int == w.7.1)
            &&& (first.0 != TokenType::Error && w.0 && w.6.len() <= 256 && w.1 != TokenType::Eof
                ==> r.1@.len() == 1 && r.1@[0].message@
                == "Expect end of expression.".spec_bytes() && r.1@[0].line as int == w.3)
            &&& (first.0 != TokenType::Error && w.6.len() > 256 ==> r.1@.len() == 1
                && r.1@[0].message@ == "Too many constants in one chunk.".spec_bytes())
        }),
        spec_source_ok(source@) && spec_source_pool(source@).len() <= 256 ==> (
        match r.0 {
            Some(c) => {
                &&& decoded(c) == spec_source_emission(source@)
                &&& c.constants.values@ == spec_source_pool(source@)
                &&& c.code@ == encode_instructions(spec_source_emission(source@))
                &&& c.lines@ == encode_lines(spec_source_emission(source@))
            },
            None => false,
        }),
{
    let ghost src = source@;
    let ghost owed = spec_source_ok(src) && spec_source_pool(src).len() <= 256;
    let ghost n0 = spec_scan_token(src, 0, 1);
    let ghost rtop = spec_pp(src, n0.0, n0.1, n0.2, n0.3, 1, Seq::<Value>::empty());
    let scanner = Scanner::new(source);
    let chunk = Chunk::new();
    let mut compiler = Compiler::new(scanner, chunk);
    let ghost chunk0 = compiler.current_chunk;
    proof {
        if owed && n0.0 == TokenType::Error {
            assert(!rtop.0);
            assert(false);
        }
    }
    compiler.advance();
    let ghost adv0 = compiler;
    proof {
        if owed {
            assert(!compiler.had_error);
            assert(compiler.current.token_type == n0.0);
            assert(compiler.current.lexeme@ == n0.1);
            assert(compiler.scanner.current as int == n0.2);
            assert(compiler.scanner.line as int == n0.3);
        }
    }
    compiler.expression();
    let ghost mid = compiler;
    proof {
        if owed {
            assert(!mid.had_error && mid.current.token_type == rtop.1 && rtop.1 == TokenType::Eof);
            assert(mid.current_chunk.constants.values@ == rtop.6);
            assert(decoded(mid.current_chunk) =~= rtop.5) by {
                assert(spec_decode(chunk0.code@, chunk0.lines@, 0, 0) == Some(
                    Seq::<Instruction>::empty(),
                ));
                assert(decoded(chunk0) + rtop.5 =~= rtop.5);
            }
            assert(mid.previous.line as int == rtop.4);
            // at the end of the source the scanner keeps yielding Eof
            assert(mid.scanner.current == mid.scanner.source@.len());
            assert(spec_skip(src, mid.scanner.current as int, mid.scanner.line as int, false) == (
                mid.scanner.current as int,
                mid.scanner.line as int,
            ));
            assert(spec_scan_token(src, mid.scanner.current as int, mid.scanner.line as int).0
                == TokenType::Eof);
            // the Eof lookahead carries the closing line
            assert(mid.current.line == mid.scanner.line);
        }
    }
    compiler.consume(TokenType::Eof, "Expect end of expression.");
    let ghost mid2 = compiler;
    compiler.end_compiler();
    proof {
        // the diagnostic of each nameable failure survives to the result
        if n0.0 == TokenType::Error {
            assert(adv0.diagnostics@.len() == 1);
            assert(adv0.diagnostics@[0].message@ == n0.1);
            assert(adv0.diagnostics@[0].line as int == n0.3);
            assert(adv0.diagnostics@[0].context == ErrorContext::Bare);
            assert(compiler.diagnostics@.len() == 1);
            assert(compiler.diagnostics@[0] == adv0.diagnostics@[0]);
        }
        if n0.0 != TokenType::Error && !rtop.0 && rtop.6.len() <= 256 {
            assert(adv0.diagnostics@.len() == 0);
            assert(mid.diagnostics@.len() == 1);
            assert(mid.diagnostics@.last().message@ == rtop.7.0);
            assert(mid.diagnostics@.last().line as int == rtop.7.1);
            assert(compiler.diagnostics@.len() == 1);
            assert(compiler.diagnostics@[0] == mid.diagnostics@[0]);
        }
        if n0.0 != TokenType::Error && rtop.6.len() > 256 {
            assert(adv0.diagnostics@.len() == 0);
            assert(mid.diagnostics@.len() == 1);
            assert(mid.diagnostics@.last().message@
                == "Too many constants in one chunk.".spec_bytes());
            assert(compiler.diagnostics@.len() == 1);
            assert(compiler.diagnostics@[0] == mid.diagnostics@[0]);
        }
        if n0.0 != TokenType::Error && rtop.0 && rtop.6.len() <= 256 && rtop.1
            != TokenType::Eof {
            assert(!mid.had_error && mid.current.token_type == rtop.1);
            assert(mid.current.line == mid.scanner.line);
            assert(mid2.diagnostics@.len() == 1);
            assert(mid2.diagnostics@.last().message@
                == "Expect end of expression.".spec_bytes());
            assert(mid2.diagnostics@.last().line as int == rtop.3);
            assert(compiler.diagnostics@.len() == 1);
            assert(compiler.diagnostics@[0] == mid2.diagnostics@[0]);
        }
    }
    proof {
        if owed {
            assert(!compiler.had_error);
            assert(mid2.previous.line as int == rtop.3);
            assert(decoded(compiler.current_chunk) == decoded(mid.current_chunk).push(
                Instruction { op: OpCode::OP_RETURN, operand: None, line: mid2.previous.line },
            ));
            assert(decoded(compiler.current_chunk) =~= spec_source_emission(src));
            assert(compiler.current_chunk.constants.values@ == spec_source_pool(src));
            crate::debug::lemma_decode_encode_inverse(
                compiler.current_chunk.code@,
                compiler.current_chunk.lines@,
                0,
                compiler.current_chunk.constants.values@.len() as int,
            );
            assert(compiler.current_chunk.code@.subrange(
                0,
                compiler.current_chunk.code@.len() as int,
            ) =~= compiler.current_chunk.code@);
        }
    }
    if !compiler.had_error {
        proof {
            // the converse: a clean run means the source was well-formed and
            // its constants fit the pool
            assert(n0.0 != TokenType::Error);
            assert(compiler.current_chunk.constants.values@ == rtop.6);
            assert(rtop.0);
            assert(rtop.6.len() <= 256);
            assert(mid.current.token_type == rtop.1);
            if mid.current.token_type != TokenType::Eof {
                assert(mid2.had_error);
                assert(false);
            }
            assert(spec_source_ok(src) && spec_source_pool(src).len() <= 256);
        }
        proof {
            assert(!mid.had_error);
            assert(emits_segment(chunk0, mid.current_chunk, 0, 1));
            let c = compiler.current_chunk;
            let n = c.constants.values@.len() as int;
            let ll = c.code@.len() as int;
            assert(c.code@.subrange(0, ll - 1) =~= mid.current_chunk.code@);
            assert(c.lines@.subrange(0, ll - 1) =~= mid.current_chunk.lines@);
            assert(emitted_code(chunk0, mid.current_chunk) =~= mid.current_chunk.code@);
            assert(emitted_lines(chunk0, mid.current_chunk) =~= mid.current_chunk.lines@);
            assert(n == mid.current_chunk.constants.values@.len() as int);
            assert forall|stack: Seq<Value>|
                !((#[trigger] spec_exec(c.code@, c.lines@, c.constants.values@, 0, stack)).0
                    matches ExecOutcome::BadBytecode) by {
                assert(spec_heights(mid.current_chunk.code@, 0, stack.len() as int) == Some(
                    stack.len() as int + 1,
                ));
                lemma_run_segment(
                    c.code@,
                    c.lines@,
                    c.constants.values@,
                    0,
                    ll - 1,
                    stack,
                    stack.len() as int + 1,
                );
                if exists|s2: Seq<Value>|
                    s2.len() == stack.len() as int + 1 && spec_exec(
                        c.code@,
                        c.lines@,
                        c.constants.values@,
                        0,
                        stack,
                    ) == spec_exec(c.code@, c.lines@, c.constants.values@, ll - 1, s2) {
                    let s2 = choose|s2: Seq<Value>|
                        s2.len() == stack.len() as int + 1 && spec_exec(
                            c.code@,
                            c.lines@,
                            c.constants.values@,
                            0,
                            stack,
                        ) == spec_exec(c.code@, c.lines@, c.constants.values@, ll - 1, s2);
                    assert(c.code@[ll - 1] == byte_of_opcode(OpCode::OP_RETURN));
                    lemma_opcode_byte_round_trip(OpCode::OP_RETURN);
                    assert(spec_exec(c.code@, c.lines@, c.constants.values@, ll - 1, s2).0
                        matches ExecOutcome::Finished(_));
                }
            }
        }
        (Some(compiler.current_chunk), compiler.diagnostics)
    } else {
        (None, compiler.diagnostics)
    }
}

} // verus!
