use vstd::prelude::*;
use crate::chunk_values::{negated, ValueView, Values};
use crate::compiler::{
    binary_opcode, entered, jump_bytes, jump_to_end, left, patched, rules_of, Local, ParseFn,
};
use crate::scanner::{
    lemma_lexeme_end_bounds, lemma_skip_trivia_bounds, lexeme_end, skip_trivia, token_kind,
    TokenType,
};
use crate::chunk_values::{byte_op, display_of, lemma_op_byte_roundtrip, op_byte, OpCode};
use crate::debug::{
    instr_len, jump_target, kind_of, lemma_starts_next, lemma_starts_refl, lemma_whole_at_start,
    lemma_whole_unfold, short_of, starts_at, whole_from,
};
use crate::vm::{
    binary_outcome, comparison_outcome, logical_outcome, unary_outcome, BinaryOp, ComparisonOp,
    fits, in_step, FloatReplyView, FloatRequestView, GlobalAction, LogicalOp, Outcome, Pending,
    ReplyKind, StepView, UnaryOp, VmState,
};

verus! {

/// Scanning from any position, the end token comes exactly when only blanks
/// and comments are left, and every other token takes at least one
/// character: repeated scanning reaches the end of the text.
pub proof fn law_scan_progress(s: Seq<char>, pos: nat)
    requires
        pos <= s.len(),
    ensures
        ({
            let p = skip_trivia(s, pos);
            &&& pos <= p <= s.len()
            &&& (token_kind(s, p) == TokenType::Teof <==> p == s.len())
            &&& (p < s.len() ==> p < lexeme_end(s, p) <= s.len())
        }),
{
    lemma_skip_trivia_bounds(s, pos);
    lemma_lexeme_end_bounds(s, skip_trivia(s, pos));
}

/// The two bytes that the compiler writes for a jump distance below 2^16
/// are read back by the machine as that distance.
pub proof fn law_jump_roundtrip(jump: int)
    requires
        0 <= jump < 65536,
    ensures
        short_of(jump_bytes(jump).0, jump_bytes(jump).1) == jump,
{
    assert(jump == (jump / 256) * 256 + jump % 256);
    assert((jump / 256) % 256 == jump / 256);
}

/// Patching a jump writes only its two bytes, and the distance they then
/// hold, read as the machine reads it, leads from just after them to the end
/// of the code, for any distance below 2^16.
pub proof fn law_patch_jump_lands(code: Seq<u8>, offset: int)
    requires
        0 <= offset,
        offset + 2 <= code.len(),
        code.len() - offset - 2 < 65536,
    ensures
        patched(code, offset).len() == code.len(),
        forall|i: int|
            0 <= i < code.len() && i != offset && i != offset + 1 ==> #[trigger] patched(
                code,
                offset,
            )[i] == code[i],
        short_of(patched(code, offset)[offset], patched(code, offset)[offset + 1]) == code.len()
            - offset - 2,
        offset + 2 + short_of(patched(code, offset)[offset], patched(code, offset)[offset + 1])
            == code.len(),
{
    law_jump_roundtrip(code.len() - offset - 2);
}

/// When an `if` skips a then-branch shorter than 2^16 bytes, the machine's
/// jump lands exactly at the end of the branch.
pub proof fn law_if_jump_lands_after_branch(code: Seq<u8>, o: int)
    requires
        jump_to_end(code, o),
        code.len() - o - 2 < 65536,
    ensures
        o + 2 + short_of(code[o], code[o + 1]) == code.len(),
{
    law_jump_roundtrip(code.len() - o - 2);
}

/// Every token that the rules parse as a binary operator compiles to an
/// instruction, and the end of the text starts no expression.
pub proof fn law_rules_complete(t: TokenType)
    ensures
        rules_of(t).prefix == Some(ParseFn::Binary) || rules_of(t).infix == Some(ParseFn::Binary)
            ==> binary_opcode(t) is Some,
        rules_of(TokenType::Teof).prefix is None,
        rules_of(TokenType::Terr).prefix is None,
{
}

/// `!=` answers the opposite of `==` whenever `==` gives an answer, and
/// fails or hands out work just as `==` does otherwise; `x > y` goes as
/// `y < x` and `x >= y` as `y <= x`, for all operands.
pub proof fn law_comparisons_agree(x: ValueView, y: ValueView)
    ensures
        comparison_outcome(ComparisonOp::EqEq, x, y) matches Outcome::Value(ValueView::Bool(b))
            ==> comparison_outcome(ComparisonOp::NotEq, x, y) == Outcome::Value(
            ValueView::Bool(!b),
        ),
        !(comparison_outcome(ComparisonOp::EqEq, x, y) is Value) ==> comparison_outcome(
            ComparisonOp::NotEq,
            x,
            y,
        ) == comparison_outcome(ComparisonOp::EqEq, x, y),
        comparison_outcome(ComparisonOp::Gt, x, y) == comparison_outcome(ComparisonOp::Lt, y, x),
        comparison_outcome(ComparisonOp::Gte, x, y) == comparison_outcome(ComparisonOp::Lte, y, x),
{
}

/// Negating twice gives back any value but a string (which becomes
/// nothing) and the smallest integer (whose negation does not fit).
pub proof fn law_negate_twice(v: ValueView)
    requires
        !(v is Str),
        !(v matches ValueView::Int(i) && i == i64::MIN),
    ensures
        negated(negated(v)) == v,
{
    if let ValueView::Float(bits) = v {
        assert(bits ^ crate::chunk_values::SIGN_BIT ^ crate::chunk_values::SIGN_BIT == bits)
            by (bit_vector);
    }
}

/// Handing out float work and then answering it with a value of the kind it
/// asked for has the same effect as an operation that gives that value: the
/// operands are replaced by the answer and the machine waits for nothing.
/// An answer of another kind is refused and changes nothing.
pub proof fn law_float_work_then_resume(
    s: VmState,
    n: int,
    request: FloatRequestView,
    k: ReplyKind,
    v: ValueView,
)
    requires
        0 <= n <= s.stack.len(),
        s.pending is None,
    ensures
        ({
            let (r1, s1) = s.apply(n, Outcome::Float(k), request);
            let (r2, s2) = s1.resume(FloatReplyView::Value(v));
            let (r3, s3) = s.apply(n, Outcome::Value(v), request);
            &&& r1 == StepView::Float(request)
            &&& s1.pending == Some(Pending::Push(k))
            &&& fits(k, v) ==> r2 == r3 && s2 == s3
            &&& !fits(k, v) ==> r2 == StepView::Trap && s2 == s1
        }),
{
}

/// Whether going from `s` to the outcome `rt` kept the code, its lines and
/// the constants, and, on a runtime error, emptied the stack and reported
/// the line of the last byte read.
pub open spec fn keeps_code(s: VmState, rt: (StepView, VmState)) -> bool {
    &&& rt.1.code == s.code
    &&& rt.1.lines == s.lines
    &&& rt.1.constants == s.constants
    &&& (rt.0 matches StepView::RuntimeError(_, line, _) ==> rt.1.stack.len() == 0 && line
        == rt.1.lines[rt.1.ip - 1])
}

proof fn lemma_apply_keeps(s: VmState, n: int, outcome: Outcome, request: FloatRequestView)
    ensures
        keeps_code(s, s.apply(n, outcome, request)),
{
}

proof fn lemma_global_keeps(s: VmState, action: GlobalAction, name: Seq<char>)
    ensures
        keeps_code(s, s.global(action, name)),
{
}

proof fn lemma_run_op_keeps(s: VmState, op: OpCode)
    ensures
        keeps_code(s, s.run_op(op)),
{
    let n = s.stack.len();
    match op {
        OpCode::OpAdd | OpCode::OpSubtract | OpCode::OpDivide | OpCode::OpMultiply | OpCode::OpMod
        | OpCode::OpPow | OpCode::OpDivideDivide => {
            if n >= 2 {
                let b = match op {
                    OpCode::OpAdd => BinaryOp::Add,
                    OpCode::OpSubtract => BinaryOp::Subtract,
                    OpCode::OpDivide => BinaryOp::Divide,
                    OpCode::OpMultiply => BinaryOp::Multiply,
                    OpCode::OpMod => BinaryOp::Mod,
                    OpCode::OpPow => BinaryOp::Pow,
                    _ => BinaryOp::DivideDivide,
                };
                let (x, y) = (s.stack[n - 2], s.stack[n - 1]);
                lemma_apply_keeps(s, 2, binary_outcome(b, x, y), FloatRequestView::Binary(b, x, y));
            }
        },
        OpCode::OpNegate | OpCode::OpSqrt | OpCode::OpAbs | OpCode::OpFloor | OpCode::OpCeil
        | OpCode::OpSin | OpCode::OpCos | OpCode::OpTan | OpCode::OpNot => {
            if n >= 1 {
                let u = match op {
                    OpCode::OpNegate => UnaryOp::Negate,
                    OpCode::OpSqrt => UnaryOp::Sqrt,
                    OpCode::OpAbs => UnaryOp::Abs,
                    OpCode::OpFloor => UnaryOp::Floor,
                    OpCode::OpCeil => UnaryOp::Ceil,
                    OpCode::OpSin => UnaryOp::Sin,
                    OpCode::OpCos => UnaryOp::Cos,
                    OpCode::OpTan => UnaryOp::Tan,
                    _ => UnaryOp::Not,
                };
                let x = s.stack[n - 1];
                lemma_apply_keeps(s, 1, unary_outcome(u, x), FloatRequestView::Unary(u, x));
            }
        },
        OpCode::OpEqEq | OpCode::OpNotEq | OpCode::OpGt | OpCode::OpLt | OpCode::OpGte
        | OpCode::OpLte => {
            if n >= 2 {
                let c = match op {
                    OpCode::OpEqEq => ComparisonOp::EqEq,
                    OpCode::OpNotEq => ComparisonOp::NotEq,
                    OpCode::OpGt => ComparisonOp::Gt,
                    OpCode::OpLt => ComparisonOp::Lt,
                    OpCode::OpGte => ComparisonOp::Gte,
                    _ => ComparisonOp::Lte,
                };
                let (x, y) = (s.stack[n - 2], s.stack[n - 1]);
                lemma_apply_keeps(
                    s,
                    2,
                    comparison_outcome(c, x, y),
                    FloatRequestView::Comparison(c, x, y),
                );
            }
        },
        OpCode::OpAnd | OpCode::OpOr => {
            if n >= 2 {
                let l = if op == OpCode::OpAnd { LogicalOp::And } else { LogicalOp::Or };
                let (x, y) = (s.stack[n - 2], s.stack[n - 1]);
                lemma_apply_keeps(s, 2, logical_outcome(l, x, y), FloatRequestView::Text(0));
            }
        },
        OpCode::OpDefGlobal | OpCode::OpDefFixed | OpCode::OpGetGlobal | OpCode::OpSetGlobal => {
            let a = match op {
                OpCode::OpDefGlobal => GlobalAction::Define(true),
                OpCode::OpDefFixed => GlobalAction::Define(false),
                OpCode::OpGetGlobal => GlobalAction::Get,
                _ => GlobalAction::Assign,
            };
            if s.ip < s.code.len() {
                let index = s.code[s.ip];
                let s1 = s.with_ip(s.ip + 1);
                if index < s.constants.len() {
                    let c = s.constants[index as int];
                    if let Some(name) = display_of(c) {
                        lemma_global_keeps(s1, a, name);
                    }
                }
            }
        },
        _ => {},
    }
}

/// Running an instruction, or taking the answer to float work, never changes
/// the code, its lines or the constants; a runtime error leaves an empty
/// stack and reports the line of the last byte read.
pub proof fn law_step_keeps_code(s: VmState, reply: FloatReplyView)
    ensures
        keeps_code(s, s.step()),
        keeps_code(s, s.resume(reply)),
{
    if s.ip < s.code.len() {
        if let Some(op) = byte_op(s.code[s.ip]) {
            lemma_run_op_keeps(s.with_ip(s.ip + 1), op);
        }
    }
    let s1 = VmState { pending: None, ..s };
    if let (Some(Pending::Global(action)), FloatReplyView::Text(name)) = (s.pending, reply) {
        lemma_global_keeps(s1, action, name);
    }
}

proof fn lemma_run_op_moves(s: VmState, op: OpCode)
    requires
        op != OpCode::OpEq,
    ensures
        !(s.run_op(op).0 is UnknownOp),
        !(s.run_op(op).0 is Trap) && !(kind_of(op_byte(op)) is Jump) ==> s.run_op(op).1.ip == s.ip
            + instr_len(op_byte(op)) - 1,
{
    lemma_op_byte_roundtrip(op, op_byte(op));
    match op {
        OpCode::OpDefGlobal | OpCode::OpDefFixed | OpCode::OpGetGlobal | OpCode::OpSetGlobal => {
            let a = match op {
                OpCode::OpDefGlobal => GlobalAction::Define(true),
                OpCode::OpDefFixed => GlobalAction::Define(false),
                OpCode::OpGetGlobal => GlobalAction::Get,
                _ => GlobalAction::Assign,
            };
            if s.ip < s.code.len() {
                let index = s.code[s.ip];
                let s1 = s.with_ip(s.ip + 1);
                if index < s.constants.len() {
                    if let Some(name) = display_of(s.constants[index as int]) {
                        lemma_global_keeps(s1, a, name);
                    }
                }
            }
        },
        _ => {},
    }
}

/// Compiled code is run instruction by instruction: at the start of an
/// instruction in a run of whole instructions, a step never meets an
/// instruction the machine does not know, and a step that is not a jump
/// and does not trap ends at the start of the next instruction.
pub proof fn law_whole_code_runs(s: VmState)
    requires
        0 <= s.ip < s.code.len(),
        whole_from(s.code, s.ip, s.constants.len()),
    ensures
        !(s.step().0 is UnknownOp),
        !(s.step().0 is Trap) && !(kind_of(s.code[s.ip]) is Jump) ==> s.step().1.ip == s.ip
            + instr_len(s.code[s.ip]) && whole_from(
            s.step().1.code,
            s.step().1.ip,
            s.step().1.constants.len(),
        ),
{
    lemma_whole_unfold(s.code, s.ip, s.constants.len());
    let b = s.code[s.ip];
    let op = byte_op(b).unwrap();
    lemma_op_byte_roundtrip(op, b);
    lemma_run_op_moves(s.with_ip(s.ip + 1), op);
    law_step_keeps_code(s, FloatReplyView::Text(Seq::empty()));
}

proof fn lemma_jump_moves(s: VmState, forward: bool, only_if_false: bool)
    requires
        1 <= s.ip,
    ensures
        !(s.jump(forward, only_if_false).0 is Trap) ==> s.jump(forward, only_if_false).1.ip == s.ip
            + 2 || s.jump(forward, only_if_false).1.ip == (if forward {
            s.ip + 2 + short_of(s.code[s.ip], s.code[s.ip + 1])
        } else {
            s.ip + 2 - short_of(s.code[s.ip], s.code[s.ip + 1])
        }),
        s.jump(forward, only_if_false).1.code == s.code,
        s.jump(forward, only_if_false).1.constants == s.constants,
{
}

/// Compiled code runs in step: at the start of an instruction of code made
/// of whole instructions whose jumps lead to starts of instructions, a step
/// never meets an instruction the machine does not know, and every step or
/// answer to float work that does not trap leaves the machine at the start
/// of an instruction again.
pub proof fn law_compiled_code_runs_in_step(s: VmState, reply: FloatReplyView)
    requires
        in_step(s),
    ensures
        s.ip < s.code.len() ==> !(s.step().0 is UnknownOp),
        !(s.step().0 is Trap) ==> in_step(s.step().1),
        !(s.resume(reply).0 is Trap) ==> in_step(s.resume(reply).1),
{
    law_step_keeps_code(s, reply);
    lemma_starts_refl(s.code, 0);
    lemma_whole_at_start(s.code, 0, s.ip, s.constants.len());
    let (r, t) = s.step();
    if s.ip < s.code.len() {
        law_whole_code_runs(s);
        let b = s.code[s.ip];
        lemma_whole_unfold(s.code, s.ip, s.constants.len());
        if !(r is Trap) {
            if kind_of(b) is Jump {
                let op = byte_op(b).unwrap();
                lemma_op_byte_roundtrip(op, b);
                let s1 = s.with_ip(s.ip + 1);
                match op {
                    OpCode::OpJumpIfFalse => lemma_jump_moves(s1, true, true),
                    OpCode::OpJump => lemma_jump_moves(s1, true, false),
                    _ => lemma_jump_moves(s1, false, false),
                }
                lemma_starts_next(s.code, 0, s.ip);
                assert(starts_at(s.code, 0, jump_target(s.code, s.ip)));
            } else {
                lemma_starts_next(s.code, 0, s.ip);
            }
        }
    }
}

/// Entering a scope and leaving it at once drops no variable: when every
/// variable in scope was declared at most as deep as the current scope,
/// leaving after entering pops nothing and gives back the locals, their
/// count and the depth as they were.
pub proof fn law_scope_round_trip(s: (Seq<Local>, int, int))
    requires
        0 <= s.1 <= s.0.len(),
        forall|i: int| 0 <= i < s.1 ==> (#[trigger] s.0[i]).depth <= s.2,
    ensures
        left(entered(s)) == (s, 0nat),
{
    if s.1 > 0 {
        assert(s.0[s.1 - 1].depth <= s.2);
    }
}

/// After binding a name, reading it gives the bound value; other names keep
/// their bindings; after removing a name it is unbound.
pub proof fn law_table_read_after_write(
    t: Map<Seq<char>, (ValueView, bool)>,
    k: Seq<char>,
    v: ValueView,
    m: bool,
    other: Seq<char>,
)
    requires
        other != k,
    ensures
        t.insert(k, (v, m)).contains_key(k),
        t.insert(k, (v, m))[k] == (v, m),
        t.insert(k, (v, m)).contains_key(other) == t.contains_key(other),
        t.contains_key(other) ==> t.insert(k, (v, m))[other] == t[other],
        !t.remove(k).contains_key(k),
        t.remove(k).contains_key(other) == t.contains_key(other),
{
}

} // verus!
