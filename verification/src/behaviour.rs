use vstd::prelude::*;
use crate::chunk_values::{
    decimal, digit_char, digits, display_of, falsy, op_byte, OpCode, ValueView,
};
use crate::compiler::{
    all_digits, binary_opcode, decimal_value, declared_here, dropped, int_literal, level, resolve,
    rules_of, stronger, Local, ParseFn, Precedence,
};
use crate::debug::short_of;
use crate::grammar::{
    declared_here_v, dropped_v, pops_code, resolve_v, s_dispatch, s_emit, s_expr_stmt, s_literal,
    s_named, s_parse, s_print, PState, Stop,
};
use crate::scanner::{char_at, keyword_kind, lexeme_end, token_kind, TokenType};
use crate::vm::{
    binary_outcome, comparison_outcome, logical_outcome, unary_outcome, BinaryOp, ComparisonOp,
    GlobalAction, LogicalOp, Outcome, ReplyKind, RuntimeErrorKind, StepView, UnaryOp, VmState,
    TWO_53,
};

verus! {

// ---------------------------------------------------------------------------
// How expressions group.
// ---------------------------------------------------------------------------

/// The five multiplicative operators `* / % ^ //` bind equally tightly and
/// tighter than `+` and `-`, which bind tighter than `< > <= >=`, which bind
/// tighter than `==` and `!=`, which bind tighter than an assignment; `!`
/// binds tighter than all of them. So `a + b / c` groups as `a + (b / c)`
/// and `a == b < c` as `a == (b < c)`. Each of these operators is read as a
/// binary operator after an operand.
pub proof fn law_operator_precedence()
    ensures
        rules_of(TokenType::TdivOp).prec == rules_of(TokenType::TmulOp).prec,
        rules_of(TokenType::TmodOp).prec == rules_of(TokenType::TmulOp).prec,
        rules_of(TokenType::TpowOp).prec == rules_of(TokenType::TmulOp).prec,
        rules_of(TokenType::TdivdivOp).prec == rules_of(TokenType::TmulOp).prec,
        rules_of(TokenType::Tminus).prec == rules_of(TokenType::Tplus).prec,
        rules_of(TokenType::Tgt).prec == rules_of(TokenType::Tlt).prec,
        rules_of(TokenType::Tgte).prec == rules_of(TokenType::Tlt).prec,
        rules_of(TokenType::Tlte).prec == rules_of(TokenType::Tlt).prec,
        rules_of(TokenType::TnotEq).prec == rules_of(TokenType::TeqEq).prec,
        level(rules_of(TokenType::Tnot).prec) > level(rules_of(TokenType::TmulOp).prec),
        level(rules_of(TokenType::TmulOp).prec) > level(rules_of(TokenType::Tplus).prec),
        level(rules_of(TokenType::Tplus).prec) > level(rules_of(TokenType::Tlt).prec),
        level(rules_of(TokenType::Tlt).prec) > level(rules_of(TokenType::TeqEq).prec),
        level(rules_of(TokenType::TeqEq).prec) > level(Precedence::Assignment),
        forall|t: TokenType|
            #![trigger binary_opcode(t)]
            binary_opcode(t) is Some ==> rules_of(t).infix == Some(ParseFn::Binary),
{
}

/// Each operator token compiles to the instruction of the same operation.
pub proof fn law_operator_instructions()
    ensures
        binary_opcode(TokenType::Tplus) == Some(OpCode::OpAdd),
        binary_opcode(TokenType::Tminus) == Some(OpCode::OpSubtract),
        binary_opcode(TokenType::TmulOp) == Some(OpCode::OpMultiply),
        binary_opcode(TokenType::TdivOp) == Some(OpCode::OpDivide),
        binary_opcode(TokenType::TmodOp) == Some(OpCode::OpMod),
        binary_opcode(TokenType::TpowOp) == Some(OpCode::OpPow),
        binary_opcode(TokenType::TdivdivOp) == Some(OpCode::OpDivideDivide),
        binary_opcode(TokenType::TeqEq) == Some(OpCode::OpEqEq),
        binary_opcode(TokenType::TnotEq) == Some(OpCode::OpNotEq),
        binary_opcode(TokenType::Tgt) == Some(OpCode::OpGt),
        binary_opcode(TokenType::Tlt) == Some(OpCode::OpLt),
        binary_opcode(TokenType::Tgte) == Some(OpCode::OpGte),
        binary_opcode(TokenType::Tlte) == Some(OpCode::OpLte),
{
}

// ---------------------------------------------------------------------------
// Arithmetic.
// ---------------------------------------------------------------------------

/// Whether a mathematical integer fits in an `i64`.
pub open spec fn fits_i64(v: int) -> bool {
    i64::MIN <= v <= i64::MAX
}

/// On two integers `+`, `-` and `*` give the sum, difference and product
/// when it fits in an integer, and trap when it does not.
pub proof fn law_integer_sum_difference_product(a: i64, b: i64)
    ensures
        fits_i64(a + b) ==> binary_outcome(BinaryOp::Add, ValueView::Int(a), ValueView::Int(b))
            == Outcome::Value(ValueView::Int((a + b) as i64)),
        !fits_i64(a + b) ==> binary_outcome(BinaryOp::Add, ValueView::Int(a), ValueView::Int(b))
            == Outcome::Trap,
        fits_i64(a - b) ==> binary_outcome(
            BinaryOp::Subtract,
            ValueView::Int(a),
            ValueView::Int(b),
        ) == Outcome::Value(ValueView::Int((a - b) as i64)),
        !fits_i64(a - b) ==> binary_outcome(BinaryOp::Subtract, ValueView::Int(a), ValueView::Int(b))
            == Outcome::Trap,
        fits_i64(a * b) ==> binary_outcome(
            BinaryOp::Multiply,
            ValueView::Int(a),
            ValueView::Int(b),
        ) == Outcome::Value(ValueView::Int((a * b) as i64)),
        !fits_i64(a * b) ==> binary_outcome(BinaryOp::Multiply, ValueView::Int(a), ValueView::Int(b))
            == Outcome::Trap,
{
}

/// Integer `/` and `%` divide with the quotient rounded toward zero: the
/// quotient times the divisor plus the remainder gives back the dividend,
/// the remainder is smaller than the divisor in size and has the sign of
/// the dividend. Dividing by zero traps, and so does the one division whose
/// quotient does not fit, the smallest integer by -1.
pub proof fn law_integer_division(a: i64, b: i64)
    ensures
        b != 0 && !(a == i64::MIN && b == -1) ==> ({
            &&& binary_outcome(BinaryOp::Divide, ValueView::Int(a), ValueView::Int(b)) matches Outcome::Value(ValueView::Int(q))
            &&& binary_outcome(BinaryOp::Mod, ValueView::Int(a), ValueView::Int(b)) matches Outcome::Value(ValueView::Int(r))
            &&& q * b + r == a
            &&& (if b > 0 { -b < r < b } else { b < r < -b })
            &&& (r == 0 || (r > 0) == (a > 0))
        }),
        b == 0 ==> binary_outcome(BinaryOp::Divide, ValueView::Int(a), ValueView::Int(b))
            == Outcome::Trap && binary_outcome(BinaryOp::Mod, ValueView::Int(a), ValueView::Int(b))
            == Outcome::Trap,
        a == i64::MIN && b == -1 ==> binary_outcome(
            BinaryOp::Divide,
            ValueView::Int(a),
            ValueView::Int(b),
        ) == Outcome::Trap,
{
    if b != 0 && !(a == i64::MIN && b == -1) {
        let x = a as int;
        let d = b as int;
        let (q, r): (int, int) = if x == 0 {
            (0, 0)
        } else if x > 0 && d > 0 {
            (x / d, x % d)
        } else if x < 0 && d < 0 {
            ((-x) / (-d), -((-x) % (-d)))
        } else if x < 0 {
            (-((-x) / d), -((-x) % d))
        } else {
            (-(x / (-d)), x % (-d))
        };
        if x == 0 {
        } else if x > 0 && d > 0 {
            lemma_quot_rem(x, d);
            assert(q * d + r == x) by (nonlinear_arith)
                requires d * (x / d) + x % d == x, q == x / d, r == x % d;
        } else if x < 0 && d < 0 {
            lemma_quot_rem(-x, -d);
            assert(q * d + r == x) by (nonlinear_arith)
                requires (-d) * ((-x) / (-d)) + (-x) % (-d) == -x, q == (-x) / (-d), r == -((-x) % (-d));
            assert(q <= -x);
            if x == i64::MIN {
                assert(d != -1);
                assert(q <= i64::MAX) by (nonlinear_arith)
                    requires q * d + r == x, d <= -2, d < r <= 0, q >= 0, x == i64::MIN;
            }
        } else if x < 0 {
            lemma_quot_rem(-x, d);
            assert(q * d + r == x) by (nonlinear_arith)
                requires d * ((-x) / d) + (-x) % d == -x, q == -((-x) / d), r == -((-x) % d);
        } else {
            lemma_quot_rem(x, -d);
            assert(q * d + r == x) by (nonlinear_arith)
                requires (-d) * (x / (-d)) + x % (-d) == x, q == -(x / (-d)), r == x % (-d);
        }
        assert(fits_i64(q));
        assert(fits_i64(r));
        assert(a.checked_div(b) == Some(q as i64));
        assert(a.checked_rem(b) == Some(r as i64));
        assert(if d > 0 { -d < r < d } else { d < r < -d });
        assert(r == 0 || (r > 0) == (x > 0));
        assert(q * d + r == x);
        let qi = q as i64;
        let ri = r as i64;
        assert(binary_outcome(BinaryOp::Divide, ValueView::Int(a), ValueView::Int(b))
            == Outcome::Value(ValueView::Int(qi)));
        assert(binary_outcome(BinaryOp::Mod, ValueView::Int(a), ValueView::Int(b))
            == Outcome::Value(ValueView::Int(ri)));
        assert(qi * b + ri == a);
    }
}

proof fn lemma_quot_rem(x: int, d: int)
    requires
        x > 0,
        d > 0,
    ensures
        d * (x / d) + x % d == x,
        0 <= x % d < d,
        0 <= x / d <= x,
{
    vstd::arithmetic::div_mod::lemma_fundamental_div_mod(x, d);
    assert(0 <= x / d <= x) by (nonlinear_arith)
        requires
            x > 0,
            d > 0,
            d * (x / d) + x % d == x,
            0 <= x % d < d,
    ;
}

/// Floor division of two integers whose quotient a float holds exactly
/// gives the same integer as `/`; a larger quotient is handed out as float
/// work that asks for an integer.
pub proof fn law_floor_division_of_integers(a: i64, b: i64)
    ensures
        binary_outcome(BinaryOp::Divide, ValueView::Int(a), ValueView::Int(b)) matches Outcome::Value(
            ValueView::Int(q),
        ) ==> (if -TWO_53 <= q <= TWO_53 {
            binary_outcome(BinaryOp::DivideDivide, ValueView::Int(a), ValueView::Int(b))
                == Outcome::Value(ValueView::Int(q))
        } else {
            binary_outcome(BinaryOp::DivideDivide, ValueView::Int(a), ValueView::Int(b))
                == Outcome::Float(ReplyKind::Int)
        }),
        binary_outcome(BinaryOp::Divide, ValueView::Int(a), ValueView::Int(b)) == Outcome::Trap
            ==> binary_outcome(BinaryOp::DivideDivide, ValueView::Int(a), ValueView::Int(b))
            == Outcome::Trap,
{
}

/// Any integer raised to the power zero is one, and raising to one more
/// multiplies by the base: when `a ^ e` and `a ^ (e + 1)` both fit, the
/// second is the first times `a`, and when `a ^ e` fits but `a ^ e * a`
/// does not, `a ^ (e + 1)` traps.
pub proof fn law_integer_power(a: i64, e: i64)
    requires
        0 <= e < u32::MAX,
    ensures
        binary_outcome(BinaryOp::Pow, ValueView::Int(a), ValueView::Int(0)) == Outcome::Value(
            ValueView::Int(1),
        ),
        binary_outcome(BinaryOp::Pow, ValueView::Int(a), ValueView::Int(e)) matches Outcome::Value(
            ValueView::Int(p),
        ) ==> if fits_i64(p * a) {
            binary_outcome(BinaryOp::Pow, ValueView::Int(a), ValueView::Int((e + 1) as i64))
                == Outcome::Value(ValueView::Int((p * a) as i64))
        } else {
            binary_outcome(BinaryOp::Pow, ValueView::Int(a), ValueView::Int((e + 1) as i64))
                == Outcome::Trap
        },
{
    assert(((e + 1) as i64) as u32 as nat == (e as u32) as nat + 1);
}

/// `+` joins two strings, the first before the second; no other arithmetic
/// applies to strings, and mixing a string with a number is an error.
pub proof fn law_string_arithmetic(s: Seq<char>, t: Seq<char>, op: BinaryOp, i: i64)
    ensures
        binary_outcome(BinaryOp::Add, ValueView::Str(s), ValueView::Str(t)) matches Outcome::Value(
            ValueView::Str(u),
        ) && u.len() == s.len() + t.len() && u.subrange(0, s.len() as int) == s && u.subrange(
            s.len() as int,
            u.len() as int,
        ) == t,
        op != BinaryOp::Add ==> binary_outcome(op, ValueView::Str(s), ValueView::Str(t))
            == Outcome::Error(RuntimeErrorKind::UnsupportedStringOperation),
        binary_outcome(op, ValueView::Str(s), ValueView::Int(i)) == Outcome::Error(
            RuntimeErrorKind::OperandsMustBeNumbers,
        ),
        binary_outcome(op, ValueView::Int(i), ValueView::Str(s)) == Outcome::Error(
            RuntimeErrorKind::OperandsMustBeNumbers,
        ),
{
    assert((s + t).subrange(0, s.len() as int) =~= s);
    assert((s + t).subrange(s.len() as int, (s + t).len() as int) =~= t);
}

// ---------------------------------------------------------------------------
// Comparisons, negation and logic.
// ---------------------------------------------------------------------------

/// On two integers each comparison answers the relation of the same name:
/// `==` is true exactly on equal integers, `!=` exactly on different ones,
/// and the orderings are the usual ones.
pub proof fn law_integer_comparisons(a: i64, b: i64)
    ensures
        comparison_outcome(ComparisonOp::EqEq, ValueView::Int(a), ValueView::Int(b))
            == Outcome::Value(ValueView::Bool(a == b)),
        comparison_outcome(ComparisonOp::NotEq, ValueView::Int(a), ValueView::Int(b))
            == Outcome::Value(ValueView::Bool(a != b)),
        comparison_outcome(ComparisonOp::Lt, ValueView::Int(a), ValueView::Int(b))
            == Outcome::Value(ValueView::Bool(a < b)),
        comparison_outcome(ComparisonOp::Gt, ValueView::Int(a), ValueView::Int(b))
            == Outcome::Value(ValueView::Bool(a > b)),
        comparison_outcome(ComparisonOp::Lte, ValueView::Int(a), ValueView::Int(b))
            == Outcome::Value(ValueView::Bool(a <= b)),
        comparison_outcome(ComparisonOp::Gte, ValueView::Int(a), ValueView::Int(b))
            == Outcome::Value(ValueView::Bool(a >= b)),
{
}

/// Booleans and strings compare for equality by value; ordering them is an
/// error; comparing values of different kinds that are not both numbers is
/// an error, even for `==`.
pub proof fn law_equality_of_booleans_and_strings(
    p: bool,
    q: bool,
    s: Seq<char>,
    t: Seq<char>,
    op: ComparisonOp,
    i: i64,
)
    ensures
        comparison_outcome(ComparisonOp::EqEq, ValueView::Bool(p), ValueView::Bool(q))
            == Outcome::Value(ValueView::Bool(p == q)),
        comparison_outcome(ComparisonOp::NotEq, ValueView::Bool(p), ValueView::Bool(q))
            == Outcome::Value(ValueView::Bool(p != q)),
        comparison_outcome(ComparisonOp::EqEq, ValueView::Str(s), ValueView::Str(t))
            == Outcome::Value(ValueView::Bool(s == t)),
        comparison_outcome(ComparisonOp::NotEq, ValueView::Str(s), ValueView::Str(t))
            == Outcome::Value(ValueView::Bool(s != t)),
        op != ComparisonOp::EqEq && op != ComparisonOp::NotEq ==> comparison_outcome(
            op,
            ValueView::Bool(p),
            ValueView::Bool(q),
        ) is Error && comparison_outcome(op, ValueView::Str(s), ValueView::Str(t)) is Error,
        comparison_outcome(op, ValueView::Int(i), ValueView::Str(s)) == Outcome::Error(
            RuntimeErrorKind::UnsupportedComparison,
        ),
        comparison_outcome(op, ValueView::Bool(p), ValueView::Int(i)) == Outcome::Error(
            RuntimeErrorKind::UnsupportedComparison,
        ),
{
}

/// `!` flips a boolean, so `!!b` is `b`; on a number it is an error.
pub proof fn law_not_flips(b: bool, i: i64)
    ensures
        unary_outcome(UnaryOp::Not, ValueView::Bool(b)) == Outcome::Value(ValueView::Bool(!b)),
        unary_outcome(UnaryOp::Not, ValueView::Bool(b)) matches Outcome::Value(v)
            && unary_outcome(UnaryOp::Not, v) == Outcome::Value(ValueView::Bool(b)),
        unary_outcome(UnaryOp::Not, ValueView::Int(i)) == Outcome::Error(
            RuntimeErrorKind::OperandMustBeBool,
        ),
{
}

/// Negating an integer gives the integer that adds up with it to zero, and
/// its absolute value is the one of the two that is not negative; only the
/// smallest integer, whose negation does not fit, cannot be negated.
pub proof fn law_integer_negation(a: i64)
    ensures
        a != i64::MIN ==> (unary_outcome(UnaryOp::Negate, ValueView::Int(a)) matches Outcome::Value(
            ValueView::Int(n),
        ) && n + a == 0),
        a != i64::MIN ==> (unary_outcome(UnaryOp::Abs, ValueView::Int(a)) matches Outcome::Value(
            ValueView::Int(m),
        ) && m >= 0 && (m == a || m + a == 0)),
        a == i64::MIN ==> unary_outcome(UnaryOp::Negate, ValueView::Int(a)) == Outcome::Trap,
        unary_outcome(UnaryOp::Negate, ValueView::Bool(true)) is Error,
{
}

/// `and` is true exactly when both booleans are, `or` when either is; on
/// anything but two booleans both are an error.
pub proof fn law_logic(p: bool, q: bool, i: i64)
    ensures
        logical_outcome(LogicalOp::And, ValueView::Bool(p), ValueView::Bool(q)) == Outcome::Value(
            ValueView::Bool(p && q),
        ),
        logical_outcome(LogicalOp::Or, ValueView::Bool(p), ValueView::Bool(q)) == Outcome::Value(
            ValueView::Bool(p || q),
        ),
        logical_outcome(LogicalOp::And, ValueView::Int(i), ValueView::Bool(q)) is Error,
        logical_outcome(LogicalOp::Or, ValueView::Bool(p), ValueView::Int(i)) is Error,
{
}

// ---------------------------------------------------------------------------
// Conditions.
// ---------------------------------------------------------------------------

/// In a condition an integer is false exactly when it is zero (negative
/// integers are true), a boolean when it is `false`, a float when it is a
/// zero of either sign; nothing is false and a string is true.
pub proof fn law_truthiness(i: i64, b: bool, s: Seq<char>, bits: u64)
    ensures
        falsy(ValueView::Int(i)) <==> i == 0,
        falsy(ValueView::Bool(b)) <==> !b,
        falsy(ValueView::Nil),
        !falsy(ValueView::Str(s)),
        falsy(ValueView::Float(bits)) <==> (bits == 0 || bits == 0x8000_0000_0000_0000u64),
{
}

/// A conditional jump on an integer on top of the stack jumps over its
/// distance exactly when the integer is zero, and otherwise goes on just
/// after the distance; the stack is left as it was.
pub proof fn law_jump_if_false_on_integers(s: VmState, i: i64)
    requires
        0 <= s.ip,
        s.ip + 2 <= s.code.len(),
        s.stack.len() > 0,
        s.stack.last() == ValueView::Int(i),
        s.ip + 2 + short_of(s.code[s.ip], s.code[s.ip + 1]) <= usize::MAX,
    ensures
        s.run_op(OpCode::OpJumpIfFalse).0 == StepView::Continue,
        s.run_op(OpCode::OpJumpIfFalse).1.stack == s.stack,
        s.run_op(OpCode::OpJumpIfFalse).1.ip == if i == 0 {
            s.ip + 2 + short_of(s.code[s.ip], s.code[s.ip + 1])
        } else {
            s.ip + 2
        },
{
}

// ---------------------------------------------------------------------------
// Declaring a variable in a block.
// ---------------------------------------------------------------------------

/// Among the first `count` variables, the `i`-th and every later one belong
/// to the block at `depth` or deeper (or are still being declared).
pub open spec fn in_innermost_block(locals: Seq<Local>, count: int, depth: int, i: int) -> bool {
    &&& 0 <= i < count
    &&& forall|j: int|
        i <= j < count ==> (#[trigger] locals[j]).depth == -1 || locals[j].depth >= depth
}

/// A name clashes with a variable of the current block exactly when some
/// variable of that name was declared in the innermost block, that is, with
/// no variable of an enclosing block after it. A variable of an enclosing
/// block never clashes: declaring the same name in an inner block shadows
/// it.
pub proof fn law_only_the_innermost_block_clashes(
    locals: Seq<Local>,
    count: int,
    depth: int,
    name: Seq<char>,
)
    requires
        0 <= count <= locals.len(),
    ensures
        declared_here(locals, count, depth, name) <==> exists|i: int|
            #[trigger] in_innermost_block(locals, count, depth, i) && locals[i].name.start@
                == name,
        (forall|i: int|
            0 <= i < count && (#[trigger] locals[i]).name.start@ == name ==> locals[i].depth != -1
                && locals[i].depth < depth) ==> !declared_here(locals, count, depth, name),
    decreases count,
{
    if count > 0 {
        let last = locals[count - 1];
        law_only_the_innermost_block_clashes(locals, count - 1, depth, name);
        if last.depth != -1 && last.depth < depth {
            assert forall|i: int| #[trigger] in_innermost_block(locals, count, depth, i) implies false by {
                let j = count - 1;
                assert(i <= j < count);
                assert(locals[j].depth == -1 || locals[j].depth >= depth);
            }
        } else if last.name.start@ == name {
            assert(in_innermost_block(locals, count, depth, count - 1));
        } else {
            if declared_here(locals, count - 1, depth, name) {
                let i = choose|i: int|
                    #[trigger] in_innermost_block(locals, count - 1, depth, i)
                        && locals[i].name.start@ == name;
                assert forall|j: int| i <= j < count implies (#[trigger] locals[j]).depth == -1
                    || locals[j].depth >= depth by {
                    if j < count - 1 {
                        assert(in_innermost_block(locals, count - 1, depth, i));
                    }
                }
                assert(in_innermost_block(locals, count, depth, i));
            }
            if exists|i: int|
                #[trigger] in_innermost_block(locals, count, depth, i) && locals[i].name.start@
                    == name {
                let i = choose|i: int|
                    #[trigger] in_innermost_block(locals, count, depth, i)
                        && locals[i].name.start@ == name;
                assert(i != count - 1);
                assert forall|j: int| i <= j < count - 1 implies (#[trigger] locals[j]).depth == -1
                    || locals[j].depth >= depth by {
                    assert(in_innermost_block(locals, count, depth, i));
                }
                assert(in_innermost_block(locals, count - 1, depth, i));
            }
        }
    }
    if forall|i: int|
        0 <= i < count && (#[trigger] locals[i]).name.start@ == name ==> locals[i].depth != -1
            && locals[i].depth < depth {
        if declared_here(locals, count, depth, name) {
            let i = choose|i: int|
                #[trigger] in_innermost_block(locals, count, depth, i) && locals[i].name.start@
                    == name;
            assert(locals[i].depth == -1 || locals[i].depth >= depth);
        }
    }
}

/// The same holds of the names and depths that the grammar keeps of the
/// variables.
pub open spec fn in_innermost_block_v(
    locals: Seq<(Seq<char>, i64)>,
    count: int,
    depth: int,
    i: int,
) -> bool {
    &&& 0 <= i < count
    &&& forall|j: int| i <= j < count ==> (#[trigger] locals[j]).1 == -1 || locals[j].1 >= depth
}

/// A name clashes exactly when some variable of that name was declared in
/// the innermost block; a variable of an enclosing block is shadowed, never
/// clashed with.
pub proof fn law_only_the_innermost_block_clashes_v(
    locals: Seq<(Seq<char>, i64)>,
    count: int,
    depth: int,
    name: Seq<char>,
)
    requires
        0 <= count <= locals.len(),
    ensures
        declared_here_v(locals, count, depth, name) <==> exists|i: int|
            #[trigger] in_innermost_block_v(locals, count, depth, i) && locals[i].0 == name,
        (forall|i: int|
            0 <= i < count && (#[trigger] locals[i]).0 == name ==> locals[i].1 != -1 && locals[i].1
                < depth) ==> !declared_here_v(locals, count, depth, name),
    decreases count,
{
    if count > 0 {
        let last = locals[count - 1];
        law_only_the_innermost_block_clashes_v(locals, count - 1, depth, name);
        if last.1 != -1 && last.1 < depth {
            assert forall|i: int| #[trigger] in_innermost_block_v(locals, count, depth, i) implies false by {
                let j = count - 1;
                assert(i <= j < count);
                assert(locals[j].1 == -1 || locals[j].1 >= depth);
            }
        } else if last.0 == name {
            assert(in_innermost_block_v(locals, count, depth, count - 1));
        } else {
            if declared_here_v(locals, count - 1, depth, name) {
                let i = choose|i: int|
                    #[trigger] in_innermost_block_v(locals, count - 1, depth, i) && locals[i].0 == name;
                assert forall|j: int| i <= j < count implies (#[trigger] locals[j]).1 == -1
                    || locals[j].1 >= depth by {
                    if j < count - 1 {
                        assert(in_innermost_block_v(locals, count - 1, depth, i));
                    }
                }
                assert(in_innermost_block_v(locals, count, depth, i));
            }
            if exists|i: int|
                #[trigger] in_innermost_block_v(locals, count, depth, i) && locals[i].0 == name {
                let i = choose|i: int|
                    #[trigger] in_innermost_block_v(locals, count, depth, i) && locals[i].0 == name;
                assert(i != count - 1);
                assert forall|j: int| i <= j < count - 1 implies (#[trigger] locals[j]).1 == -1
                    || locals[j].1 >= depth by {
                    assert(in_innermost_block_v(locals, count, depth, i));
                }
                assert(in_innermost_block_v(locals, count - 1, depth, i));
            }
        }
    }
    if forall|i: int|
        0 <= i < count && (#[trigger] locals[i]).0 == name ==> locals[i].1 != -1 && locals[i].1
            < depth {
        if declared_here_v(locals, count, depth, name) {
            let i = choose|i: int|
                #[trigger] in_innermost_block_v(locals, count, depth, i) && locals[i].0 == name;
            assert(locals[i].1 == -1 || locals[i].1 >= depth);
        }
    }
}

// ---------------------------------------------------------------------------
// Finding a local variable by name.
// ---------------------------------------------------------------------------

/// A name resolves to the last variable in scope of that name, the one of
/// the innermost block that declares it, and to -1 when no variable in
/// scope has that name.
pub proof fn law_resolve_finds_the_innermost(locals: Seq<Local>, count: int, name: Seq<char>)
    requires
        0 <= count <= locals.len(),
    ensures
        resolve(locals, count, name) == -1 <==> forall|i: int|
            0 <= i < count ==> (#[trigger] locals[i]).name.start@ != name,
        resolve(locals, count, name) != -1 ==> {
            let r = resolve(locals, count, name);
            &&& 0 <= r < count
            &&& locals[r].name.start@ == name
            &&& forall|j: int| r < j < count ==> (#[trigger] locals[j]).name.start@ != name
        },
    decreases count,
{
    if count > 0 {
        law_resolve_finds_the_innermost(locals, count - 1, name);
    }
}

/// The same holds of the names that the grammar keeps of the variables.
pub proof fn law_resolve_finds_the_innermost_v(
    locals: Seq<(Seq<char>, i64)>,
    count: int,
    name: Seq<char>,
)
    requires
        0 <= count <= locals.len(),
    ensures
        resolve_v(locals, count, name) == -1 <==> forall|i: int|
            0 <= i < count ==> (#[trigger] locals[i]).0 != name,
        resolve_v(locals, count, name) != -1 ==> {
            let r = resolve_v(locals, count, name);
            &&& 0 <= r < count
            &&& locals[r].0 == name
            &&& forall|j: int| r < j < count ==> (#[trigger] locals[j]).0 != name
        },
    decreases count,
{
    if count > 0 {
        law_resolve_finds_the_innermost_v(locals, count - 1, name);
    }
}

// ---------------------------------------------------------------------------
// Global variables.
// ---------------------------------------------------------------------------

/// Defining a global takes the value off the stack, and reading the name
/// afterwards pushes that value; a later definition of the same name
/// replaces it, and other names keep theirs.
pub proof fn law_global_define_then_get(s: VmState, name: Seq<char>, other: Seq<char>, m: bool)
    requires
        s.stack.len() > 0,
        other != name,
    ensures
        ({
            let (r1, s1) = s.global(GlobalAction::Define(m), name);
            let (r2, s2) = s1.global(GlobalAction::Get, name);
            &&& r1 == StepView::Continue
            &&& s1.stack == s.stack.drop_last()
            &&& r2 == StepView::Continue
            &&& s2.stack == s.stack.drop_last().push(s.stack.last())
            &&& s1.globals.contains_key(other) == s.globals.contains_key(other)
            &&& s.globals.contains_key(other) ==> s1.globals[other] == s.globals[other]
        }),
{
}

/// Assigning to a mutable global keeps the value on the stack and makes it
/// what the name reads; assigning to one declared fixed, or to a name never
/// defined, is a runtime error that empties the stack, and reading a name
/// never defined is one too, reported with the name.
pub proof fn law_global_assign(s: VmState, name: Seq<char>)
    requires
        s.stack.len() > 0,
        s.ip >= 1,
    ensures
        s.globals.contains_key(name) && s.globals[name].1 ==> ({
            let (r1, s1) = s.global(GlobalAction::Assign, name);
            let (r2, s2) = s1.global(GlobalAction::Get, name);
            &&& r1 == StepView::Continue
            &&& s1.stack == s.stack
            &&& s1.globals[name] == (s.stack.last(), true)
            &&& r2 == StepView::Continue
            &&& s2.stack == s.stack.push(s.stack.last())
        }),
        s.globals.contains_key(name) && !s.globals[name].1 ==> (s.global(
            GlobalAction::Assign,
            name,
        ).0 matches StepView::RuntimeError(k, _, _) && k == RuntimeErrorKind::ImmutableVariable
            && s.global(GlobalAction::Assign, name).1.stack.len() == 0
            && s.global(GlobalAction::Assign, name).1.globals == s.globals),
        !s.globals.contains_key(name) ==> (s.global(GlobalAction::Assign, name).0 matches StepView::RuntimeError(
            k,
            _,
            n,
        ) && k == RuntimeErrorKind::UndefinedVariable && n == Some(name)),
        !s.globals.contains_key(name) ==> (s.global(GlobalAction::Get, name).0 matches StepView::RuntimeError(
            k,
            _,
            n,
        ) && k == RuntimeErrorKind::UndefinedVariable && n == Some(name)
            && s.global(GlobalAction::Get, name).1.stack.len() == 0),
{
}

// ---------------------------------------------------------------------------
// Reading tokens.
// ---------------------------------------------------------------------------

/// The twelve keywords read as their own kinds of token; every other word
/// is a name.
pub proof fn law_keywords(w: Seq<char>)
    ensures
        keyword_kind(seq!['t', 'r', 'u', 'e']) == TokenType::Ttrue,
        keyword_kind(seq!['f', 'a', 'l', 's', 'e']) == TokenType::Tfalse,
        keyword_kind(seq!['p', 'r', 'i', 'n', 't']) == TokenType::Tprint,
        keyword_kind(seq!['s', 'e', 't']) == TokenType::Tset,
        keyword_kind(seq!['i', 'f']) == TokenType::Tif,
        keyword_kind(seq!['e', 'l', 's', 'e']) == TokenType::Telse,
        keyword_kind(seq!['f', 'i', 'x']) == TokenType::Tfix,
        keyword_kind(seq!['a', 'n', 'd']) == TokenType::Tand,
        keyword_kind(seq!['o', 'r']) == TokenType::Tor,
        keyword_kind(seq!['w', 'h', 'i', 'l', 'e']) == TokenType::Twhile,
        keyword_kind(seq!['l', 'o', 'o', 'p']) == TokenType::Tloop,
        keyword_kind(seq!['s', 't', 'o', 'p']) == TokenType::Tstop,
        w != seq!['t', 'r', 'u', 'e'] && w != seq!['f', 'a', 'l', 's', 'e'] && w != seq![
            'p',
            'r',
            'i',
            'n',
            't',
        ] && w != seq!['s', 'e', 't'] && w != seq!['i', 'f'] && w != seq!['e', 'l', 's', 'e']
            && w != seq!['f', 'i', 'x'] && w != seq!['a', 'n', 'd'] && w != seq!['o', 'r'] && w
            != seq!['w', 'h', 'i', 'l', 'e'] && w != seq!['l', 'o', 'o', 'p'] && w != seq![
            's',
            't',
            'o',
            'p',
        ] ==> keyword_kind(w) == TokenType::Tid,
{
}

/// An operator that can be followed by a second character reads both when
/// the second one is there (`//`, `==`, `!=`, `>=`, `<=`) and only itself
/// otherwise; the one-character operators read one character.
pub proof fn law_operator_tokens(s: Seq<char>, p: nat)
    requires
        p < s.len(),
    ensures
        s[p as int] == '/' ==> token_kind(s, p) == (if char_at(s, p + 1int) == '/' {
            TokenType::TdivdivOp
        } else {
            TokenType::TdivOp
        }) && lexeme_end(s, p) == p + (if char_at(s, p + 1int) == '/' { 2int } else { 1int }),
        s[p as int] == '=' ==> token_kind(s, p) == (if char_at(s, p + 1int) == '=' {
            TokenType::TeqEq
        } else {
            TokenType::Teq
        }) && lexeme_end(s, p) == p + (if char_at(s, p + 1int) == '=' { 2int } else { 1int }),
        s[p as int] == '!' ==> token_kind(s, p) == (if char_at(s, p + 1int) == '=' {
            TokenType::TnotEq
        } else {
            TokenType::Tnot
        }) && lexeme_end(s, p) == p + (if char_at(s, p + 1int) == '=' { 2int } else { 1int }),
        s[p as int] == '<' ==> token_kind(s, p) == (if char_at(s, p + 1int) == '=' {
            TokenType::Tlte
        } else {
            TokenType::Tlt
        }) && lexeme_end(s, p) == p + (if char_at(s, p + 1int) == '=' { 2int } else { 1int }),
        s[p as int] == '>' ==> token_kind(s, p) == (if char_at(s, p + 1int) == '=' {
            TokenType::Tgte
        } else {
            TokenType::Tgt
        }) && lexeme_end(s, p) == p + (if char_at(s, p + 1int) == '=' { 2int } else { 1int }),
        s[p as int] == '+' ==> token_kind(s, p) == TokenType::Tplus && lexeme_end(s, p) == p + 1,
        s[p as int] == '-' ==> token_kind(s, p) == TokenType::Tminus && lexeme_end(s, p) == p + 1,
        s[p as int] == '*' ==> token_kind(s, p) == TokenType::TmulOp && lexeme_end(s, p) == p + 1,
        s[p as int] == '%' ==> token_kind(s, p) == TokenType::TmodOp && lexeme_end(s, p) == p + 1,
        s[p as int] == '^' ==> token_kind(s, p) == TokenType::TpowOp && lexeme_end(s, p) == p + 1,
{
}

// ---------------------------------------------------------------------------
// Printing integers.
// ---------------------------------------------------------------------------

/// The number a sequence of decimal digits stands for.
pub open spec fn value_of_digits(s: Seq<char>) -> int
    decreases s.len(),
{
    if s.len() == 0 {
        0
    } else {
        10 * value_of_digits(s.drop_last()) + (s.last() as int - '0' as int)
    }
}

/// The digits of a number are decimal digits, the first is not `0` unless
/// the number is zero, and read back they give the number.
pub proof fn law_digits_read_back(n: nat)
    ensures
        digits(n).len() > 0,
        forall|i: int| 0 <= i < digits(n).len() ==> '0' <= #[trigger] digits(n)[i] <= '9',
        n > 0 ==> digits(n)[0] != '0',
        value_of_digits(digits(n)) == n,
    decreases n,
{
    if n >= 10 {
        law_digits_read_back(n / 10);
        let s = digits(n / 10);
        let d = (n % 10) as nat;
        lemma_digit_char_value(d);
        assert(digits(n) == s.push(digit_char(d)));
        assert(digits(n).drop_last() =~= s);
        assert(digits(n)[0] == s[0]);
        assert(digits(n).last() == digit_char(d));
        assert(value_of_digits(digits(n)) == 10 * value_of_digits(s) + (digit_char(d) as int
            - '0' as int));
        assert(n == 10 * (n / 10) + d);
    } else {
        lemma_digit_char_value(n);
        assert(digits(n).drop_last() =~= Seq::<char>::empty());
        assert(value_of_digits(Seq::<char>::empty()) == 0);
        assert(digits(n).last() == digit_char(n));
        assert(value_of_digits(digits(n)) == 10 * value_of_digits(Seq::<char>::empty()) + (
        digit_char(n) as int - '0' as int));
    }
}

proof fn lemma_digit_char_value(d: nat)
    requires
        d < 10,
    ensures
        digit_char(d) as int - '0' as int == d,
        '0' <= digit_char(d) <= '9',
{
}

/// An integer prints in decimal: a non-negative one as its digits, a
/// negative one as `-` and the digits of its size; booleans print as
/// `true` and `false`, and a string as itself.
pub proof fn law_printed_integers(i: i64, b: bool, t: Seq<char>)
    ensures
        display_of(ValueView::Int(i)) == Some(decimal(i as int)),
        i >= 0 ==> value_of_digits(decimal(i as int)) == i && decimal(i as int)[0] != '-',
        i < 0 ==> decimal(i as int)[0] == '-' && value_of_digits(decimal(i as int).subrange(
            1,
            decimal(i as int).len() as int,
        )) == -i,
        display_of(ValueView::Bool(b)) == Some(if b { seq!['t', 'r', 'u', 'e'] } else { seq!['f', 'a', 'l', 's', 'e'] }),
        display_of(ValueView::Str(t)) == Some(t),
{
    if i >= 0 {
        law_digits_read_back(i as nat);
        assert('0' <= decimal(i as int)[0] <= '9');
    } else {
        law_digits_read_back((-i) as nat);
        assert(decimal(i as int).subrange(1, decimal(i as int).len() as int) =~= digits((-i) as nat));
    }
    reveal_strlit("true");
    reveal_strlit("false");
}

// ---------------------------------------------------------------------------
// Instructions that move values.
// ---------------------------------------------------------------------------

/// A constant instruction pushes the constant its operand names and moves
/// past the operand; printing shows the top value and takes it off; popping
/// takes it off.
pub proof fn law_constants_print_pop(s: VmState)
    requires
        0 <= s.ip < s.code.len(),
        s.code[s.ip] < s.constants.len(),
        s.stack.len() > 0,
    ensures
        s.run_op(OpCode::OpC).0 == StepView::Continue,
        s.run_op(OpCode::OpC).1.ip == s.ip + 1,
        s.run_op(OpCode::OpC).1.stack == s.stack.push(s.constants[s.code[s.ip] as int]),
        s.run_op(OpCode::OpPrint).0 == StepView::Print(s.stack.last()),
        s.run_op(OpCode::OpPrint).1.stack == s.stack.drop_last(),
        s.run_op(OpCode::OpPop).0 == StepView::Continue,
        s.run_op(OpCode::OpPop).1.stack == s.stack.drop_last(),
        s.run_op(OpCode::OpPop).1.ip == s.ip && s.run_op(OpCode::OpPrint).1.ip == s.ip,
{
}

/// Reading a local pushes a copy of the value in its slot; setting a local
/// writes the top value into its slot, keeps it on top, and leaves every
/// other slot as it was.
pub proof fn law_locals_read_and_write(s: VmState)
    requires
        0 <= s.ip < s.code.len(),
        s.code[s.ip] < s.stack.len(),
    ensures
        s.run_op(OpCode::OpGetLocal).0 == StepView::Continue,
        s.run_op(OpCode::OpGetLocal).1.stack == s.stack.push(s.stack[s.code[s.ip] as int]),
        s.run_op(OpCode::OpSetLocal).0 == StepView::Continue,
        s.run_op(OpCode::OpSetLocal).1.stack.len() == s.stack.len(),
        s.run_op(OpCode::OpSetLocal).1.stack[s.code[s.ip] as int] == s.stack.last(),
        s.run_op(OpCode::OpSetLocal).1.stack.last() == s.stack.last(),
        forall|j: int|
            0 <= j < s.stack.len() && j != s.code[s.ip] ==> #[trigger] s.run_op(
                OpCode::OpSetLocal,
            ).1.stack[j] == s.stack[j],
        s.run_op(OpCode::OpGetLocal).1.ip == s.ip + 1 && s.run_op(OpCode::OpSetLocal).1.ip == s.ip
            + 1,
{
}

/// A jump moves forward by its distance from just after the distance, a
/// loop moves back by it; neither touches the stack.
pub proof fn law_jumps(s: VmState)
    requires
        0 <= s.ip,
        s.ip + 2 <= s.code.len(),
        s.ip + 2 + short_of(s.code[s.ip], s.code[s.ip + 1]) <= usize::MAX,
        short_of(s.code[s.ip], s.code[s.ip + 1]) <= s.ip + 2,
    ensures
        s.run_op(OpCode::OpJump).0 == StepView::Continue,
        s.run_op(OpCode::OpJump).1.ip == s.ip + 2 + short_of(s.code[s.ip], s.code[s.ip + 1]),
        s.run_op(OpCode::OpJump).1.stack == s.stack,
        s.run_op(OpCode::OpLoop).0 == StepView::Continue,
        s.run_op(OpCode::OpLoop).1.ip == s.ip + 2 - short_of(s.code[s.ip], s.code[s.ip + 1]),
        s.run_op(OpCode::OpLoop).1.stack == s.stack,
{
}

// ---------------------------------------------------------------------------
// What statements and operators compile to.
// ---------------------------------------------------------------------------

/// A print statement and an expression statement read the same text and
/// compile the expression the same way; the first then prints the value,
/// the second drops it.
pub proof fn law_print_and_expression_statements(src: Seq<char>, st: PState)
    ensures
        s_print(src, st) is Ok <==> s_expr_stmt(src, st) is Ok,
        s_print(src, st) is Ok ==> ({
            let a = s_print(src, st)->Ok_0;
            let b = s_expr_stmt(src, st)->Ok_0;
            &&& a.code.len() == b.code.len()
            &&& a.code.drop_last() == b.code.drop_last()
            &&& a.code.last() == op_byte(OpCode::OpPrint)
            &&& b.code.last() == op_byte(OpCode::OpPop)
            &&& a.pos == b.pos
        }),
{
    if s_print(src, st) is Ok {
        let a = s_print(src, st)->Ok_0;
        let b = s_expr_stmt(src, st)->Ok_0;
        assert(a.code.drop_last() =~= b.code.drop_last());
    }
}

/// A prefix `-` compiles its operand and then negates it; a prefix `!`
/// compiles its operand and then takes its opposite. The operand binds at
/// least as tightly as a prefix operator.
pub proof fn law_prefix_operators(src: Seq<char>, st: PState, ca: bool)
    requires
        st.prev.token_type == TokenType::Tminus || st.prev.token_type == TokenType::Tnot,
    ensures
        s_dispatch(src, st, ParseFn::Unary, ca) is Ok <==> s_parse(src, st, Precedence::Unary) is Ok,
        s_dispatch(src, st, ParseFn::Unary, ca) is Ok ==> ({
            let a = s_dispatch(src, st, ParseFn::Unary, ca)->Ok_0;
            let e = s_parse(src, st, Precedence::Unary)->Ok_0;
            &&& a.code == e.code.push(
                if st.prev.token_type == TokenType::Tminus {
                    op_byte(OpCode::OpNegate)
                } else {
                    op_byte(OpCode::OpNot)
                },
            )
            &&& a.pos == e.pos
        }),
{
    if s_dispatch(src, st, ParseFn::Unary, ca) is Ok {
        let e = s_parse(src, st, Precedence::Unary)->Ok_0;
        assert(e.code + seq![op_byte(OpCode::OpNegate)] =~= e.code.push(op_byte(OpCode::OpNegate)));
        assert(e.code + seq![op_byte(OpCode::OpNot)] =~= e.code.push(op_byte(OpCode::OpNot)));
    }
}

/// A binary operator compiles its right operand, made only of operators
/// that bind more tightly than itself (so operators of one precedence group
/// to the left: `a - b - c` is `(a - b) - c`), and then the instruction of
/// the operator.
pub proof fn law_binary_operators(src: Seq<char>, st: PState, ca: bool)
    requires
        binary_opcode(st.prev.token_type) is Some,
    ensures
        level(stronger(rules_of(st.prev.token_type).prec)) == level(rules_of(
            st.prev.token_type,
        ).prec) + 1,
        s_dispatch(src, st, ParseFn::Binary, ca) is Ok <==> s_parse(
            src,
            st,
            stronger(rules_of(st.prev.token_type).prec),
        ) is Ok,
        s_dispatch(src, st, ParseFn::Binary, ca) is Ok ==> ({
            let a = s_dispatch(src, st, ParseFn::Binary, ca)->Ok_0;
            let e = s_parse(src, st, stronger(rules_of(st.prev.token_type).prec))->Ok_0;
            &&& a.code == e.code.push(op_byte(binary_opcode(st.prev.token_type)->Some_0))
            &&& a.pos == e.pos
        }),
{
    if s_dispatch(src, st, ParseFn::Binary, ca) is Ok {
        let e = s_parse(src, st, stronger(rules_of(st.prev.token_type).prec))->Ok_0;
        let b = op_byte(binary_opcode(st.prev.token_type)->Some_0);
        assert(e.code + seq![b] =~= e.code.push(b));
    }
}

// ---------------------------------------------------------------------------
// Literals.
// ---------------------------------------------------------------------------

proof fn lemma_values_agree(s: Seq<char>)
    ensures
        decimal_value(s) == value_of_digits(s),
    decreases s.len(),
{
    if s.len() > 0 {
        lemma_values_agree(s.drop_last());
    }
}

/// An integer literal spells the number it is read as: the printed form of
/// any integer that is not negative reads back as that integer.
pub proof fn law_integer_literals_read_back(n: i64)
    requires
        n >= 0,
    ensures
        int_literal(decimal(n as int)) == Some(n),
{
    law_digits_read_back(n as nat);
    lemma_values_agree(digits(n as nat));
    let d = digits(n as nat);
    assert forall|i: int| 0 <= i < d.len() implies crate::scanner::is_digit(#[trigger] d[i]) by {
        assert('0' <= d[i] <= '9');
    }
    assert(all_digits(d));
}

/// A literal adds its value to the constants and compiles to a constant
/// instruction whose operand is the index of that value: an integer
/// literal its number, a string literal its text without the quotes, `true`
/// and `false` their booleans.
pub proof fn law_literals_load_their_value(st: PState, f: ParseFn)
    requires
        st.consts.len() <= 255,
        f == ParseFn::IntNum && int_literal(st.prev.text) is Some || f == ParseFn::Strings
            && st.prev.text.len() >= 2 || f == ParseFn::BoolTrue || f == ParseFn::BoolFalse,
    ensures
        s_literal(st, f) is Ok,
        ({
            let a = s_literal(st, f)->Ok_0;
            let v = match f {
                ParseFn::IntNum => ValueView::Int(int_literal(st.prev.text)->Some_0),
                ParseFn::Strings => ValueView::Str(
                    st.prev.text.subrange(1, st.prev.text.len() - 1),
                ),
                ParseFn::BoolTrue => ValueView::Bool(true),
                _ => ValueView::Bool(false),
            };
            &&& a.code == st.code + seq![op_byte(OpCode::OpC), st.consts.len() as u8]
            &&& a.consts == st.consts.push(v)
            &&& a.consts[a.code.last() as int] == v
        }),
{
}

/// Reading a name compiles to reading the innermost local variable of that
/// name, by its slot, when one is in scope and its initializer is done;
/// when none is, to reading the global variable whose name is added to the
/// constants.
pub proof fn law_names_read_the_innermost_variable(
    src: Seq<char>,
    st: PState,
    name: Seq<char>,
    ca: bool,
)
    requires
        0 <= st.count <= st.locals.len(),
        st.count <= 256,
        st.consts.len() <= 255,
        !(ca && st.cur.token_type == TokenType::Teq),
    ensures
        (exists|i: int| 0 <= i < st.count && (#[trigger] st.locals[i]).0 == name) ==> ({
            let r = resolve_v(st.locals, st.count, name);
            &&& 0 <= r < st.count
            &&& st.locals[r].0 == name
            &&& forall|j: int| r < j < st.count ==> (#[trigger] st.locals[j]).0 != name
            &&& st.locals[r].1 != -1 ==> s_named(src, st, name, ca) == Ok::<PState, Stop>(
                s_emit(st, seq![op_byte(OpCode::OpGetLocal), r as u8]),
            )
            &&& st.locals[r].1 != -1 ==> s_named(src, st, name, ca)->Ok_0.code.last() as int == r
        }),
        (forall|i: int| 0 <= i < st.count ==> (#[trigger] st.locals[i]).0 != name) ==> ({
            let a = s_named(src, st, name, ca)->Ok_0;
            &&& s_named(src, st, name, ca) is Ok
            &&& a.code == st.code + seq![op_byte(OpCode::OpGetGlobal), st.consts.len() as u8]
            &&& a.consts == st.consts.push(ValueView::Str(name))
            &&& a.consts[a.code.last() as int] == ValueView::Str(name)
        }),
{
    law_resolve_finds_the_innermost_v(st.locals, st.count, name);
}

// ---------------------------------------------------------------------------
// Leaving a block.
// ---------------------------------------------------------------------------

/// Leaving the block at `depth + 1` drops exactly the run of last variables
/// declared deeper than `depth`: all of them, and not the variable before
/// them, which belongs to an enclosing block. One drop instruction is
/// emitted for each.
pub proof fn law_leaving_a_block_drops_its_variables(locals: Seq<Local>, count: int, depth: int)
    requires
        0 <= count <= locals.len(),
    ensures
        dropped(locals, count, depth) <= count,
        forall|j: int|
            count - dropped(locals, count, depth) <= j < count ==> (#[trigger] locals[j]).depth
                > depth,
        count - dropped(locals, count, depth) > 0 ==> locals[count - dropped(locals, count, depth)
            - 1].depth <= depth,
        pops_code(dropped(locals, count, depth)).len() == dropped(locals, count, depth),
        forall|j: int|
            0 <= j < dropped(locals, count, depth) ==> #[trigger] pops_code(
                dropped(locals, count, depth),
            )[j] == op_byte(OpCode::OpPop),
    decreases count,
{
    if count > 0 {
        law_leaving_a_block_drops_its_variables(locals, count - 1, depth);
    }
}

/// The same holds of the names and depths that the grammar keeps.
pub proof fn law_leaving_a_block_drops_its_variables_v(
    locals: Seq<(Seq<char>, i64)>,
    count: int,
    depth: int,
)
    requires
        0 <= count <= locals.len(),
    ensures
        dropped_v(locals, count, depth) <= count,
        forall|j: int|
            count - dropped_v(locals, count, depth) <= j < count ==> (#[trigger] locals[j]).1
                > depth,
        count - dropped_v(locals, count, depth) > 0 ==> locals[count - dropped_v(
            locals,
            count,
            depth,
        ) - 1].1 <= depth,
    decreases count,
{
    if count > 0 {
        law_leaving_a_block_drops_its_variables_v(locals, count - 1, depth);
    }
}

} // verus!
