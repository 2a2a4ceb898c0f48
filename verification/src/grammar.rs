use vstd::prelude::*;
use crate::chunk_values::{op_byte, OpCode, ValueView};
use crate::compiler::{
    advanced, binary_opcode, grew, declared_here, jump_bytes, dropped, int_literal, level, measure, pwf,
    records_error, resolve, rules_of, stronger, FloatLiteral, Local, ParseFn, Parser,
    Precedence,
};
use crate::scanner::{
    good_token_start, lexeme_end, skip_trivia, token_at, token_kind, TokenType, TokenView,
};

verus! {

// ---------------------------------------------------------------------------
// The grammar of the language, as the code and constants it compiles to.
//
// Each function below takes the state of compilation before a piece of the
// program and gives the state after it, or `None` when the piece does not
// compile: an error is recorded, or the program cannot be compiled at all.
// ---------------------------------------------------------------------------

/// The state of compilation: the scanner's position, the current and the
/// previous token, the code with its lines, the constants, and the
/// variables in scope.
pub struct PState {
    pub pos: nat,
    pub cur: TokenView,
    pub prev: TokenView,
    pub code: Seq<u8>,
    pub lines: Seq<usize>,
    pub consts: Seq<ValueView>,
    pub floats: Seq<(usize, Seq<char>)>,
    pub locals: Seq<(Seq<char>, i64)>,
    pub count: int,
    pub depth: int,
}

/// The variables, by name and depth.
pub open spec fn lview(l: Seq<Local>) -> Seq<(Seq<char>, i64)> {
    l.map_values(|x: Local| (x.name.start@, x.depth))
}

/// The innermost variable among the first `count` named `name`, or -1.
pub open spec fn resolve_v(locals: Seq<(Seq<char>, i64)>, count: int, name: Seq<char>) -> int
    decreases count,
{
    if count <= 0 {
        -1
    } else if locals[count - 1].0 == name {
        count - 1
    } else {
        resolve_v(locals, count - 1, name)
    }
}

/// Whether `name` is declared in the scope at `depth`, among the first
/// `count` variables.
pub open spec fn declared_here_v(
    locals: Seq<(Seq<char>, i64)>,
    count: int,
    depth: int,
    name: Seq<char>,
) -> bool
    decreases count,
{
    if count <= 0 {
        false
    } else if locals[count - 1].1 != -1 && locals[count - 1].1 < depth {
        false
    } else if locals[count - 1].0 == name {
        true
    } else {
        declared_here_v(locals, count - 1, depth, name)
    }
}

/// How many variables leaving the scope at `depth` drops.
pub open spec fn dropped_v(locals: Seq<(Seq<char>, i64)>, count: int, depth: int) -> nat
    decreases count,
{
    if count > 0 && locals[count - 1].1 > depth {
        1 + dropped_v(locals, count - 1, depth)
    } else {
        0
    }
}

pub proof fn lemma_lview(l: Seq<Local>, count: int, depth: int, name: Seq<char>)
    requires
        count <= l.len(),
    ensures
        resolve(l, count, name) == resolve_v(lview(l), count, name),
        declared_here(l, count, depth, name) == declared_here_v(lview(l), count, depth, name),
        dropped(l, count, depth) == dropped_v(lview(l), count, depth),
    decreases count,
{
    if count > 0 {
        lemma_lview(l, count - 1, depth, name);
    }
}

/// The float literals, by constant index and text.
pub open spec fn fview(f: Seq<FloatLiteral>) -> Seq<(usize, Seq<char>)> {
    f.map_values(|x: FloatLiteral| (x.index, x.text@))
}

/// The state of a parser.
pub open spec fn pview(p: &Parser) -> PState {
    PState {
        pos: p.scanner.current as nat,
        cur: p.current@,
        prev: p.previous@,
        code: p.chunk.code@,
        lines: p.chunk.line@,
        consts: p.chunk.constants(),
        floats: fview(p.float_literals@),
        locals: lview(p.compiler.locals@),
        count: p.compiler.local_count as int,
        depth: p.compiler.scope_depth as int,
    }
}

/// The placeholder token a new parser starts with.
pub open spec fn placeholder() -> TokenView {
    TokenView { token_type: TokenType::Teof, text: Seq::empty(), len: 0, line: 0 }
}

/// The state of a new parser over a chunk with the given code, lines and
/// constants.
pub open spec fn start_state(code: Seq<u8>, lines: Seq<usize>, consts: Seq<ValueView>) -> PState {
    PState {
        pos: 0,
        cur: placeholder(),
        prev: placeholder(),
        code,
        lines,
        consts,
        floats: Seq::empty(),
        locals: Seq::empty(),
        count: 0,
        depth: 0,
    }
}

/// No error has been recorded and nothing stopped the compiler.
pub open spec fn clean(p: &Parser) -> bool {
    !p.had_err && p.fault is None
}

/// Why a piece of the program does not compile: the first error recorded,
/// at a token and with a message, or a program that the compiler cannot
/// take at all (an integer literal out of range, or a block that drops
/// more than 255 variables).
pub enum Stop {
    Error(TokenView, Seq<char>),
    Fault,
}

/// Going from `a` to `b` is what the grammar gives, `r`: starting clean,
/// `b` is clean exactly when `r` is a state, and then `b` is in it.
pub open spec fn follows(a: &Parser, b: &Parser, r: Result<PState, Stop>) -> bool {
    clean(a) ==> match r {
        Ok(st) => clean(b) && pview(b) == st,
        Err(Stop::Error(t, m)) => {
            &&& !clean(b)
            &&& b.errors@.len() > 0
            &&& b.errors@[0].token@ == t
            &&& b.errors@[0].message@ == m
            &&& (b.fault matches Some(k) ==> k >= 1)
        },
        Err(Stop::Fault) => !clean(b) && b.fault == Some(0usize),
    }
}

/// What is left to read.
pub open spec fn smeasure(src: Seq<char>, st: PState) -> int {
    if st.pos > src.len() {
        0
    } else {
        (src.len() - st.pos) + if st.cur.token_type == TokenType::Teof {
            0int
        } else {
            1int
        }
    }
}

/// Reading the next token; an error token does not compile.
pub open spec fn s_adv(src: Seq<char>, st: PState) -> Result<PState, Stop> {
    let p0 = skip_trivia(src, st.pos);
    if p0 < src.len() && token_kind(src, p0) == TokenType::Terr {
        Err(Stop::Error(token_at(src, p0), token_at(src, p0).text))
    } else {
        Ok(PState { prev: st.cur, cur: token_at(src, p0), pos: lexeme_end(src, p0), ..st })
    }
}

/// Reading the next token when it is of kind `t`; else an error.
pub open spec fn s_consume(src: Seq<char>, st: PState, t: TokenType, msg: Seq<char>) -> Result<PState, Stop> {
    if st.cur.token_type == t {
        s_adv(src, st)
    } else {
        Err(Stop::Error(st.cur, msg))
    }
}

/// Appending bytes, each at the line of the previous token.
pub open spec fn s_emit(st: PState, bytes: Seq<u8>) -> PState {
    PState {
        code: st.code + bytes,
        lines: st.lines + Seq::new(bytes.len(), |i: int| st.prev.line),
        ..st
    }
}

/// Adding a constant; past 256 constants an error.
pub open spec fn s_add_const(st: PState, v: ValueView) -> Result<PState, Stop> {
    if st.consts.len() > 255 {
        Err(Stop::Error(st.prev, "Too many constants in one chunk."@))
    } else {
        Ok(PState { consts: st.consts.push(v), ..st })
    }
}

/// Loading a constant: it is added and an `OpC` with its index follows.
pub open spec fn s_emit_const(st: PState, v: ValueView) -> Result<PState, Stop> {
    match s_add_const(st, v) {
        Ok(st1) => Ok(s_emit(st1, seq![op_byte(OpCode::OpC), st.consts.len() as u8])),
        Err(e) => Err(e),
    }
}

/// A literal, the token just read.
pub open spec fn s_literal(st: PState, f: ParseFn) -> Result<PState, Stop> {
    let text = st.prev.text;
    match f {
        ParseFn::IntNum => match int_literal(text) {
            Some(v) => s_emit_const(st, ValueView::Int(v)),
            None => Err(Stop::Fault),
        },
        ParseFn::FloatNum => match s_emit_const(st, ValueView::Float(0)) {
            Ok(st1) => Ok(
                PState { floats: st.floats.push((st.consts.len() as usize, text)), ..st1 },
            ),
            Err(e) => Err(e),
        },
        ParseFn::Strings => if text.len() >= 2 {
            s_emit_const(st, ValueView::Str(text.subrange(1, text.len() - 1)))
        } else {
            Err(Stop::Fault)
        },
        ParseFn::BoolTrue => s_emit_const(st, ValueView::Bool(true)),
        _ => s_emit_const(st, ValueView::Bool(false)),
    }
}

/// A variable named `name`, just read: a local by its slot (not while its
/// own initializer is compiled), else a global by a constant holding its
/// name; an assignment when `=` follows and assignment is allowed.
pub open spec fn s_named(src: Seq<char>, st: PState, name: Seq<char>, ca: bool) -> Result<PState, Stop>
    decreases smeasure(src, st), 2int,
{
    let r = resolve_v(st.locals, st.count, name);
    if r >= 0 && st.locals[r].1 == -1 {
        Err(Stop::Error(st.prev, "Can't read local variable in its own initializer."@))
    } else {
        let st1 = if r >= 0 {
            Ok(st)
        } else {
            s_add_const(st, ValueView::Str(name))
        };
        let (get_op, set_op, arg) = if r >= 0 {
            (op_byte(OpCode::OpGetLocal), op_byte(OpCode::OpSetLocal), r as u8)
        } else {
            (op_byte(OpCode::OpGetGlobal), op_byte(OpCode::OpSetGlobal), st.consts.len() as u8)
        };
        match st1 {
            Err(e) => Err(e),
            Ok(st1) => if ca && st1.cur.token_type == TokenType::Teq {
                match s_adv(src, st1) {
                    Err(e) => Err(e),
                    Ok(st2) => if smeasure(src, st2) < smeasure(src, st) {
                        match s_parse(src, st2, Precedence::Assignment) {
                            Ok(st3) => Ok(s_emit(st3, seq![set_op, arg])),
                            Err(e) => Err(e),
                        }
                    } else {
                        Err(Stop::Fault)
                    },
                }
            } else {
                Ok(s_emit(st1, seq![get_op, arg]))
            },
        }
    }
}

/// The parsing function `f` for the token just read.
pub open spec fn s_dispatch(src: Seq<char>, st: PState, f: ParseFn, ca: bool) -> Result<PState, Stop>
    decreases smeasure(src, st), 3int,
{
    match f {
        ParseFn::Grouping => match s_parse(src, st, Precedence::Assignment) {
            Ok(st1) => s_consume(src, st1, TokenType::Trp, "Expect ')' after expression."@),
            Err(e) => Err(e),
        },
        ParseFn::Unary => {
            let optype = st.prev.token_type;
            match s_parse(src, st, Precedence::Unary) {
                Ok(st1) => if optype == TokenType::Tminus {
                    Ok(s_emit(st1, seq![op_byte(OpCode::OpNegate)]))
                } else if optype == TokenType::Tnot {
                    Ok(s_emit(st1, seq![op_byte(OpCode::OpNot)]))
                } else {
                    Err(Stop::Error(st1.prev, "unsupported operand."@))
                },
                Err(e) => Err(e),
            }
        },
        ParseFn::Binary => {
            let optype = st.prev.token_type;
            match s_parse(src, st, stronger(rules_of(optype).prec)) {
                Ok(st1) => match binary_opcode(optype) {
                    Some(op) => Ok(s_emit(st1, seq![op_byte(op)])),
                    None => Err(Stop::Fault),
                },
                Err(e) => Err(e),
            }
        },
        ParseFn::Variable => s_named(src, st, st.prev.text, ca),
        _ => s_literal(st, f),
    }
}

/// Infix operators binding at least as strongly as `prec`, after an
/// operand.
pub open spec fn s_infix(src: Seq<char>, st: PState, prec: Precedence, ca: bool) -> Result<PState, Stop>
    decreases smeasure(src, st), 0int,
{
    if level(prec) <= level(rules_of(st.cur.token_type).prec) {
        match s_adv(src, st) {
            Err(e) => Err(e),
            Ok(st1) => if smeasure(src, st1) < smeasure(src, st) {
                let st2 = match rules_of(st1.prev.token_type).infix {
                    Some(f) => s_dispatch(src, st1, f, ca),
                    None => Ok(st1),
                };
                match st2 {
                    Err(e) => Err(e),
                    Ok(st2) => if smeasure(src, st2) < smeasure(src, st) {
                        s_infix(src, st2, prec, ca)
                    } else {
                        Err(Stop::Fault)
                    },
                }
            } else {
                Err(Stop::Fault)
            },
        }
    } else {
        Ok(st)
    }
}

/// An expression whose operators bind at least as strongly as `prec`: a
/// token with a prefix rule and what it parses, then infix operators; a
/// token with no prefix rule is no expression, and `=` after it, where
/// assignment is allowed, is no assignment target.
pub open spec fn s_parse(src: Seq<char>, st: PState, prec: Precedence) -> Result<PState, Stop>
    decreases smeasure(src, st), 1int,
{
    let ca = level(prec) <= 1;
    match s_adv(src, st) {
        Err(e) => Err(e),
        Ok(st1) => match rules_of(st1.prev.token_type).prefix {
            None => Err(Stop::Error(st1.prev, "Expect expression."@)),
            Some(f) => if smeasure(src, st1) < smeasure(src, st) {
                match s_dispatch(src, st1, f, ca) {
                    Err(e) => Err(e),
                    Ok(st2) => if smeasure(src, st2) < smeasure(src, st) {
                        match s_infix(src, st2, prec, ca) {
                            Err(e) => Err(e),
                            Ok(st3) => if ca && st3.cur.token_type == TokenType::Teq {
                                match s_adv(src, st3) {
                                    Err(e) => Err(e),
                                    Ok(st4) => Err(Stop::Error(st4.prev, "Invalid assignment target."@)),
                                }
                            } else {
                                Ok(st3)
                            },
                        }
                    } else {
                        Err(Stop::Fault)
                    },
                }
            } else {
                Err(Stop::Fault)
            },
        },
    }
}

/// `print` expression `;`, after the `print`.
pub open spec fn s_print(src: Seq<char>, st: PState) -> Result<PState, Stop> {
    match s_parse(src, st, Precedence::Assignment) {
        Err(e) => Err(e),
        Ok(st1) => match s_consume(src, st1, TokenType::Tsemicolon, "Expect ';' after value."@) {
            Err(e) => Err(e),
            Ok(st2) => Ok(s_emit(st2, seq![op_byte(OpCode::OpPrint)])),
        },
    }
}

/// expression `;`, whose value is dropped.
pub open spec fn s_expr_stmt(src: Seq<char>, st: PState) -> Result<PState, Stop> {
    match s_parse(src, st, Precedence::Assignment) {
        Err(e) => Err(e),
        Ok(st1) => match s_consume(src, st1, TokenType::Tsemicolon, "Expect ';' after value."@) {
            Err(e) => Err(e),
            Ok(st2) => Ok(s_emit(st2, seq![op_byte(OpCode::OpPop)])),
        },
    }
}

/// Declaring the variable just named: in a block it becomes a local not yet
/// usable (naming one declared in the same block again is an error).
pub open spec fn s_declare(st: PState) -> Result<PState, Stop> {
    if st.depth == 0 {
        Ok(st)
    } else if declared_here_v(st.locals, st.count, st.depth, st.prev.text) {
        Err(Stop::Error(st.prev, "Already a variable with this name in this scope."@))
    } else {
        Ok(PState { locals: st.locals.push((st.prev.text, -1i64)), count: st.count + 1, ..st })
    }
}

/// The name of a variable being declared: declared, and, outside blocks,
/// added to the constants.
pub open spec fn s_parse_var(src: Seq<char>, st: PState, msg: Seq<char>) -> Result<PState, Stop> {
    match s_consume(src, st, TokenType::Tid, msg) {
        Err(e) => Err(e),
        Ok(st1) => match s_declare(st1) {
            Err(e) => Err(e),
            Ok(st2) => if st2.depth > 0 {
                Ok(st2)
            } else {
                s_add_const(st2, ValueView::Str(st2.prev.text))
            },
        },
    }
}

/// Completing a declaration: in a block the last local becomes usable at
/// the current depth; else the global named by constant `global` is
/// defined.
pub open spec fn s_define(st: PState, global: u8) -> PState {
    if st.depth > 0 {
        PState {
            locals: st.locals.update(st.count - 1, (st.locals[st.count - 1].0, st.depth as i64)),
            ..st
        }
    } else {
        s_emit(st, seq![op_byte(OpCode::OpDefGlobal), global])
    }
}

/// `set` name `=` expression `;`, after the `set`.
pub open spec fn s_var_decl(src: Seq<char>, st: PState) -> Result<PState, Stop> {
    match s_parse_var(src, st, "Expect variable name."@) {
        Err(e) => Err(e),
        Ok(st3) => {
            let global = (st3.consts.len() - 1) as u8;
            if st3.cur.token_type == TokenType::Teq {
                match s_adv(src, st3) {
                    Err(e) => Err(e),
                    Ok(st4) => match s_parse(src, st4, Precedence::Assignment) {
                        Err(e) => Err(e),
                        Ok(st5) => match s_consume(src, st5, TokenType::Tsemicolon, "Expect ';' after variable declaration."@) {
                            Err(e) => Err(e),
                            Ok(st6) => Ok(s_define(st6, global)),
                        },
                    },
                }
            } else {
                Err(Stop::Error(st3.prev, "Expect '=' after variable name."@))
            }
        },
    }
}

/// The code of a jump over `len` bytes: the bytes of its distance.
pub open spec fn s_patch(code: Seq<u8>, o: int) -> Seq<u8> {
    let jump = code.len() - o - 2;
    code.update(o, jump_bytes(jump).0).update(o + 1, jump_bytes(jump).1)
}

/// A statement: `print`, `if`, a block, or an expression.
pub open spec fn s_stmt(src: Seq<char>, st: PState) -> Result<PState, Stop>
    decreases smeasure(src, st), 1int,
{
    let t = st.cur.token_type;
    if t == TokenType::Tprint || t == TokenType::Tif || t == TokenType::Tlb {
        match s_adv(src, st) {
            Err(e) => Err(e),
            Ok(st1) => if smeasure(src, st1) < smeasure(src, st) {
                if t == TokenType::Tprint {
                    s_print(src, st1)
                } else if t == TokenType::Tif {
                    s_if(src, st1)
                } else {
                    s_block_stmt(src, st1)
                }
            } else {
                Err(Stop::Fault)
            },
        }
    } else {
        s_expr_stmt(src, st)
    }
}

/// A block, after its `{`: its declarations one scope deeper, then one
/// `OpPop` for each variable declared in it (more than 255 cannot be
/// compiled).
pub open spec fn s_block_stmt(src: Seq<char>, st: PState) -> Result<PState, Stop>
    decreases smeasure(src, st), 5int,
{
    match s_block(src, PState { depth: st.depth + 1, ..st }) {
        Err(e) => Err(e),
        Ok(st3) => {
            let depth = st3.depth - 1;
            let pops = dropped_v(st3.locals, st3.count, depth);
            if pops > 255 {
                Err(Stop::Fault)
            } else {
                Ok(
                    s_emit(
                        PState { depth, count: st3.count - pops, ..st3 },
                        pops_code(pops),
                    ),
                )
            }
        },
    }
}

/// `n` instructions that each drop the top of the stack.
pub open spec fn pops_code(n: nat) -> Seq<u8> {
    Seq::new(n, |i: int| op_byte(OpCode::OpPop))
}

/// `if` condition statement, after the `if`: the condition, a conditional
/// jump, the statement, and the jump set to lead past the statement.
pub open spec fn s_if(src: Seq<char>, st: PState) -> Result<PState, Stop>
    decreases smeasure(src, st), 2int,
{
    match s_parse(src, st, Precedence::Assignment) {
        Err(e) => Err(e),
        Ok(st1) => {
            let st2 = s_emit(st1, seq![op_byte(OpCode::OpJumpIfFalse), 0xffu8, 0xffu8]);
            if smeasure(src, st2) <= smeasure(src, st) {
                match s_stmt(src, st2) {
                    Err(e) => Err(e),
                    Ok(st3) => Ok(PState { code: s_patch(st3.code, st1.code.len() + 1int), ..st3 }),
                }
            } else {
                Err(Stop::Fault)
            }
        },
    }
}

/// A declaration: `set`, or a statement.
pub open spec fn s_decl(src: Seq<char>, st: PState) -> Result<PState, Stop>
    decreases smeasure(src, st), 3int,
{
    if st.cur.token_type == TokenType::Tset {
        match s_adv(src, st) {
            Err(e) => Err(e),
            Ok(st1) => s_var_decl(src, st1),
        }
    } else {
        s_stmt(src, st)
    }
}

/// The declarations of a block up to its `}`.
pub open spec fn s_block(src: Seq<char>, st: PState) -> Result<PState, Stop>
    decreases smeasure(src, st), 4int,
{
    if st.cur.token_type != TokenType::Trb && st.cur.token_type != TokenType::Teof {
        match s_decl(src, st) {
            Err(e) => Err(e),
            Ok(st1) => if smeasure(src, st1) < smeasure(src, st) {
                s_block(src, st1)
            } else {
                Err(Stop::Fault)
            },
        }
    } else {
        s_consume(src, st, TokenType::Trb, "Expect '}' after block."@)
    }
}

/// Declarations up to the end of the text.
pub open spec fn s_program(src: Seq<char>, st: PState) -> Result<PState, Stop>
    decreases smeasure(src, st),
{
    if st.cur.token_type == TokenType::Teof {
        s_adv(src, st)
    } else {
        match s_decl(src, st) {
            Err(e) => Err(e),
            Ok(st1) => if smeasure(src, st1) < smeasure(src, st) {
                s_program(src, st1)
            } else {
                Err(Stop::Fault)
            },
        }
    }
}

/// A whole program: its first token, its declarations, and the return that
/// ends the code.
pub open spec fn s_compile(src: Seq<char>, st: PState) -> Result<PState, Stop> {
    match s_adv(src, st) {
        Err(e) => Err(e),
        Ok(st1) => match s_program(src, st1) {
            Err(e) => Err(e),
            Ok(st2) => Ok(s_emit(st2, seq![op_byte(OpCode::OpR)])),
        },
    }
}

} // verus!

verus! {

/// A step that the grammar gives after one it also gives: the grammar
/// gives both together, and a first error stays the first.
pub proof fn lemma_follows_bind(
    a: &Parser,
    b: &Parser,
    c: &Parser,
    r1: Result<PState, Stop>,
    r2: Result<PState, Stop>,
)
    requires
        pwf(b),
        follows(a, b, r1),
        grew(b, c),
        r1 is Ok && clean(b) ==> follows(b, c, r2),
    ensures
        follows(a, c, match r1 {
            Ok(_) => r2,
            Err(e) => Err(e),
        }),
{
}

/// Recording an error, starting clean, makes it the first error.
pub proof fn lemma_error_follows(a: &Parser, b: &Parser, t: TokenView, m: Seq<char>)
    requires
        pwf(a),
        records_error(a, b, t, m),
    ensures
        follows(a, b, Err(Stop::Error(t, m))),
{
}

/// Reading a token is what the grammar gives.
pub proof fn lemma_advanced_follows(a: &Parser, b: &Parser)
    requires
        pwf(a),
        advanced(a, b),
    ensures
        follows(a, b, s_adv(a.scanner.src(), pview(a))),
{
    let s = a.scanner.src();
    let pos = a.scanner.current as nat;
    crate::scanner::lemma_skip_trivia_bounds(s, pos);
    let p0 = skip_trivia(s, pos);
    if !(p0 < s.len() && token_kind(s, p0) == TokenType::Terr) {
        crate::compiler::lemma_kind_eof(s, p0);
        assert(good_token_start(s, pos) == p0);
    }
}

/// The measure of a parser is that of its state.
pub proof fn lemma_measure(p: &Parser)
    requires
        pwf(p),
    ensures
        smeasure(p.scanner.src(), pview(p)) == measure(p),
{
}

} // verus!

verus! {

} // verus!

verus! {

/// Emitting `k` pops and then one more is emitting `k + 1`.
pub proof fn lemma_emit_more(v: PState, k: nat)
    ensures
        s_emit(s_emit(v, pops_code(k)), seq![op_byte(OpCode::OpPop)]) == s_emit(v, pops_code(k + 1)),
{
    let x = s_emit(s_emit(v, pops_code(k)), seq![op_byte(OpCode::OpPop)]);
    let y = s_emit(v, pops_code(k + 1));
    assert(x.code =~= y.code);
    assert(x.lines =~= y.lines);
}

} // verus!
