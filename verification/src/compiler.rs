use vstd::prelude::*;
use crate::chunk_values::{op_byte, views, Chunk, OpCode, ValueView, Values};
use crate::grammar::{
    clean, follows, lemma_advanced_follows, lemma_error_follows, lemma_follows_bind,
    lemma_measure, pview, s_add_const, s_adv, s_consume, s_dispatch, s_emit, s_emit_const,
    s_infix, s_literal, s_named, s_parse, smeasure, PState, s_print, s_expr_stmt, s_declare,
    s_parse_var, s_define, s_var_decl, s_decl, s_stmt, s_block, s_if, s_program, s_compile,
    s_block_stmt, Stop,
};
use crate::debug::{
    instr_len, jump_target, jumps_land, jumps_land_after, kind_of, lemma_jumps_land_trans,
    lemma_one_instr_jumps_land, lemma_starts_next, lemma_starts_prefix, lemma_starts_refl,
    lemma_starts_split, lemma_starts_suffix, lemma_starts_trans, lemma_starts_unfold,
    lemma_whole_after_trans,
    lemma_whole_agree, lemma_whole_append, lemma_whole_at_start, lemma_whole_end,
    lemma_whole_extend, lemma_whole_reaches_end, lemma_whole_step, lemma_whole_unfold, runnable,
    starts_at, whole_after, whole_from, InstrKind,
};
use vstd::string::StrSliceExecFns;
use crate::scanner::{
    good_token_start, lemma_scan_next, lexeme_end, no_error_token, scan_reaches, skip_trivia,
    token_at, token_kind, Scanner, Token, TokenType,
    TokenView,
};

verus! {

// ---------------------------------------------------------------------------
// Local variables.
// ---------------------------------------------------------------------------

/// A local variable: its name and the scope depth at which it was declared,
/// or -1 while its initializer is being compiled.
#[derive(Debug)]
pub struct Local {
    pub name: Token,
    pub depth: i64,
}

/// The local variables in scope and the current scope depth. The first
/// `local_count` entries of `locals` are the variables in scope.
#[derive(Debug)]
pub struct Compiler {
    pub locals: Vec<Local>,
    pub local_count: i64,
    pub scope_depth: i64,
}

/// The number of variables that leaving the scope at `depth` drops: the run
/// of variables, from the last in scope down, declared deeper than `depth`.
pub open spec fn dropped(locals: Seq<Local>, count: int, depth: int) -> nat
    decreases count,
{
    if count > 0 && locals[count - 1].depth > depth {
        1 + dropped(locals, count - 1, depth)
    } else {
        0
    }
}

/// What scopes change in the compiler: the locals, how many of them are in
/// scope, and the scope depth.
pub open spec fn scope_of(c: &Compiler) -> (Seq<Local>, int, int) {
    (c.locals@, c.local_count as int, c.scope_depth as int)
}

/// Entering a block: one level deeper, nothing else changes.
pub open spec fn entered(s: (Seq<Local>, int, int)) -> (Seq<Local>, int, int) {
    (s.0, s.1, s.2 + 1)
}

/// Leaving a block: one level up, and the variables declared deeper than
/// that go out of scope; with how many they were.
pub open spec fn left(s: (Seq<Local>, int, int)) -> ((Seq<Local>, int, int), nat) {
    let pops = dropped(s.0, s.1, s.2 - 1);
    ((s.0, s.1 - pops, s.2 - 1), pops)
}

impl Compiler {
    pub open spec fn wf(&self) -> bool {
        &&& 0 <= self.local_count <= self.locals@.len()
        &&& self.locals@.len() < i64::MAX
    }

    pub fn new() -> (c: Self)
        ensures
            c.locals@.len() == 0,
            c.local_count == 0,
            c.scope_depth == 0,
            c.wf(),
    {
        Self { locals: Vec::new(), local_count: 0, scope_depth: 0 }
    }

    /// Enters a block.
    pub fn begin_scope(&mut self)
        requires
            old(self).scope_depth < i64::MAX,
        ensures
            scope_of(final(self)) == entered(scope_of(old(self))),
            final(self).scope_depth == old(self).scope_depth + 1,
            final(self).locals == old(self).locals,
            final(self).local_count == old(self).local_count,
    {
        self.scope_depth = self.scope_depth + 1;
    }

    /// Leaves a block: the variables declared in it go out of scope; gives
    /// how many there were.
    pub fn end_scope(&mut self) -> (pops: u64)
        requires
            old(self).wf(),
            old(self).scope_depth > i64::MIN,
        ensures
            final(self).wf(),
            (scope_of(final(self)), pops as nat) == left(scope_of(old(self))),
            final(self).scope_depth == old(self).scope_depth - 1,
            final(self).locals == old(self).locals,
            pops == dropped(old(self).locals@, old(self).local_count as int, old(self).scope_depth - 1),
            final(self).local_count == old(self).local_count - pops,
    {
        self.scope_depth = self.scope_depth - 1;
        let mut pops: u64 = 0;
        loop
            invariant
                self.wf(),
                self.locals == old(self).locals,
                self.scope_depth == old(self).scope_depth - 1,
                0 <= pops <= old(self).local_count,
                self.local_count == old(self).local_count - pops,
                dropped(old(self).locals@, old(self).local_count as int, self.scope_depth as int)
                    == pops + dropped(self.locals@, self.local_count as int, self.scope_depth as int),
            ensures
                self.wf(),
                self.locals == old(self).locals,
                self.scope_depth == old(self).scope_depth - 1,
                self.local_count == old(self).local_count - pops,
                dropped(old(self).locals@, old(self).local_count as int, self.scope_depth as int)
                    == pops,
            decreases self.local_count,
        {
            if self.local_count <= 0 {
                break;
            }
            let n = self.locals.len();
            let i = (self.local_count - 1) as usize;
            assert(i as int == self.local_count - 1);
            let d = self.locals[i].depth;
            if d <= self.scope_depth {
                break;
            }
            pops = pops + 1;
            self.local_count = self.local_count - 1;
        }
        pops
    }

    /// Declares a variable whose initializer is not compiled yet.
    fn add_local(&mut self, name: Token)
        requires
            old(self).wf(),
            old(self).locals@.len() + 1 < i64::MAX,
        ensures
            final(self).wf(),
            final(self).locals@ == old(self).locals@.push(Local { name, depth: -1i64 }),
            final(self).local_count == old(self).local_count + 1,
            final(self).scope_depth == old(self).scope_depth,
    {
        let local = Local { name, depth: -1 };
        self.locals.push(local);
        self.local_count = self.local_count + 1;
    }

    /// Marks the last variable in scope as usable: its depth becomes the
    /// current scope depth.
    fn mark_initialized(&mut self)
        requires
            old(self).wf(),
            old(self).local_count > 0,
        ensures
            final(self).wf(),
            final(self).locals@ == old(self).locals@.update(
                old(self).local_count - 1,
                Local {
                    name: old(self).locals@[old(self).local_count - 1].name,
                    depth: old(self).scope_depth,
                },
            ),
            final(self).local_count == old(self).local_count,
            final(self).scope_depth == old(self).scope_depth,
    {
        let n = self.locals.len();
        let last = (self.local_count - 1) as usize;
        assert(last as int == self.local_count - 1);
        let name = self.locals[last].name.copy();
        let new_local = Local { name, depth: self.scope_depth };
        self.locals.set(last, new_local);
    }
}

/// Whether two names are the same.
pub fn ider_eq(v1: &Token, v2: &Token) -> (b: bool)
    ensures
        b == (v1.start@ == v2.start@),
{
    v1.start == v2.start
}

// ---------------------------------------------------------------------------
// Parse rules.
// ---------------------------------------------------------------------------

/// Binding strength of operators, from weakest to strongest.
#[derive(Debug, Clone, Copy, PartialEq, Eq, Structural)]
pub enum Precedence {
    NoPrec,
    Assignment,
    Eq,
    Comps,
    Terms,
    Factors,
    Unary,
    Call,
    Prime,
}

pub open spec fn level(p: Precedence) -> u8 {
    match p {
        Precedence::NoPrec => 0,
        Precedence::Assignment => 1,
        Precedence::Eq => 2,
        Precedence::Comps => 3,
        Precedence::Terms => 4,
        Precedence::Factors => 5,
        Precedence::Unary => 6,
        Precedence::Call => 7,
        Precedence::Prime => 8,
    }
}

impl Precedence {
    pub fn level(self) -> (l: u8)
        ensures
            l == level(self),
    {
        match self {
            Precedence::NoPrec => 0,
            Precedence::Assignment => 1,
            Precedence::Eq => 2,
            Precedence::Comps => 3,
            Precedence::Terms => 4,
            Precedence::Factors => 5,
            Precedence::Unary => 6,
            Precedence::Call => 7,
            Precedence::Prime => 8,
        }
    }
}

/// The next stronger precedence (the strongest stays).
pub open spec fn stronger(p: Precedence) -> Precedence {
    match p {
        Precedence::NoPrec => Precedence::Assignment,
        Precedence::Assignment => Precedence::Eq,
        Precedence::Eq => Precedence::Comps,
        Precedence::Comps => Precedence::Terms,
        Precedence::Terms => Precedence::Factors,
        Precedence::Factors => Precedence::Unary,
        Precedence::Unary => Precedence::Call,
        Precedence::Call => Precedence::Prime,
        Precedence::Prime => Precedence::Prime,
    }
}

/// The parsing functions a rule can name.
#[derive(Debug, Clone, Copy, PartialEq, Eq, Structural)]
pub enum ParseFn {
    Grouping,
    Unary,
    Binary,
    IntNum,
    FloatNum,
    Strings,
    Variable,
    BoolTrue,
    BoolFalse,
}

/// How a token is parsed at the start of an expression, how after an
/// operand, and how strongly it binds there.
#[derive(Debug, Clone, Copy, PartialEq, Eq, Structural)]
pub struct ParseRules {
    pub prefix: Option<ParseFn>,
    pub infix: Option<ParseFn>,
    pub prec: Precedence,
}

pub open spec fn rule(prefix: Option<ParseFn>, infix: Option<ParseFn>, prec: Precedence) -> ParseRules {
    ParseRules { prefix, infix, prec }
}

/// The rule of each kind of token.
pub open spec fn rules_of(t: TokenType) -> ParseRules {
    match t {
        TokenType::Tlp => rule(Some(ParseFn::Grouping), None, Precedence::NoPrec),
        TokenType::Tplus => rule(None, Some(ParseFn::Binary), Precedence::Terms),
        TokenType::Tminus => rule(Some(ParseFn::Unary), Some(ParseFn::Binary), Precedence::Terms),
        TokenType::Tint => rule(Some(ParseFn::IntNum), None, Precedence::NoPrec),
        TokenType::Tfloat => rule(Some(ParseFn::FloatNum), None, Precedence::NoPrec),
        TokenType::Tstr => rule(Some(ParseFn::Strings), None, Precedence::NoPrec),
        TokenType::Tid => rule(Some(ParseFn::Variable), None, Precedence::NoPrec),
        TokenType::TdivOp | TokenType::TmulOp | TokenType::TmodOp | TokenType::TpowOp
        | TokenType::TdivdivOp => rule(
            Some(ParseFn::Binary),
            Some(ParseFn::Binary),
            Precedence::Factors,
        ),
        TokenType::Ttrue => rule(Some(ParseFn::BoolTrue), None, Precedence::NoPrec),
        TokenType::Tfalse => rule(Some(ParseFn::BoolFalse), None, Precedence::NoPrec),
        TokenType::Tnot => rule(Some(ParseFn::Unary), None, Precedence::Unary),
        TokenType::TeqEq | TokenType::TnotEq => rule(None, Some(ParseFn::Binary), Precedence::Eq),
        TokenType::Tgt | TokenType::Tlt | TokenType::Tgte | TokenType::Tlte => rule(
            None,
            Some(ParseFn::Binary),
            Precedence::Comps,
        ),
        _ => rule(None, None, Precedence::NoPrec),
    }
}

/// The rule of a kind of token.
pub fn get_rules(t_type: TokenType) -> (r: ParseRules)
    ensures
        r == rules_of(t_type),
{
    match t_type {
        TokenType::Tlp => ParseRules {
            prefix: Some(ParseFn::Grouping),
            infix: None,
            prec: Precedence::NoPrec,
        },
        TokenType::Tplus => ParseRules {
            prefix: None,
            infix: Some(ParseFn::Binary),
            prec: Precedence::Terms,
        },
        TokenType::Tminus => ParseRules {
            prefix: Some(ParseFn::Unary),
            infix: Some(ParseFn::Binary),
            prec: Precedence::Terms,
        },
        TokenType::Tint => ParseRules {
            prefix: Some(ParseFn::IntNum),
            infix: None,
            prec: Precedence::NoPrec,
        },
        TokenType::Tfloat => ParseRules {
            prefix: Some(ParseFn::FloatNum),
            infix: None,
            prec: Precedence::NoPrec,
        },
        TokenType::Tstr => ParseRules {
            prefix: Some(ParseFn::Strings),
            infix: None,
            prec: Precedence::NoPrec,
        },
        TokenType::Tid => ParseRules {
            prefix: Some(ParseFn::Variable),
            infix: None,
            prec: Precedence::NoPrec,
        },
        TokenType::TdivOp | TokenType::TmulOp | TokenType::TmodOp | TokenType::TpowOp
        | TokenType::TdivdivOp => ParseRules {
            prefix: Some(ParseFn::Binary),
            infix: Some(ParseFn::Binary),
            prec: Precedence::Factors,
        },
        TokenType::Ttrue => ParseRules {
            prefix: Some(ParseFn::BoolTrue),
            infix: None,
            prec: Precedence::NoPrec,
        },
        TokenType::Tfalse => ParseRules {
            prefix: Some(ParseFn::BoolFalse),
            infix: None,
            prec: Precedence::NoPrec,
        },
        TokenType::Tnot => ParseRules {
            prefix: Some(ParseFn::Unary),
            infix: None,
            prec: Precedence::Unary,
        },
        TokenType::TeqEq | TokenType::TnotEq => ParseRules {
            prefix: None,
            infix: Some(ParseFn::Binary),
            prec: Precedence::Eq,
        },
        TokenType::Tgt | TokenType::Tlt | TokenType::Tgte | TokenType::Tlte => ParseRules {
            prefix: None,
            infix: Some(ParseFn::Binary),
            prec: Precedence::Comps,
        },
        _ => ParseRules { prefix: None, infix: None, prec: Precedence::NoPrec },
    }
}

/// The instruction a binary operator token compiles to.
pub open spec fn binary_opcode(t: TokenType) -> Option<OpCode> {
    match t {
        TokenType::Tplus => Some(OpCode::OpAdd),
        TokenType::Tminus => Some(OpCode::OpSubtract),
        TokenType::TdivOp => Some(OpCode::OpDivide),
        TokenType::TmulOp => Some(OpCode::OpMultiply),
        TokenType::TmodOp => Some(OpCode::OpMod),
        TokenType::TpowOp => Some(OpCode::OpPow),
        TokenType::TdivdivOp => Some(OpCode::OpDivideDivide),
        TokenType::TeqEq => Some(OpCode::OpEqEq),
        TokenType::TnotEq => Some(OpCode::OpNotEq),
        TokenType::Tgt => Some(OpCode::OpGt),
        TokenType::Tlt => Some(OpCode::OpLt),
        TokenType::Tgte => Some(OpCode::OpGte),
        TokenType::Tlte => Some(OpCode::OpLte),
        _ => None,
    }
}


// ---------------------------------------------------------------------------
// The parser.
// ---------------------------------------------------------------------------

/// A compile error: the token at which it was found and its message.
#[derive(Debug)]
pub struct CompileError {
    pub token: Token,
    pub message: String,
}

/// A float literal: the constant that holds it and its text. The bits of
/// the float are read from the text outside the library.
#[derive(Debug)]
pub struct FloatLiteral {
    pub index: usize,
    pub text: String,
}

/// Compiles source text into a chunk in one pass. Errors are collected in
/// `errors` (after the first, none until the parser has recovered); `fault`
/// holds the number of errors collected when the compiler met a program it
/// cannot compile at all (an integer literal out of range, or a block that
/// drops more than 255 variables at once).
#[derive(Debug)]
pub struct Parser {
    pub current: Token,
    pub previous: Token,
    pub had_err: bool,
    pub panic_mode: bool,
    pub chunk: Chunk,
    pub scanner: Scanner,
    pub compiler: Compiler,
    pub errors: Vec<CompileError>,
    pub float_literals: Vec<FloatLiteral>,
    pub fault: Option<usize>,
}

/// What is left to parse: the unread characters, and one more while the
/// current token is not the end of the text. Reading a token that is not
/// the end makes it smaller.
pub open spec fn measure(p: &Parser) -> int {
    (p.scanner.src().len() - p.scanner.current) + if p.current.token_type == TokenType::Teof {
        0int
    } else {
        1int
    }
}

/// The parser's invariant. The bounds on the scope depth and on the number
/// of declared variables hold because each scope and each declaration is
/// opened by a token that has been read.
pub open spec fn pwf(p: &Parser) -> bool {
    &&& p.chunk.wf()
    &&& p.scanner.wf()
    &&& p.compiler.wf()
    &&& p.scanner.src().len() + 2 < i64::MAX
    &&& 0 <= p.compiler.scope_depth
    &&& p.compiler.scope_depth + measure(p) <= p.scanner.src().len() + 1
    &&& p.compiler.locals@.len() + measure(p) <= p.scanner.src().len() + 1
    &&& (p.had_err <==> p.errors@.len() > 0)
    &&& forall|i: int|
        0 <= i < p.float_literals@.len() ==> (#[trigger] p.float_literals@[i]).index
            < p.chunk.constants().len()
    &&& (p.panic_mode ==> p.had_err)
    &&& (!p.had_err ==> scan_reaches(p.scanner.src(), 0, p.scanner.current as nat)
        && no_error_token(p.scanner.src(), 0, p.scanner.current as nat))
}

/// The current token is the one the scanner read last (and not the
/// placeholder a new parser starts with).
pub open spec fn current_is_read(p: &Parser) -> bool {
    &&& p.scanner.start <= p.scanner.src().len()
    &&& p.current@ == token_at(p.scanner.src(), p.scanner.start as nat)
    &&& p.scanner.current == lexeme_end(p.scanner.src(), p.scanner.start as nat)
}

/// `a` is a prefix of `b`.
pub open spec fn prefix<T>(a: Seq<T>, b: Seq<T>) -> bool {
    a.len() <= b.len() && b.take(a.len() as int) == a
}

/// What parsing never undoes: it reads on in the same text, only adds code,
/// constants, errors and float literals, and keeps an error or fault once
/// there is one. The code it adds is a run of whole instructions that the
/// machine carries out, each constant operand naming a constant.
pub open spec fn grew_core(a: &Parser, b: &Parser) -> bool {
    &&& b.scanner.src() == a.scanner.src()
    &&& (a.errors@.len() > 0 ==> b.errors@[0] == a.errors@[0])
    &&& (a.fault is None ==> (b.fault matches Some(k) ==> k >= a.errors@.len()))
    &&& (current_is_read(a) ==> current_is_read(b))
    &&& measure(b) <= measure(a)
    &&& prefix(a.chunk.code@, b.chunk.code@)
    &&& whole_after(b.chunk.code@, a.chunk.code@.len() as int, b.chunk.constants().len())
    &&& prefix(a.chunk.line@, b.chunk.line@)
    &&& prefix(a.chunk.constants(), b.chunk.constants())
    &&& prefix(a.errors@, b.errors@)
    &&& prefix(a.float_literals@, b.float_literals@)
    &&& (a.had_err ==> b.had_err)
    &&& (a.fault is Some ==> b.fault == a.fault)
}

/// Growth after which, while the code is shorter than 2^16 bytes (so that
/// every jump distance fits in its two bytes), every jump of the added code
/// leads to the start of an instruction of it.
pub open spec fn grew(a: &Parser, b: &Parser) -> bool {
    &&& grew_core(a, b)
    &&& b.chunk.code@.len() < 65536 ==> jumps_land_after(
        b.chunk.code@,
        a.chunk.code@.len() as int,
    )
}

/// Growth that ends in the scope where it began.
pub open spec fn grows(a: &Parser, b: &Parser) -> bool {
    &&& grew(a, b)
    &&& b.compiler.scope_depth == a.compiler.scope_depth
}

pub proof fn lemma_grew_trans(a: &Parser, b: &Parser, c: &Parser)
    requires
        grew(a, b),
        grew(b, c),
    ensures
        grew(a, c),
{
    lemma_grew_core_trans(a, b, c);
    if c.chunk.code@.len() < 65536 {
        lemma_jumps_land_trans(
            a.chunk.code@.len() as int,
            b.chunk.code@,
            c.chunk.code@,
            b.chunk.constants().len(),
            c.chunk.constants().len(),
        );
    }
}

pub proof fn lemma_grew_core_trans(a: &Parser, b: &Parser, c: &Parser)
    requires
        grew_core(a, b),
        grew_core(b, c),
    ensures
        grew_core(a, c),
{
    lemma_prefix_trans(a.chunk.code@, b.chunk.code@, c.chunk.code@);
    lemma_whole_after_trans(
        a.chunk.code@,
        b.chunk.code@,
        c.chunk.code@,
        b.chunk.constants().len(),
        c.chunk.constants().len(),
    );
    lemma_prefix_trans(a.chunk.line@, b.chunk.line@, c.chunk.line@);
    lemma_prefix_trans(a.chunk.constants(), b.chunk.constants(), c.chunk.constants());
    lemma_prefix_trans(a.errors@, b.errors@, c.errors@);
    lemma_prefix_trans(a.float_literals@, b.float_literals@, c.float_literals@);
}

pub proof fn lemma_prefix_trans<T>(a: Seq<T>, b: Seq<T>, c: Seq<T>)
    requires
        prefix(a, b),
        prefix(b, c),
    ensures
        prefix(a, c),
{
    assert(c.take(a.len() as int) =~= b.take(a.len() as int));
}

pub proof fn lemma_prefix_refl<T>(a: Seq<T>)
    ensures
        prefix(a, a),
{
    assert(a.take(a.len() as int) =~= a);
}

pub proof fn lemma_prefix_push<T>(a: Seq<T>, x: T)
    ensures
        prefix(a, a.push(x)),
{
    assert(a.push(x).take(a.len() as int) =~= a);
}

pub proof fn lemma_grows_trans(a: &Parser, b: &Parser, c: &Parser)
    requires
        grows(a, b),
        grows(b, c),
    ensures
        grows(a, c),
{
    lemma_grew_trans(a, b, c);
}

pub proof fn lemma_grows_refl(a: &Parser)
    ensures
        grows(a, a),
{
    lemma_prefix_refl(a.chunk.code@);
    lemma_prefix_refl(a.chunk.line@);
    lemma_prefix_refl(a.chunk.constants());
    lemma_prefix_refl(a.errors@);
    lemma_prefix_refl(a.float_literals@);
}

/// Everything but the error record is unchanged.
pub open spec fn same_but_errors(a: &Parser, b: &Parser) -> bool {
    &&& b.current == a.current
    &&& b.previous == a.previous
    &&& b.chunk == a.chunk
    &&& b.scanner == a.scanner
    &&& b.compiler == a.compiler
    &&& b.float_literals == a.float_literals
    &&& b.fault == a.fault
}

/// Recording an error at `token`: only when the parser is not already
/// recovering from one.
pub open spec fn records_error(a: &Parser, b: &Parser, token: TokenView, message: Seq<char>) -> bool {
    &&& same_but_errors(a, b)
    &&& if a.panic_mode {
        b.errors@ == a.errors@ && b.had_err == a.had_err && b.panic_mode
    } else {
        &&& b.errors@.len() == a.errors@.len() + 1
        &&& b.errors@.take(a.errors@.len() as int) == a.errors@
        &&& b.errors@.last().token@ == token
        &&& b.errors@.last().message@ == message
        &&& b.had_err
        &&& b.panic_mode
    }
}

/// A parser at the start of `source`, writing into `chunk`; both tokens are
/// placeholders until the first `advance`.
pub fn new_parser(chunk: Chunk, source: &str) -> (p: Parser)
    requires
        source@.len() + 2 < i64::MAX,
        source@.len() < usize::MAX,
        chunk.wf(),
    ensures
        pwf(&p),
        p.scanner.src() == source@,
        p.scanner.current == 0,
        p.chunk == chunk,
        !p.had_err,
        !p.panic_mode,
        p.errors@.len() == 0,
        p.float_literals@.len() == 0,
        p.fault is None,
        p.current.token_type == TokenType::Teof,
        pview(&p) == crate::grammar::start_state(chunk.code@, chunk.line@, chunk.constants()),
        clean(&p),
        p.compiler.scope_depth == 0,
        p.compiler.local_count == 0,
        p.compiler.locals@.len() == 0,
{
    let dummy_token = Token {
        token_type: TokenType::Teof,
        start: String::new(),
        len: 0,
        line: 0,
    };
    let scanner = Scanner::new_scanner(source);
    proof {
        assert(dummy_token.start@ =~= Seq::<char>::empty());
    }
    let compiler = Compiler::new();
    let float_literals: Vec<FloatLiteral> = Vec::new();
    proof {
        assert(crate::grammar::lview(compiler.locals@) =~= Seq::empty());
        assert(crate::grammar::fview(float_literals@) =~= Seq::empty());
    }
    Parser {
        current: dummy_token.copy(),
        previous: dummy_token,
        had_err: false,
        panic_mode: false,
        chunk,
        scanner,
        compiler,
        errors: Vec::new(),
        float_literals,
        fault: None,
    }
}

/// Records an error at `token`, unless the parser is recovering from one.
pub fn error_at(parser: &mut Parser, token: Token, message: &str)
    ensures
        records_error(old(parser), final(parser), token@, message@),
{
    if parser.panic_mode {
        return;
    }
    parser.panic_mode = true;
    parser.errors.push(CompileError { token, message: message.to_owned() });
    parser.had_err = true;
    assert(parser.errors@.take(old(parser).errors@.len() as int) =~= old(parser).errors@);
}

/// Records an error at the current token.
pub fn error_at_current(parser: &mut Parser, message: &str)
    ensures
        records_error(old(parser), final(parser), old(parser).current@, message@),
{
    let token = parser.current.copy();
    error_at(parser, token, message);
}

/// Records an error at the token just read.
pub fn error(parser: &mut Parser, message: &str)
    ensures
        records_error(old(parser), final(parser), old(parser).previous@, message@),
{
    let token = parser.previous.copy();
    error_at(parser, token, message);
}

pub proof fn lemma_good_token(s: Seq<char>, pos: nat)
    requires
        pos <= s.len(),
    ensures
        pos <= skip_trivia(s, pos) <= good_token_start(s, pos) <= s.len(),
        token_kind(s, good_token_start(s, pos)) != TokenType::Terr,
        token_kind(s, good_token_start(s, pos)) == TokenType::Teof <==> good_token_start(s, pos)
            == s.len(),
        good_token_start(s, pos) <= lexeme_end(s, good_token_start(s, pos)) <= s.len(),
        good_token_start(s, pos) < s.len() ==> good_token_start(s, pos) < lexeme_end(
            s,
            good_token_start(s, pos),
        ),
    decreases s.len() - pos,
{
    crate::scanner::lemma_skip_trivia_bounds(s, pos);
    let p = skip_trivia(s, pos);
    crate::scanner::lemma_lexeme_end_bounds(s, p);
    if token_kind(s, p) == TokenType::Terr {
        lemma_good_token(s, lexeme_end(s, p));
    } else {
        lemma_kind_eof(s, p);
        crate::scanner::lemma_lexeme_end_bounds(s, good_token_start(s, pos));
    }
}

/// Only the end of the text gives the end token.
pub proof fn lemma_kind_eof(s: Seq<char>, p: nat)
    requires
        p <= s.len(),
    ensures
        token_kind(s, p) == TokenType::Teof <==> p == s.len(),
{
}

/// Reading the next token that is not an error token: the token read
/// before becomes the previous one, an error token met on the way is
/// recorded, and nothing else changes.
pub open spec fn advanced(a: &Parser, b: &Parser) -> bool {
    let s = a.scanner.src();
    let g = good_token_start(s, a.scanner.current as nat);
    let p0 = skip_trivia(s, a.scanner.current as nat);
    &&& b.previous == a.current
    &&& b.scanner.src() == s
    &&& b.scanner.start == g
    &&& b.scanner.current == lexeme_end(s, g)
    &&& b.current@ == token_at(s, g)
    &&& b.current.token_type != TokenType::Terr
    &&& if token_kind(s, p0) == TokenType::Terr {
        records_error(
            a,
            &Parser {
                current: a.current,
                previous: a.previous,
                chunk: a.chunk,
                scanner: a.scanner,
                compiler: a.compiler,
                float_literals: a.float_literals,
                fault: a.fault,
                errors: b.errors,
                had_err: b.had_err,
                panic_mode: b.panic_mode,
            },
            token_at(s, p0),
            token_at(s, p0).text,
        )
    } else {
        &&& b.errors == a.errors
        &&& b.had_err == a.had_err
        &&& b.panic_mode == a.panic_mode
    }
    &&& b.chunk == a.chunk
    &&& b.compiler == a.compiler
    &&& b.float_literals == a.float_literals
    &&& b.fault == a.fault
}

/// Reads the next token that is not an error token; the first error token
/// met on the way is recorded as an error.
pub fn advance(parser: &mut Parser)
    requires
        pwf(old(parser)),
    ensures
        pwf(final(parser)),
        grows(old(parser), final(parser)),
        advanced(old(parser), final(parser)),
        old(parser).current.token_type != TokenType::Teof ==> measure(final(parser)) < measure(
            old(parser),
        ),
        follows(old(parser), final(parser), s_adv(old(parser).scanner.src(), pview(old(parser)))),
{
    let ghost s = parser.scanner.src();
    let ghost pos0 = parser.scanner.current as nat;
    let ghost g = good_token_start(s, pos0);
    proof {
        lemma_good_token(s, pos0);
    }
    parser.previous = parser.current.copy();
    let tok = parser.scanner.scan_tokens();
    parser.current = tok;
    if parser.current.token_type == TokenType::Terr {
        let message = parser.current.start.clone();
        error_at_current(parser, message.as_str());
        let ghost p1 = *parser;
        loop
            invariant_except_break
                good_token_start(s, parser.scanner.current as nat) == g,
            invariant
                parser.scanner.wf(),
                parser.scanner.src() == s,
                pos0 <= parser.scanner.current <= s.len(),
                parser.panic_mode,
                parser.chunk == p1.chunk,
                parser.compiler == p1.compiler,
                parser.float_literals == p1.float_literals,
                parser.fault == p1.fault,
                parser.previous == p1.previous,
                parser.errors@ == p1.errors@,
                parser.had_err == p1.had_err,
            ensures
                parser.scanner.start == g,
                parser.scanner.current == lexeme_end(s, g),
                parser.current@ == token_at(s, g),
                parser.current.token_type != TokenType::Terr,
            decreases s.len() - parser.scanner.current,
        {
            proof {
                lemma_good_token(s, parser.scanner.current as nat);
                crate::scanner::lemma_skip_trivia_bounds(s, parser.scanner.current as nat);
                crate::scanner::lemma_lexeme_end_bounds(s, skip_trivia(s, parser.scanner.current as nat));
            }
            let tok = parser.scanner.scan_tokens();
            parser.current = tok;
            if parser.current.token_type != TokenType::Terr {
                break;
            }
            let message = parser.current.start.clone();
            error_at_current(parser, message.as_str());
        }
    }
    proof {
        if !parser.had_err {
            crate::scanner::lemma_skip_trivia_bounds(s, pos0);
            assert(token_kind(s, skip_trivia(s, pos0)) != TokenType::Terr);
            assert(g == skip_trivia(s, pos0));
            lemma_scan_next(s, 0, pos0);
        }
        lemma_prefix_refl(parser.chunk.code@);
        lemma_prefix_refl(parser.chunk.line@);
        lemma_prefix_refl(parser.chunk.constants());
        lemma_prefix_refl(parser.float_literals@);
        if old(parser).errors@.len() < parser.errors@.len() {
            lemma_prefix_push(old(parser).errors@, parser.errors@.last());
            assert(parser.errors@ =~= old(parser).errors@.push(parser.errors@.last()));
        } else {
            lemma_prefix_refl(parser.errors@);
        }
    }
}


/// Whether the current token is of kind `t_type`.
pub fn check(parser: &Parser, t_type: TokenType) -> (b: bool)
    ensures
        b == (parser.current.token_type == t_type),
{
    parser.current.token_type == t_type
}

/// Reads the current token when it is of kind `t_type`.
pub fn match_tokens(parser: &mut Parser, t_type: TokenType) -> (b: bool)
    requires
        pwf(old(parser)),
    ensures
        pwf(final(parser)),
        grows(old(parser), final(parser)),
        b == (old(parser).current.token_type == t_type),
        !b ==> *final(parser) == *old(parser),
        b ==> advanced(old(parser), final(parser)),
        b && t_type != TokenType::Teof ==> measure(final(parser)) < measure(old(parser)),
        final(parser).compiler == old(parser).compiler,
        final(parser).chunk == old(parser).chunk,
        final(parser).float_literals == old(parser).float_literals,
        b ==> follows(old(parser), final(parser), s_adv(old(parser).scanner.src(), pview(old(parser)))),
{
    if !check(parser, t_type) {
        proof {
            lemma_grows_refl(parser);
        }
        return false;
    }
    advance(parser);
    true
}

/// Reads the current token, which should be of kind `t_type`; otherwise
/// records `message` as an error at it.
pub fn consume(parser: &mut Parser, message: &str, t_type: TokenType)
    requires
        pwf(old(parser)),
    ensures
        pwf(final(parser)),
        grows(old(parser), final(parser)),
        old(parser).current.token_type == t_type ==> advanced(old(parser), final(parser)),
        old(parser).current.token_type != t_type ==> records_error(
            old(parser),
            final(parser),
            old(parser).current@,
            message@,
        ),
        old(parser).current.token_type == t_type && t_type != TokenType::Teof ==> measure(
            final(parser),
        ) < measure(old(parser)),
        final(parser).compiler == old(parser).compiler,
        final(parser).chunk == old(parser).chunk,
        final(parser).float_literals == old(parser).float_literals,
        follows(old(parser), final(parser), s_consume(old(parser).scanner.src(), pview(old(parser)), t_type, message@)),
{
    if parser.current.token_type == t_type {
        advance(parser);
        return;
    }
    error_at_current(parser, message);
    proof {
        lemma_error_grows(old(parser), parser);
    }
}

/// Recording an error is growth.
pub proof fn lemma_error_grows(a: &Parser, b: &Parser)
    requires
        exists|t: TokenView, m: Seq<char>| records_error(a, b, t, m),
    ensures
        grows(a, b),
{
    lemma_prefix_refl(a.chunk.code@);
    lemma_prefix_refl(a.chunk.line@);
    lemma_prefix_refl(a.chunk.constants());
    lemma_prefix_refl(a.float_literals@);
    if b.errors@.len() > a.errors@.len() {
        assert(prefix(a.errors@, b.errors@));
    } else {
        lemma_prefix_refl(a.errors@);
    }
}

/// Emitting code: the parser is the same but for its chunk, which has the
/// given bytes appended, each with the line of the token just read.
pub open spec fn emits(a: &Parser, b: &Parser, bytes: Seq<u8>) -> bool {
    &&& b.chunk.code@ == a.chunk.code@ + bytes
    &&& b.chunk.line@ == a.chunk.line@ + Seq::new(bytes.len(), |i: int| a.previous.line)
    &&& b.chunk.constants() == a.chunk.constants()
    &&& b.current == a.current
    &&& b.previous == a.previous
    &&& b.had_err == a.had_err
    &&& b.panic_mode == a.panic_mode
    &&& b.scanner == a.scanner
    &&& b.compiler == a.compiler
    &&& b.errors == a.errors
    &&& b.float_literals == a.float_literals
    &&& b.fault == a.fault
}

pub proof fn lemma_emits_grows(a: &Parser, b: &Parser, bytes: Seq<u8>)
    requires
        pwf(a),
        emits(a, b, bytes),
        whole_from(bytes, 0, b.chunk.constants().len()),
        bytes.len() > 0,
        instr_len(bytes[0]) == bytes.len(),
        !(kind_of(bytes[0]) is Jump),
    ensures
        pwf(b),
        grows(a, b),
{
    lemma_emits_grows_core(a, b, bytes);
    assert(b.chunk.code@[a.chunk.code@.len() as int] == bytes[0]);
    lemma_one_instr_jumps_land(b.chunk.code@, a.chunk.code@.len() as int);
}

pub proof fn lemma_emits_grows_core(a: &Parser, b: &Parser, bytes: Seq<u8>)
    requires
        pwf(a),
        emits(a, b, bytes),
        whole_from(bytes, 0, b.chunk.constants().len()),
    ensures
        pwf(b),
        grew_core(a, b),
{
    lemma_whole_append(a.chunk.code@, bytes, 0, b.chunk.constants().len());
    assert(b.chunk.code@.take(a.chunk.code@.len() as int) =~= a.chunk.code@);
    assert(b.chunk.line@.take(a.chunk.line@.len() as int) =~= a.chunk.line@);
    lemma_prefix_refl(a.chunk.constants());
    lemma_prefix_refl(a.errors@);
    lemma_prefix_refl(a.float_literals@);
}

/// A one-byte instruction the machine carries out.
pub open spec fn simple_instr(b: u8) -> bool {
    runnable(b) && instr_len(b) == 1
}

/// A two-byte instruction the machine carries out, with an operand that
/// names one of `n` constants when it names a constant.
pub open spec fn operand_instr(b1: u8, b2: u8, n: nat) -> bool {
    runnable(b1) && instr_len(b1) == 2 && (kind_of(b1) is Constant ==> b2 < n)
}

/// Appends a one-byte instruction, recorded at the line of the token just
/// read.
fn emit_byte(parser: &mut Parser, byte: u8)
    requires
        pwf(old(parser)),
        simple_instr(byte),
    ensures
        pwf(final(parser)),
        grows(old(parser), final(parser)),
        emits(old(parser), final(parser), seq![byte]),
        follows(old(parser), final(parser), Ok(s_emit(pview(old(parser)), seq![byte]))),
{
    let line = parser.previous.line;
    parser.chunk.write_chunk(byte, line);
    proof {
        assert(parser.chunk.code@ =~= old(parser).chunk.code@ + seq![byte]);
        assert(parser.chunk.line@ =~= old(parser).chunk.line@ + Seq::new(
            1,
            |i: int| old(parser).previous.line,
        ));
        let n = parser.chunk.constants().len();
        lemma_whole_end(seq![byte], n);
        lemma_whole_step(seq![byte], 0, n);
        lemma_emits_grows(old(parser), parser, seq![byte]);
    }
}

/// Appends an instruction with its one-byte operand.
fn emit_bytes(parser: &mut Parser, byte1: u8, byte2: u8)
    requires
        pwf(old(parser)),
        operand_instr(byte1, byte2, old(parser).chunk.constants().len()),
    ensures
        pwf(final(parser)),
        grows(old(parser), final(parser)),
        emits(old(parser), final(parser), seq![byte1, byte2]),
        follows(old(parser), final(parser), Ok(s_emit(pview(old(parser)), seq![byte1, byte2]))),
{
    let line = parser.previous.line;
    parser.chunk.write_chunk(byte1, line);
    parser.chunk.write_chunk(byte2, line);
    proof {
        let n = parser.chunk.constants().len();
        let bytes = seq![byte1, byte2];
        lemma_whole_end(bytes, n);
        lemma_whole_step(bytes, 0, n);
        assert(parser.chunk.code@ =~= old(parser).chunk.code@ + seq![byte1, byte2]);
        assert(parser.chunk.line@ =~= old(parser).chunk.line@ + Seq::new(
            2,
            |i: int| old(parser).previous.line,
        ));
        lemma_emits_grows(old(parser), parser, seq![byte1, byte2]);
    }
}

fn emit_return(parser: &mut Parser)
    requires
        pwf(old(parser)),
    ensures
        pwf(final(parser)),
        grows(old(parser), final(parser)),
        emits(old(parser), final(parser), seq![op_byte(OpCode::OpR)]),
{
    emit_byte(parser, OpCode::OpR.to_byte());
}

fn end_compile(parser: &mut Parser)
    requires
        pwf(old(parser)),
    ensures
        pwf(final(parser)),
        grows(old(parser), final(parser)),
        emits(old(parser), final(parser), seq![op_byte(OpCode::OpR)]),
        follows(old(parser), final(parser), Ok(s_emit(pview(old(parser)), seq![op_byte(OpCode::OpR)]))),
{
    emit_return(parser);
}

/// Adds a constant and gives its index; past 255 the index does not fit in
/// an operand byte, and an error is recorded instead (the index given is 0).
fn make_constant(parser: &mut Parser, value: Values) -> (index: u8)
    requires
        pwf(old(parser)),
    ensures
        pwf(final(parser)),
        grows(old(parser), final(parser)),
        final(parser).chunk.constants() == old(parser).chunk.constants().push(value@),
        final(parser).chunk.code@ == old(parser).chunk.code@,
        final(parser).chunk.line@ == old(parser).chunk.line@,
        final(parser).current == old(parser).current,
        final(parser).previous == old(parser).previous,
        final(parser).scanner == old(parser).scanner,
        final(parser).compiler == old(parser).compiler,
        final(parser).float_literals == old(parser).float_literals,
        final(parser).fault == old(parser).fault,
        old(parser).chunk.constants().len() <= 255 ==> index == old(parser).chunk.constants().len() && final(parser).errors == old(parser).errors && final(parser).had_err == old(parser).had_err && final(parser).panic_mode == old(parser).panic_mode,
        old(parser).chunk.constants().len() > 255 ==> index == 0 && records_error(
            old(parser),
            &Parser { chunk: old(parser).chunk, ..*final(parser) },
            old(parser).previous@,
            "Too many constants in one chunk."@,
        ),
        follows(old(parser), final(parser), s_add_const(pview(old(parser)), value@)),
{
    let cons = parser.chunk.add_constant(value);
    let ghost p1 = *parser;
    proof {
        lemma_prefix_push(old(parser).chunk.constants(), value@);
        lemma_prefix_refl(parser.chunk.code@);
        lemma_prefix_refl(parser.chunk.line@);
        lemma_prefix_refl(parser.errors@);
        lemma_prefix_refl(parser.float_literals@);
    }
    if cons > 255 {
        error(parser, "Too many constants in one chunk.");
        proof {
            lemma_error_grows(&p1, parser);
            lemma_grows_trans(old(parser), &p1, parser);
        }
        return 0;
    }
    cons as u8
}

fn emit_constant(parser: &mut Parser, value: Values)
    requires
        pwf(old(parser)),
    ensures
        pwf(final(parser)),
        grows(old(parser), final(parser)),
        final(parser).chunk.constants() == old(parser).chunk.constants().push(value@),
        final(parser).chunk.code@ == old(parser).chunk.code@ + seq![
            op_byte(OpCode::OpC),
            if old(parser).chunk.constants().len() <= 255 {
                old(parser).chunk.constants().len() as u8
            } else {
                0u8
            },
        ],
        final(parser).current == old(parser).current,
        final(parser).previous == old(parser).previous,
        final(parser).scanner == old(parser).scanner,
        final(parser).compiler == old(parser).compiler,
        final(parser).float_literals == old(parser).float_literals,
        follows(old(parser), final(parser), s_emit_const(pview(old(parser)), value@)),
{
    let make = make_constant(parser, value);
    let ghost p1 = *parser;
    emit_bytes(parser, OpCode::OpC.to_byte(), make);
    proof {
        lemma_grows_trans(old(parser), &p1, parser);
    }
}


// ---------------------------------------------------------------------------
// Expressions.
// ---------------------------------------------------------------------------

/// Parsing an expression: the invariant holds, the parser has only grown,
/// and the variables are as they were.
pub open spec fn parsed(a: &Parser, b: &Parser) -> bool {
    &&& pwf(b)
    &&& grows(a, b)
    &&& b.compiler == a.compiler
}

/// Unless the parser stood at the end of the text, it has read on.
pub open spec fn advances(a: &Parser, b: &Parser) -> bool {
    a.current.token_type != TokenType::Teof ==> measure(b) < measure(a)
}

pub open spec fn digit_value(c: char) -> int {
    c as int - '0' as int
}

/// The number that a string of decimal digits spells.
pub open spec fn decimal_value(s: Seq<char>) -> int
    decreases s.len(),
{
    if s.len() == 0 {
        0
    } else {
        decimal_value(s.drop_last()) * 10 + digit_value(s.last())
    }
}

pub open spec fn all_digits(s: Seq<char>) -> bool {
    forall|i: int| 0 <= i < s.len() ==> crate::scanner::is_digit(#[trigger] s[i])
}

/// The integer that a literal spells, when it is made of digits and fits.
pub open spec fn int_literal(s: Seq<char>) -> Option<i64> {
    if s.len() > 0 && all_digits(s) && decimal_value(s) <= i64::MAX {
        Some(decimal_value(s) as i64)
    } else {
        None
    }
}

proof fn lemma_decimal_value_grows(s: Seq<char>, i: int)
    requires
        all_digits(s),
        0 <= i <= s.len(),
    ensures
        0 <= decimal_value(s.take(i)) <= decimal_value(s),
    decreases s.len(),
{
    if s.len() == 0 {
        assert(s.take(i) == s);
    } else {
        let t = s.drop_last();
        assert(all_digits(t)) by {
            assert forall|k: int| 0 <= k < t.len() implies crate::scanner::is_digit(#[trigger] t[k]) by {
                assert(t[k] == s[k]);
            }
        }
        assert(crate::scanner::is_digit(s[s.len() - 1]));
        if i == s.len() {
            assert(s.take(i) == s);
            lemma_decimal_value_grows(t, t.len() as int);
        } else {
            lemma_decimal_value_grows(t, i);
            assert(s.take(i) == t.take(i));
        }
    }
}

/// Reads an integer literal: the number its digits spell, if it fits.
pub fn parse_int(text: &String) -> (r: Option<i64>)
    ensures
        r == int_literal(text@),
{
    let chars = crate::text::str_chars(text.as_str());
    let ghost s = text@;
    if chars.len() == 0 {
        return None;
    }
    let mut v: i64 = 0;
    let mut i: usize = 0;
    while i < chars.len()
        invariant
            chars@ == s,
            s == text@,
            0 <= i <= s.len(),
            all_digits(s.take(i as int)),
            v >= 0,
            v as int == decimal_value(s.take(i as int)),
        decreases s.len() - i,
    {
        let c = chars[i];
        if !crate::scanner::is_ascii_digit(c) {
            assert(!crate::scanner::is_digit(s[i as int]));
            assert(!all_digits(s));
            return None;
        }
        let d = (c as u32 - '0' as u32) as i64;
        assert(s.take(i + 1).drop_last() == s.take(i as int));
        assert(all_digits(s.take(i + 1)));
        match v.checked_mul(10) {
            Some(v10) => match v10.checked_add(d) {
                Some(nv) => {
                    v = nv;
                },
                None => {
                    proof {
                        assert(all_digits(s) ==> decimal_value(s.take(i + 1)) <= decimal_value(s)) by {
                            if all_digits(s) {
                                lemma_decimal_value_grows(s, i + 1);
                            }
                        }
                    }
                    return None;
                },
            },
            None => {
                proof {
                    assert(digit_value(s[i as int]) >= 0);
                    assert(decimal_value(s.take(i + 1)) == v * 10 + digit_value(s[i as int]));
                    assert(all_digits(s) ==> decimal_value(s.take(i + 1)) <= decimal_value(s)) by {
                        if all_digits(s) {
                            lemma_decimal_value_grows(s, i + 1);
                        }
                    }
                }
                return None;
            },
        }
        i = i + 1;
    }
    assert(s.take(s.len() as int) == s);
    Some(v)
}

/// Records that the program cannot be compiled at all (the first time).
fn fault(parser: &mut Parser)
    requires
        pwf(old(parser)),
    ensures
        parsed(old(parser), final(parser)),
        final(parser).fault is Some,
        final(parser).current == old(parser).current,
        final(parser).previous == old(parser).previous,
        follows(old(parser), final(parser), Err(Stop::Fault)),
{
    if parser.fault.is_none() {
        parser.fault = Some(parser.errors.len());
    }
    proof {
        lemma_grows_refl(old(parser));
    }
}

fn int_num(parser: &mut Parser, _can_assign: bool)
    requires
        pwf(old(parser)),
    ensures
        parsed(old(parser), final(parser)),
        int_literal(old(parser).previous.start@) matches Some(v) ==> final(parser).chunk.constants() == old(parser).chunk.constants().push(ValueView::Int(v)),
        int_literal(old(parser).previous.start@) is None ==> final(parser).fault is Some,
        follows(old(parser), final(parser), s_literal(pview(old(parser)), ParseFn::IntNum)),
{
    match parse_int(&parser.previous.start) {
        Some(v) => emit_constant(parser, Values::Int(v)),
        None => fault(parser),
    }
}

/// A float literal: its constant is set outside from the literal's text.
fn float_num(parser: &mut Parser, _can_assign: bool)
    requires
        pwf(old(parser)),
    ensures
        parsed(old(parser), final(parser)),
        final(parser).float_literals@.len() == old(parser).float_literals@.len() + 1,
        final(parser).float_literals@.last().index == old(parser).chunk.constants().len(),
        final(parser).float_literals@.last().text@ == old(parser).previous.start@,
        final(parser).chunk.constants() == old(parser).chunk.constants().push(ValueView::Float(0)),
        follows(old(parser), final(parser), s_literal(pview(old(parser)), ParseFn::FloatNum)),
{
    let index = parser.chunk.constant.values.len();
    let text = parser.previous.start.clone();
    emit_constant(parser, Values::Float(0));
    let ghost p1 = *parser;
    parser.float_literals.push(FloatLiteral { index, text });
    proof {
        lemma_prefix_push(p1.float_literals@, parser.float_literals@.last());
        assert(parser.float_literals@ == p1.float_literals@.push(parser.float_literals@.last()));
        assert(crate::grammar::fview(parser.float_literals@) =~= crate::grammar::fview(
            p1.float_literals@,
        ).push((index, old(parser).previous.start@)));
        lemma_prefix_refl(p1.chunk.code@);
        lemma_prefix_refl(p1.chunk.line@);
        lemma_prefix_refl(p1.chunk.constants());
        lemma_prefix_refl(p1.errors@);
        lemma_grows_trans(old(parser), &p1, parser);
    }
}

/// A string literal: its text without the quotes.
fn strings(parser: &mut Parser, _can_assign: bool)
    requires
        pwf(old(parser)),
    ensures
        parsed(old(parser), final(parser)),
        old(parser).previous.start@.len() >= 2 ==> final(parser).chunk.constants() == old(parser).chunk.constants().push(
            ValueView::Str(
                old(parser).previous.start@.subrange(1, old(parser).previous.start@.len() - 1),
            ),
        ),
        old(parser).previous.start@.len() < 2 ==> final(parser).fault is Some,
        follows(old(parser), final(parser), s_literal(pview(old(parser)), ParseFn::Strings)),
{
    let raw = parser.previous.start.as_str();
    let n = raw.unicode_len();
    if n < 2 {
        fault(parser);
        return;
    }
    let inner = raw.substring_char(1, n - 1).to_owned();
    emit_constant(parser, Values::Str(inner));
}

fn bool_true(parser: &mut Parser, _can_assign: bool)
    requires
        pwf(old(parser)),
    ensures
        parsed(old(parser), final(parser)),
        final(parser).chunk.constants() == old(parser).chunk.constants().push(ValueView::Bool(true)),
        follows(old(parser), final(parser), s_literal(pview(old(parser)), ParseFn::BoolTrue)),
{
    emit_constant(parser, Values::Bool(true));
}

fn bool_false(parser: &mut Parser, _can_assign: bool)
    requires
        pwf(old(parser)),
    ensures
        parsed(old(parser), final(parser)),
        final(parser).chunk.constants() == old(parser).chunk.constants().push(
            ValueView::Bool(false),
        ),
        follows(old(parser), final(parser), s_literal(pview(old(parser)), ParseFn::BoolFalse)),
{
    emit_constant(parser, Values::Bool(false));
}

/// The position of the last variable in scope named `name`, or -1.
pub open spec fn resolve(locals: Seq<Local>, count: int, name: Seq<char>) -> int
    decreases count,
{
    if count <= 0 {
        -1
    } else if locals[count - 1].name.start@ == name {
        count - 1
    } else {
        resolve(locals, count - 1, name)
    }
}

proof fn lemma_resolve_bounds(locals: Seq<Local>, count: int, name: Seq<char>)
    ensures
        -1 <= resolve(locals, count, name) < count || (count <= 0 && resolve(locals, count, name) == -1),
        resolve(locals, count, name) >= 0 ==> locals[resolve(locals, count, name)].name.start@ == name,
    decreases count,
{
    if count > 0 && locals[count - 1].name.start@ != name {
        lemma_resolve_bounds(locals, count - 1, name);
    }
}

/// Finds the local variable `name`: the last one in scope with that name,
/// or -1 when it is global. Reading a variable in its own initializer is an
/// error.
fn resolve_locals(parser: &mut Parser, name: &Token) -> (r: i64)
    requires
        pwf(old(parser)),
    ensures
        r == resolve(old(parser).compiler.locals@, old(parser).compiler.local_count as int, name.start@),
        r >= 0 && old(parser).compiler.locals@[r as int].depth == -1 ==> records_error(
            old(parser),
            final(parser),
            old(parser).previous@,
            "Can't read local variable in its own initializer."@,
        ),
        !(r >= 0 && old(parser).compiler.locals@[r as int].depth == -1) ==> *final(parser) == *old(parser),
        parsed(old(parser), final(parser)),
        follows(old(parser), final(parser), if r >= 0 && old(parser).compiler.locals@[r as int].depth == -1 { Err(Stop::Error(old(parser).previous@, "Can't read local variable in its own initializer."@)) } else { Ok(pview(old(parser))) }),
{
    let r = find_local(&parser.compiler, name);
    proof {
        lemma_resolve_bounds(parser.compiler.locals@, parser.compiler.local_count as int, name.start@);
        lemma_grows_refl(parser);
    }
    if r >= 0 {
        let k = r as usize;
        assert(k as int == r);
        if parser.compiler.locals[k].depth == -1 {
            error(parser, "Can't read local variable in its own initializer.");
            proof {
                lemma_error_grows(old(parser), parser);
            }
        }
    }
    r
}

/// The position of the last variable in scope named like `name`, or -1.
fn find_local(compiler: &Compiler, name: &Token) -> (r: i64)
    requires
        compiler.wf(),
    ensures
        r == resolve(compiler.locals@, compiler.local_count as int, name.start@),
{
    let n = compiler.locals.len();
    let mut i: i64 = compiler.local_count;
    while i > 0
        invariant
            0 <= i <= compiler.local_count <= n,
            n == compiler.locals@.len(),
            resolve(compiler.locals@, compiler.local_count as int, name.start@) == resolve(
                compiler.locals@,
                i as int,
                name.start@,
            ),
        decreases i,
    {
        let k = (i - 1) as usize;
        assert(k as int == i - 1);
        if ider_eq(name, &compiler.locals[k].name) {
            return i - 1;
        }
        i = i - 1;
    }
    -1
}

/// Adds the name of a global variable to the constants.
fn ider_constant(parser: &mut Parser, name: Token) -> (index: u8)
    requires
        pwf(old(parser)),
    ensures
        parsed(old(parser), final(parser)),
        final(parser).chunk.constants() == old(parser).chunk.constants().push(
            ValueView::Str(name.start@),
        ),
        final(parser).chunk.code@ == old(parser).chunk.code@,
        final(parser).current == old(parser).current,
        final(parser).previous == old(parser).previous,
        old(parser).chunk.constants().len() <= 255 ==> index == old(parser).chunk.constants().len(),
        old(parser).chunk.constants().len() > 255 ==> index == 0,
        index < final(parser).chunk.constants().len(),
        follows(old(parser), final(parser), s_add_const(pview(old(parser)), ValueView::Str(name.start@))),
{
    make_constant(parser, Values::Str(name.start))
}


/// Compiles an expression.
fn expression(parser: &mut Parser)
    requires
        pwf(old(parser)),
    ensures
        parsed(old(parser), final(parser)),
        advances(old(parser), final(parser)),
        follows(old(parser), final(parser), s_parse(old(parser).scanner.src(), pview(old(parser)), Precedence::Assignment)),
    decreases measure(old(parser)), 2int,
{
    parse_precedence(parser, Precedence::Assignment);
}

/// Compiles an expression whose operators bind at least as strongly as
/// `prec`: a prefix part, then any infix operators of that strength.
#[verifier::rlimit(60)]
#[verifier::spinoff_prover]
fn parse_precedence(parser: &mut Parser, prec: Precedence)
    requires
        pwf(old(parser)),
        level(prec) >= 1,
    ensures
        parsed(old(parser), final(parser)),
        advances(old(parser), final(parser)),
        follows(
            old(parser),
            final(parser),
            s_parse(old(parser).scanner.src(), pview(old(parser)), prec),
        ),
        rules_of(old(parser).current.token_type).prefix is None ==> {
            &&& final(parser).chunk == old(parser).chunk
            &&& final(parser).float_literals == old(parser).float_literals
            &&& final(parser).previous == old(parser).current
            &&& final(parser).had_err
            &&& final(parser).panic_mode
            &&& (!old(parser).panic_mode && s_adv(
                old(parser).scanner.src(),
                pview(old(parser)),
            ) is Ok ==> {
                &&& final(parser).errors@.len() == old(parser).errors@.len() + 1
                &&& final(parser).errors@.last().token@ == old(parser).current@
                &&& final(parser).errors@.last().message@ == "Expect expression."@
            })
        },
    decreases measure(old(parser)), 1int,
{
    let ghost src = parser.scanner.src();
    advance(parser);
    let ghost p1 = *parser;
    let can_assign = prec.level() <= Precedence::Assignment.level();
    proof {
        lemma_measure(old(parser));
        lemma_measure(&p1);
    }
    match get_rules(parser.previous.token_type).prefix {
        Some(f) => {
            dispatch(f, parser, can_assign);
            proof {
                lemma_grows_trans(old(parser), &p1, parser);
            }
        },
        None => {
            error(parser, "Expect expression.");
            proof {
                lemma_error_grows(&p1, parser);
                lemma_grows_trans(old(parser), &p1, parser);
                lemma_error_follows(&p1, parser, p1.previous@, "Expect expression."@);
            }
            return;
        },
    }
    let ghost p2 = *parser;
    proof {
        lemma_measure(&p2);
        lemma_grows_refl(&p2);
    }
    while prec.level() <= get_rules(parser.current.token_type).prec.level()
        invariant
            level(prec) >= 1,
            can_assign == (level(prec) <= 1),
            parsed(old(parser), parser),
            grows(&p2, parser),
            parser.scanner.src() == src,
            p2.scanner.src() == src,
            old(parser).current.token_type != TokenType::Teof,
            measure(parser) < measure(old(parser)),
            clean(&p2) ==> if clean(parser) {
                s_infix(src, pview(&p2), prec, can_assign) == s_infix(
                    src,
                    pview(parser),
                    prec,
                    can_assign,
                )
            } else {
                s_infix(src, pview(&p2), prec, can_assign) is Err && follows(
                    &p2,
                    parser,
                    s_infix(src, pview(&p2), prec, can_assign),
                )
            },
        decreases measure(parser),
    {
        let ghost q0 = *parser;
        proof {
            lemma_measure(&q0);
        }
        advance(parser);
        proof {
            lemma_grows_trans(old(parser), &q0, parser);
            lemma_grows_trans(&p2, &q0, parser);
        }
        let ghost q1 = *parser;
        proof {
            lemma_measure(&q1);
        }
        match get_rules(parser.previous.token_type).infix {
            Some(f) => {
                dispatch(f, parser, can_assign);
                proof {
                    lemma_grows_trans(old(parser), &q1, parser);
                    lemma_grows_trans(&p2, &q1, parser);
                    lemma_measure(parser);
                    lemma_follows_bind(&q0, &q1, parser, s_adv(src, pview(&q0)), s_dispatch(src, pview(&q1), f, can_assign));
                }
            },
            None => {
                proof {
                    lemma_grows_refl(&q1);
                }
            },
        }
        proof {
            lemma_measure(parser);
        }
    }
    let ghost p4 = *parser;
    proof {
        lemma_grows_refl(&p4);
        lemma_measure(&p4);
    }
    if can_assign && match_tokens(parser, TokenType::Teq) {
        proof {
            lemma_grows_trans(old(parser), &p4, parser);
        }
        let ghost p5 = *parser;
        error(parser, "Invalid assignment target.");
        proof {
            lemma_error_grows(&p5, parser);
            lemma_grows_trans(old(parser), &p5, parser);
            lemma_error_follows(&p5, parser, p5.previous@, "Invalid assignment target."@);
        }
    } else {
        proof {
            lemma_grows_trans(old(parser), &p4, parser);
        }
    }
}

/// Runs the parsing function `f` for the token just read.
fn dispatch(f: ParseFn, parser: &mut Parser, can_assign: bool)
    requires
        pwf(old(parser)),
        f == ParseFn::Binary ==> binary_opcode(old(parser).previous.token_type) is Some,
    ensures
        parsed(old(parser), final(parser)),
        follows(old(parser), final(parser), s_dispatch(old(parser).scanner.src(), pview(old(parser)), f, can_assign)),
    decreases measure(old(parser)), 5int,
{
    match f {
        ParseFn::Grouping => grouping(parser, can_assign),
        ParseFn::Unary => unary(parser, can_assign),
        ParseFn::Binary => binary(parser, can_assign),
        ParseFn::IntNum => int_num(parser, can_assign),
        ParseFn::FloatNum => float_num(parser, can_assign),
        ParseFn::Strings => strings(parser, can_assign),
        ParseFn::Variable => variable(parser, can_assign),
        ParseFn::BoolTrue => bool_true(parser, can_assign),
        ParseFn::BoolFalse => bool_false(parser, can_assign),
    }
}

/// A parenthesized expression.
fn grouping(parser: &mut Parser, _can_assign: bool)
    requires
        pwf(old(parser)),
    ensures
        parsed(old(parser), final(parser)),
        follows(old(parser), final(parser), s_dispatch(old(parser).scanner.src(), pview(old(parser)), ParseFn::Grouping, _can_assign)),
    decreases measure(old(parser)), 4int,
{
    expression(parser);
    let ghost p1 = *parser;
    consume(parser, "Expect ')' after expression.", TokenType::Trp);
    proof {
        lemma_grows_trans(old(parser), &p1, parser);
    }
}

/// A negation or a `!`: the operand, then the operator's instruction.
fn unary(parser: &mut Parser, _can_assign: bool)
    requires
        pwf(old(parser)),
    ensures
        parsed(old(parser), final(parser)),
        old(parser).previous.token_type == TokenType::Tminus ==> final(parser).chunk.code@.last()
            == op_byte(OpCode::OpNegate),
        old(parser).previous.token_type == TokenType::Tnot ==> final(parser).chunk.code@.last()
            == op_byte(OpCode::OpNot),
        follows(old(parser), final(parser), s_dispatch(old(parser).scanner.src(), pview(old(parser)), ParseFn::Unary, _can_assign)),
    decreases measure(old(parser)), 4int,
{
    let optype = parser.previous.token_type;
    parse_precedence(parser, Precedence::Unary);
    let ghost p1 = *parser;
    match optype {
        TokenType::Tminus => emit_byte(parser, OpCode::OpNegate.to_byte()),
        TokenType::Tnot => emit_byte(parser, OpCode::OpNot.to_byte()),
        _ => {
            error(parser, "unsupported operand.");
            proof {
                lemma_error_grows(&p1, parser);
            }
        },
    }
    proof {
        lemma_grows_trans(old(parser), &p1, parser);
    }
}

/// The right operand of a binary operator, parsed one level stronger than
/// the operator, then the operator's instruction.
fn binary(parser: &mut Parser, _can_assign: bool)
    requires
        pwf(old(parser)),
        binary_opcode(old(parser).previous.token_type) is Some,
    ensures
        parsed(old(parser), final(parser)),
        final(parser).chunk.code@.last() == op_byte(
            binary_opcode(old(parser).previous.token_type).unwrap(),
        ),
        follows(old(parser), final(parser), s_dispatch(old(parser).scanner.src(), pview(old(parser)), ParseFn::Binary, _can_assign)),
    decreases measure(old(parser)), 4int,
{
    let optype = parser.previous.token_type;
    let rule = get_rules(optype);
    let next_rule = match rule.prec {
        Precedence::NoPrec => Precedence::Assignment,
        Precedence::Assignment => Precedence::Eq,
        Precedence::Eq => Precedence::Comps,
        Precedence::Comps => Precedence::Terms,
        Precedence::Terms => Precedence::Factors,
        Precedence::Factors => Precedence::Unary,
        Precedence::Unary => Precedence::Call,
        Precedence::Call => Precedence::Prime,
        Precedence::Prime => Precedence::Prime,
    };
    parse_precedence(parser, next_rule);
    let ghost p1 = *parser;
    let op = match optype {
        TokenType::Tplus => OpCode::OpAdd,
        TokenType::Tminus => OpCode::OpSubtract,
        TokenType::TdivOp => OpCode::OpDivide,
        TokenType::TmulOp => OpCode::OpMultiply,
        TokenType::TmodOp => OpCode::OpMod,
        TokenType::TpowOp => OpCode::OpPow,
        TokenType::TdivdivOp => OpCode::OpDivideDivide,
        TokenType::TeqEq => OpCode::OpEqEq,
        TokenType::TnotEq => OpCode::OpNotEq,
        TokenType::Tgt => OpCode::OpGt,
        TokenType::Tlt => OpCode::OpLt,
        TokenType::Tgte => OpCode::OpGte,
        _ => OpCode::OpLte,
    };
    emit_byte(parser, op.to_byte());
    proof {
        lemma_grows_trans(old(parser), &p1, parser);
    }
}

fn variable(parser: &mut Parser, can_assign: bool)
    requires
        pwf(old(parser)),
    ensures
        parsed(old(parser), final(parser)),
        follows(old(parser), final(parser), s_dispatch(old(parser).scanner.src(), pview(old(parser)), ParseFn::Variable, can_assign)),
    decreases measure(old(parser)), 4int,
{
    let name = parser.previous.copy();
    named_variable(parser, name, can_assign);
}

/// A use of a variable, or an assignment to it when `=` follows and
/// assignment is allowed here: a local by its slot, a global by its name.
#[verifier::rlimit(60)]
#[verifier::spinoff_prover]
fn named_variable(parser: &mut Parser, name: Token, can_assign: bool)
    requires
        pwf(old(parser)),
    ensures
        parsed(old(parser), final(parser)),
        follows(old(parser), final(parser), s_named(old(parser).scanner.src(), pview(old(parser)), name.start@, can_assign)),
    decreases measure(old(parser)), 3int,
{
    let ghost src = parser.scanner.src();
    let arg = resolve_locals(parser, &name);
    let ghost p1 = *parser;
    proof {
        lemma_grows_refl(&p1);
        lemma_resolve_bounds(old(parser).compiler.locals@, old(parser).compiler.local_count as int, name.start@);
        crate::grammar::lemma_lview(old(parser).compiler.locals@, old(parser).compiler.local_count as int, 0, name.start@);
        lemma_measure(old(parser));
    }
    let get_op: u8;
    let set_op: u8;
    let arg: u8 = if arg != -1 {
        get_op = OpCode::OpGetLocal.to_byte();
        set_op = OpCode::OpSetLocal.to_byte();
        arg as u8
    } else {
        let arg = ider_constant(parser, name);
        get_op = OpCode::OpGetGlobal.to_byte();
        set_op = OpCode::OpSetGlobal.to_byte();
        arg
    };
    proof {
        lemma_grows_trans(old(parser), &p1, parser);
    }
    let ghost p2 = *parser;
    proof {
        lemma_grows_refl(&p2);
        lemma_measure(&p2);
    }
    if can_assign && match_tokens(parser, TokenType::Teq) {
        let ghost p3 = *parser;
        proof {
            lemma_measure(&p3);
        }
        expression(parser);
        let ghost p4 = *parser;
        emit_bytes(parser, set_op, arg);
        proof {
            lemma_grows_trans(&p3, &p4, parser);
            lemma_follows_bind(&p3, &p4, parser, s_parse(src, pview(&p3), Precedence::Assignment), Ok(s_emit(pview(&p4), seq![set_op, arg])));
            lemma_follows_bind(&p2, &p3, parser, s_adv(src, pview(&p2)), match s_parse(src, pview(&p3), Precedence::Assignment) { Ok(st3) => Ok(s_emit(st3, seq![set_op, arg])), Err(e) => Err(e) });
            lemma_grows_trans(&p2, &p3, &p4);
            lemma_grows_trans(&p2, &p4, parser);
            lemma_grows_trans(old(parser), &p2, parser);
        }
    } else {
        emit_bytes(parser, get_op, arg);
        proof {
            lemma_grows_trans(old(parser), &p2, parser);
        }
    }
}


// ---------------------------------------------------------------------------
// Statements.
// ---------------------------------------------------------------------------

/// The byte pair that encodes a jump distance: high byte, then low byte,
/// of the distance taken modulo 2^16.
pub open spec fn jump_bytes(jump: int) -> (u8, u8) {
    (((jump / 256) % 256) as u8, (jump % 256) as u8)
}

/// The code with the distance from just after the two bytes at `offset` to
/// the end of the code written into them.
pub open spec fn patched(code: Seq<u8>, offset: int) -> Seq<u8> {
    let j = jump_bytes(code.len() - offset - 2);
    code.update(offset, j.0).update(offset + 1, j.1)
}

/// Writes, into the two bytes at `offset`, the distance from just after
/// them to the end of the code.
pub fn patch_jump(parser: &mut Parser, offset: usize)
    requires
        pwf(old(parser)),
        offset + 2 <= old(parser).chunk.code@.len(),
    ensures
        pwf(final(parser)),
        final(parser).chunk.code@ == patched(old(parser).chunk.code@, offset as int),
        final(parser).chunk.line@ == old(parser).chunk.line@,
        final(parser).chunk.constants() == old(parser).chunk.constants(),
        final(parser).current == old(parser).current,
        final(parser).previous == old(parser).previous,
        final(parser).scanner == old(parser).scanner,
        final(parser).compiler == old(parser).compiler,
        final(parser).errors == old(parser).errors,
        final(parser).had_err == old(parser).had_err,
        final(parser).panic_mode == old(parser).panic_mode,
        final(parser).float_literals == old(parser).float_literals,
        final(parser).fault == old(parser).fault,
{
    let jump = parser.chunk.code.len() - offset - 2;
    let high = ((jump >> 8) & 0xff) as u8;
    let low = (jump & 0xff) as u8;
    assert(((jump >> 8) & 0xff) as u8 == ((jump / 256) % 256) as u8) by (bit_vector);
    assert((jump & 0xff) as u8 == (jump % 256) as u8) by (bit_vector);
    parser.chunk.code.set(offset, high);
    parser.chunk.code.set(offset + 1, low);
}

/// Emits a jump instruction with a placeholder distance; gives the position
/// of the distance.
fn emit_jump(parser: &mut Parser, instruction: u8) -> (offset: usize)
    requires
        pwf(old(parser)),
        runnable(instruction),
        kind_of(instruction) is Jump,
    ensures
        pwf(final(parser)),
        grew_core(old(parser), final(parser)),
        emits(old(parser), final(parser), seq![instruction, 0xffu8, 0xffu8]),
        offset == old(parser).chunk.code@.len() + 1,
{
    let line = parser.previous.line;
    parser.chunk.write_chunk(instruction, line);
    parser.chunk.write_chunk(0xff, line);
    parser.chunk.write_chunk(0xff, line);
    proof {
        let n = parser.chunk.constants().len();
        let bytes = seq![instruction, 0xffu8, 0xffu8];
        lemma_whole_end(bytes, n);
        lemma_whole_step(bytes, 0, n);
        assert(parser.chunk.code@ =~= old(parser).chunk.code@ + bytes);
        assert(parser.chunk.line@ =~= old(parser).chunk.line@ + Seq::new(
            3,
            |i: int| old(parser).previous.line,
        ));
        lemma_emits_grows_core(old(parser), parser, bytes);
    }
    parser.chunk.code.len() - 2
}

/// `print` expression `;`
fn print_statement(parser: &mut Parser)
    requires
        pwf(old(parser)),
    ensures
        pwf(final(parser)),
        grows(old(parser), final(parser)),
        advances(old(parser), final(parser)),
        final(parser).chunk.code@.last() == op_byte(OpCode::OpPrint),
        follows(old(parser), final(parser), s_print(old(parser).scanner.src(), pview(old(parser)))),
{
    expression(parser);
    let ghost p1 = *parser;
    consume(parser, "Expect ';' after value.", TokenType::Tsemicolon);
    let ghost p2 = *parser;
    emit_byte(parser, OpCode::OpPrint.to_byte());
    proof {
        lemma_grows_trans(old(parser), &p1, &p2);
        lemma_grows_trans(old(parser), &p2, parser);
    }
}

/// expression `;` — the value is dropped.
fn expression_statement(parser: &mut Parser)
    requires
        pwf(old(parser)),
    ensures
        pwf(final(parser)),
        grows(old(parser), final(parser)),
        advances(old(parser), final(parser)),
        final(parser).chunk.code@.last() == op_byte(OpCode::OpPop),
        follows(old(parser), final(parser), s_expr_stmt(old(parser).scanner.src(), pview(old(parser)))),
{
    expression(parser);
    let ghost p1 = *parser;
    consume(parser, "Expect ';' after value.", TokenType::Tsemicolon);
    let ghost p2 = *parser;
    emit_byte(parser, OpCode::OpPop.to_byte());
    proof {
        lemma_grows_trans(old(parser), &p1, &p2);
        lemma_grows_trans(old(parser), &p2, parser);
    }
}

/// Ends error recovery.
fn sync(parser: &mut Parser)
    requires
        pwf(old(parser)),
    ensures
        pwf(final(parser)),
        grows(old(parser), final(parser)),
        !final(parser).panic_mode,
        *final(parser) == (Parser { panic_mode: false, ..*old(parser) }),
{
    parser.panic_mode = false;
    proof {
        lemma_grows_refl(old(parser));
    }
}

/// Whether a variable named `name` is declared in the innermost scope:
/// looking from the last variable in scope down to the first one of an
/// enclosing scope.
pub open spec fn declared_here(locals: Seq<Local>, count: int, depth: int, name: Seq<char>) -> bool
    decreases count,
{
    if count <= 0 {
        false
    } else if locals[count - 1].depth != -1 && locals[count - 1].depth < depth {
        false
    } else if locals[count - 1].name.start@ == name {
        true
    } else {
        declared_here(locals, count - 1, depth, name)
    }
}

/// Declares the variable named by the token just read, in a block; a
/// variable of that name already in the same block is an error.
fn declare_var(parser: &mut Parser)
    requires
        pwf(old(parser)),
        old(parser).compiler.locals@.len() + measure(old(parser)) + 1 <= old(parser).scanner.src().len() + 1,
    ensures
        pwf(final(parser)),
        grows(old(parser), final(parser)),
        final(parser).current == old(parser).current,
        final(parser).previous == old(parser).previous,
        final(parser).chunk == old(parser).chunk,
        final(parser).scanner == old(parser).scanner,
        final(parser).float_literals == old(parser).float_literals,
        old(parser).compiler.scope_depth == 0 ==> *final(parser) == *old(parser),
        old(parser).compiler.scope_depth > 0 ==> {
            &&& final(parser).compiler.locals@ == old(parser).compiler.locals@.push(
                Local { name: old(parser).previous, depth: -1i64 },
            )
            &&& final(parser).compiler.local_count == old(parser).compiler.local_count + 1
            &&& if declared_here(
                old(parser).compiler.locals@,
                old(parser).compiler.local_count as int,
                old(parser).compiler.scope_depth as int,
                old(parser).previous.start@,
            ) {
                records_error(
                    old(parser),
                    &Parser { compiler: old(parser).compiler, ..*final(parser) },
                    old(parser).previous@,
                    "Already a variable with this name in this scope."@,
                )
            } else {
                &&& final(parser).errors == old(parser).errors
                &&& final(parser).had_err == old(parser).had_err
                &&& final(parser).panic_mode == old(parser).panic_mode
            }
        },
        follows(old(parser), final(parser), s_declare(pview(old(parser)))),
{
    if parser.compiler.scope_depth == 0 {
        proof {
            lemma_grows_refl(parser);
        }
        return;
    }
    let name = parser.previous.copy();
    let ghost locals = parser.compiler.locals@;
    let ghost count = parser.compiler.local_count as int;
    let ghost depth = parser.compiler.scope_depth as int;
    let ghost dup = declared_here(locals, count, depth, name.start@);
    let n = parser.compiler.locals.len();
    let mut i: i64 = parser.compiler.local_count;
    let mut found = false;
    proof {
        lemma_grows_refl(parser);
    }
    while i > 0
        invariant_except_break
            dup == (found || declared_here(locals, i as int, depth, name.start@)),
        invariant
            0 <= i <= count <= n,
            n == locals.len(),
            locals == old(parser).compiler.locals@,
            count == old(parser).compiler.local_count,
            depth == old(parser).compiler.scope_depth,
            name == old(parser).previous,
            parser.compiler == old(parser).compiler,
            parser.current == old(parser).current,
            parser.previous == old(parser).previous,
            parser.chunk == old(parser).chunk,
            parser.scanner == old(parser).scanner,
            parser.float_literals == old(parser).float_literals,
            parser.fault == old(parser).fault,
            pwf(parser),
            grows(old(parser), parser),
            found ==> records_error(old(parser), parser, old(parser).previous@,
                "Already a variable with this name in this scope."@),
            !found ==> *parser == *old(parser),
        ensures
            dup == found,
        decreases i,
    {
        let k = (i - 1) as usize;
        assert(k as int == i - 1);
        let local_depth = parser.compiler.locals[k].depth;
        if local_depth != -1 && local_depth < parser.compiler.scope_depth {
            break;
        }
        if ider_eq(&name, &parser.compiler.locals[k].name) {
            let ghost before = *parser;
            error(parser, "Already a variable with this name in this scope.");
            proof {
                lemma_error_grows(&before, parser);
                lemma_grows_trans(old(parser), &before, parser);
            }
            found = true;
        }
        i = i - 1;
    }
    let ghost p1 = *parser;
    parser.compiler.add_local(name);
    proof {
        crate::grammar::lemma_lview(locals, count, depth, old(parser).previous.start@);
        assert(crate::grammar::lview(parser.compiler.locals@) =~= crate::grammar::lview(locals).push(
            (old(parser).previous.start@, -1i64),
        ));
        assert(prefix(p1.errors@, parser.errors@)) by {
            lemma_prefix_refl(p1.errors@);
        }
        lemma_prefix_refl(p1.chunk.code@);
        lemma_prefix_refl(p1.chunk.line@);
        lemma_prefix_refl(p1.chunk.constants());
        lemma_prefix_refl(p1.float_literals@);
        lemma_grows_trans(old(parser), &p1, parser);
    }
}

/// Reads the name of a variable being declared; in a block it becomes a
/// local (index 0 is given), else its name is added to the constants.
fn parse_var(parser: &mut Parser, message: &str) -> (global: u8)
    requires
        pwf(old(parser)),
        old(parser).compiler.locals@.len() + measure(old(parser)) + 1 <= old(parser).scanner.src().len() + 1,
    ensures
        pwf(final(parser)),
        grows(old(parser), final(parser)),
        final(parser).compiler.local_count >= old(parser).compiler.local_count,
        old(parser).compiler.scope_depth > 0 ==> final(parser).compiler.local_count > 0,
        old(parser).compiler.scope_depth == 0 ==> global < final(parser).chunk.constants().len(),
        follows(old(parser), final(parser), s_parse_var(old(parser).scanner.src(), pview(old(parser)), message@)),
        old(parser).compiler.scope_depth == 0 && clean(final(parser)) ==> global as int == final(parser).chunk.constants().len() - 1,
{
    consume(parser, message, TokenType::Tid);
    let ghost p1 = *parser;
    declare_var(parser);
    let ghost p2 = *parser;
    proof {
        lemma_grows_trans(old(parser), &p1, &p2);
    }
    if parser.compiler.scope_depth > 0 {
        return 0;
    }
    let name = parser.previous.copy();
    let g = ider_constant(parser, name);
    proof {
        lemma_grows_trans(old(parser), &p2, parser);
    }
    g
}

/// Completes a variable declaration: a local becomes usable, a global is
/// defined by name.
fn define_var(parser: &mut Parser, global: u8)
    requires
        pwf(old(parser)),
        old(parser).compiler.scope_depth > 0 ==> old(parser).compiler.local_count > 0,
        old(parser).compiler.scope_depth == 0 ==> global < old(parser).chunk.constants().len(),
    ensures
        pwf(final(parser)),
        grows(old(parser), final(parser)),
        old(parser).compiler.scope_depth == 0 ==> emits(
            old(parser),
            final(parser),
            seq![op_byte(OpCode::OpDefGlobal), global],
        ),
        follows(old(parser), final(parser), Ok(s_define(pview(old(parser)), global))),
{
    if parser.compiler.scope_depth > 0 {
        parser.compiler.mark_initialized();
        proof {
            let l = old(parser).compiler.locals@;
            let k = old(parser).compiler.local_count - 1;
            assert(crate::grammar::lview(parser.compiler.locals@) =~= crate::grammar::lview(l).update(
                k,
                (crate::grammar::lview(l)[k].0, old(parser).compiler.scope_depth as i64),
            ));
            lemma_prefix_refl(parser.chunk.code@);
            lemma_prefix_refl(parser.chunk.line@);
            lemma_prefix_refl(parser.chunk.constants());
            lemma_prefix_refl(parser.errors@);
            lemma_prefix_refl(parser.float_literals@);
        }
        return;
    }
    emit_bytes(parser, OpCode::OpDefGlobal.to_byte(), global);
}

/// `set` name `=` expression `;` — the `set` has been read.
fn var_declaration(parser: &mut Parser)
    requires
        pwf(old(parser)),
        old(parser).compiler.locals@.len() + measure(old(parser)) + 1 <= old(parser).scanner.src().len() + 1,
    ensures
        pwf(final(parser)),
        grows(old(parser), final(parser)),
        follows(old(parser), final(parser), s_var_decl(old(parser).scanner.src(), pview(old(parser)))),
{
    let global = parse_var(parser, "Expect variable name.");
    let ghost p1 = *parser;
    proof {
        lemma_grows_refl(&p1);
    }
    if match_tokens(parser, TokenType::Teq) {
        let ghost p2 = *parser;
        expression(parser);
        proof {
            lemma_grows_trans(&p1, &p2, parser);
        }
    } else {
        let ghost p2 = *parser;
        error(parser, "Expect '=' after variable name.");
        proof {
            lemma_error_grows(&p2, parser);
            lemma_grows_trans(&p1, &p2, parser);
        }
    }
    let ghost p3 = *parser;
    consume(parser, "Expect ';' after variable declaration.", TokenType::Tsemicolon);
    let ghost p4 = *parser;
    define_var(parser, global);
    proof {
        lemma_grows_trans(&p1, &p3, &p4);
        lemma_grows_trans(&p1, &p4, parser);
        lemma_grows_trans(old(parser), &p1, parser);
    }
}


/// A declaration: `set` declares a variable, anything else is a statement.
/// After an error the parser recovers here.
fn declaration(parser: &mut Parser)
    requires
        pwf(old(parser)),
    ensures
        pwf(final(parser)),
        grows(old(parser), final(parser)),
        advances(old(parser), final(parser)),
        !final(parser).panic_mode,
        follows(old(parser), final(parser), s_decl(old(parser).scanner.src(), pview(old(parser)))),
    decreases measure(old(parser)), 3int,
{
    let ghost p0 = *parser;
    if match_tokens(parser, TokenType::Tset) {
        let ghost p1 = *parser;
        var_declaration(parser);
        proof {
            lemma_grows_trans(&p0, &p1, parser);
        }
    } else {
        statement(parser);
    }
    if parser.panic_mode {
        let ghost p2 = *parser;
        sync(parser);
        proof {
            lemma_grows_trans(&p0, &p2, parser);
        }
    }
}

/// A block, after its `{`: its declarations one scope deeper, then the
/// variables declared in it are popped.
#[verifier::rlimit(60)]
#[verifier::spinoff_prover]
fn block_statement(parser: &mut Parser)
    requires
        pwf(old(parser)),
        old(parser).compiler.scope_depth + 1 + measure(old(parser)) <= old(parser).scanner.src().len() + 1,
    ensures
        pwf(final(parser)),
        grows(old(parser), final(parser)),
        follows(old(parser), final(parser), s_block_stmt(old(parser).scanner.src(), pview(old(parser)))),
    decreases measure(old(parser)), 5int,
{
    let ghost src = parser.scanner.src();
    let ghost p1 = *parser;
    parser.compiler.begin_scope();
    let ghost p2 = *parser;
    proof {
        lemma_grows_refl(&p2);
        lemma_prefix_refl(p1.chunk.code@);
        lemma_prefix_refl(p1.chunk.line@);
        lemma_prefix_refl(p1.chunk.constants());
        lemma_prefix_refl(p1.errors@);
        lemma_prefix_refl(p1.float_literals@);
        assert(grew(&p1, &p2));
        assert(pview(&p2) == PState { depth: pview(&p1).depth + 1, ..pview(&p1) });
    }
    block(parser);
    let ghost p3 = *parser;
    let pops = parser.compiler.end_scope();
    let ghost p4 = *parser;
    proof {
        lemma_prefix_refl(p3.chunk.code@);
        lemma_prefix_refl(p3.chunk.line@);
        lemma_prefix_refl(p3.chunk.constants());
        lemma_prefix_refl(p3.errors@);
        lemma_prefix_refl(p3.float_literals@);
        assert(grew(&p3, &p4));
        lemma_grew_trans(&p1, &p2, &p3);
        lemma_grew_trans(&p1, &p3, &p4);
        assert(grows(&p1, &p4));
        crate::grammar::lemma_lview(
            p3.compiler.locals@,
            p3.compiler.local_count as int,
            p3.compiler.scope_depth - 1,
            Seq::empty(),
        );
        assert(pview(&p4) == PState {
            depth: pview(&p3).depth - 1,
            count: pview(&p3).count - pops,
            ..pview(&p3)
        });
    }
    if pops > 255 {
        fault(parser);
        proof {
            lemma_grows_trans(&p1, &p4, parser);
        }
    }
    let ghost p5 = *parser;
    proof {
        lemma_grows_refl(&p5);
        assert(grows(&p1, &p5));
        assert(s_emit(pview(&p4), crate::grammar::pops_code(0)) =~= pview(&p4)) by {
            assert(s_emit(pview(&p4), crate::grammar::pops_code(0)).code =~= pview(&p4).code);
            assert(s_emit(pview(&p4), crate::grammar::pops_code(0)).lines =~= pview(&p4).lines);
        }
    }
    let mut k: u64 = 0;
    while k < pops
        invariant
            pwf(parser),
            grows(&p1, parser),
            grows(&p5, parser),
            k <= pops,
            clean(parser) == clean(&p5),
            clean(parser) ==> clean(&p5) && pops <= 255 && pview(parser) == s_emit(
                pview(&p4),
                crate::grammar::pops_code(k as nat),
            ),
        decreases pops - k,
    {
        let ghost before = *parser;
        emit_byte(parser, OpCode::OpPop.to_byte());
        proof {
            lemma_grows_trans(&p1, &before, parser);
            lemma_grows_trans(&p5, &before, parser);
            crate::grammar::lemma_emit_more(pview(&p4), k as nat);
        }
        k = k + 1;
    }
    proof {
        if clean(old(parser)) {
            assert(clean(&p1));
            assert(clean(&p2));
            if clean(parser) {
                assert(clean(&p3));
                assert(s_block(src, pview(&p2)) matches Ok(st3) && pview(&p3) == st3);
                assert(pops == crate::grammar::dropped_v(pview(&p3).locals, pview(&p3).count, pview(&p3).depth - 1));
                assert(pview(parser) == s_emit(pview(&p4), crate::grammar::pops_code(pops as nat)));
            } else {
                assert(grew(&p3, &p5)) by {
                    lemma_grew_trans(&p3, &p4, &p5);
                }
                lemma_grew_trans(&p3, &p5, parser);
                lemma_grew_trans(&p4, &p5, parser);
                if s_block(src, pview(&p2)) is Err {
                    lemma_follows_bind(&p2, &p3, parser, s_block(src, pview(&p2)), Ok(pview(parser)));
                } else if pops > 255 {
                    lemma_follows_bind(&p4, &p5, parser, Err(Stop::Fault), Ok(pview(parser)));
                }
            }
        }
    }
}

/// A statement: `print`, `if`, a block, or an expression.
fn statement(parser: &mut Parser)
    requires
        pwf(old(parser)),
    ensures
        pwf(final(parser)),
        grows(old(parser), final(parser)),
        advances(old(parser), final(parser)),
        follows(old(parser), final(parser), s_stmt(old(parser).scanner.src(), pview(old(parser)))),
    decreases measure(old(parser)), 2int,
{
    let ghost p0 = *parser;
    if match_tokens(parser, TokenType::Tprint) {
        let ghost p1 = *parser;
        print_statement(parser);
        proof {
            lemma_grows_trans(&p0, &p1, parser);
        }
    } else if match_tokens(parser, TokenType::Tif) {
        let ghost p1 = *parser;
        if_statement(parser);
        proof {
            lemma_grows_trans(&p0, &p1, parser);
        }
    } else if match_tokens(parser, TokenType::Tlb) {
        let ghost p1 = *parser;
        block_statement(parser);
        proof {
            lemma_grows_trans(&p0, &p1, parser);
        }
    } else {
        expression_statement(parser);
    }
}

/// The declarations of a block, up to its closing brace.
fn block(parser: &mut Parser)
    requires
        pwf(old(parser)),
    ensures
        pwf(final(parser)),
        grows(old(parser), final(parser)),
        follows(old(parser), final(parser), s_block(old(parser).scanner.src(), pview(old(parser)))),
    decreases measure(old(parser)), 4int,
{
    let ghost src = parser.scanner.src();
    proof {
        lemma_grows_refl(parser);
    }
    while !check(parser, TokenType::Trb) && !check(parser, TokenType::Teof)
        invariant
            pwf(parser),
            grows(old(parser), parser),
            parser.scanner.src() == src,
            old(parser).scanner.src() == src,
            clean(old(parser)) ==> if clean(parser) {
                s_block(src, pview(old(parser))) == s_block(src, pview(parser))
            } else {
                s_block(src, pview(old(parser))) is Err && follows(
                    old(parser),
                    parser,
                    s_block(src, pview(old(parser))),
                )
            },
        decreases measure(parser),
    {
        let ghost before = *parser;
        proof {
            lemma_measure(&before);
        }
        declaration(parser);
        proof {
            lemma_grows_trans(old(parser), &before, parser);
            lemma_measure(parser);
        }
    }
    let ghost p1 = *parser;
    consume(parser, "Expect '}' after block.", TokenType::Trb);
    proof {
        lemma_grows_trans(old(parser), &p1, parser);
    }
}

/// At position `o` stands the distance of a conditional jump whose
/// instruction precedes it, and the jump leads to the end of `code`.
pub open spec fn jump_to_end(code: Seq<u8>, o: int) -> bool {
    &&& 1 <= o
    &&& o + 2 <= code.len()
    &&& code[o - 1] == op_byte(OpCode::OpJumpIfFalse)
    &&& (code[o], code[o + 1]) == jump_bytes(code.len() - o - 2)
}

/// `if` condition statement — the `if` has been read. A conditional jump
/// over the statement follows the condition; the condition stays on the
/// stack.
#[verifier::rlimit(100)]
#[verifier::spinoff_prover]
fn if_statement(parser: &mut Parser)
    requires
        pwf(old(parser)),
    ensures
        pwf(final(parser)),
        grows(old(parser), final(parser)),
        exists|o: int|
            old(parser).chunk.code@.len() < o && #[trigger] jump_to_end(final(parser).chunk.code@, o),
        follows(old(parser), final(parser), s_if(old(parser).scanner.src(), pview(old(parser)))),
    decreases measure(old(parser)), 3int,
{
    expression(parser);
    let ghost p1 = *parser;
    let then_jump = emit_jump(parser, OpCode::OpJumpIfFalse.to_byte());
    let ghost p2 = *parser;
    statement(parser);
    let ghost p3 = *parser;
    patch_jump(parser, then_jump);
    proof {
        lemma_grew_core_trans(old(parser), &p1, &p2);
        lemma_grew_core_trans(old(parser), &p2, &p3);
        lemma_grew_core_trans(&p1, &p2, &p3);
        let o = then_jump as int;
        let n1 = p1.chunk.constants().len();
        let n3 = p3.chunk.constants().len();
        let c = parser.chunk.code@;
        let l0 = old(parser).chunk.code@.len() as int;
        let l1 = p1.chunk.code@.len() as int;
        let l2 = p2.chunk.code@.len() as int;
        assert(l2 == l1 + 3);
        assert(whole_from(c, l2, n3)) by {
            if l2 == c.len() {
                lemma_whole_end(c, n3);
            } else {
                assert(forall|j: int| l2 <= j < c.len() ==> p3.chunk.code@[j] == c[j]);
                lemma_whole_agree(p3.chunk.code@, c, l2, n3, n3);
            }
        }
        assert(c[l1] == p2.chunk.code@[l1]);
        assert(c[l1] == op_byte(OpCode::OpJumpIfFalse));
        lemma_whole_step(c, l1, n3);
        assert(whole_after(c, l0, n3)) by {
            if l0 < l1 {
                assert(c.take(l1) =~= p1.chunk.code@) by {
                    assert forall|j: int| 0 <= j < l1 implies c[j] == p1.chunk.code@[j] by {
                        assert(c[j] == p3.chunk.code@[j]);
                        assert(p3.chunk.code@[j] == p2.chunk.code@[j]);
                        assert(p2.chunk.code@[j] == p1.chunk.code@[j]);
                    }
                }
                lemma_whole_extend(p1.chunk.code@, c, l0, n1, n3);
            }
        }
        assert(p2.chunk.code@[o - 1] == op_byte(OpCode::OpJumpIfFalse));
        assert(p3.chunk.code@.take(p2.chunk.code@.len() as int) == p2.chunk.code@);
        assert(p3.chunk.code@[o - 1] == p2.chunk.code@[o - 1]);
        assert(parser.chunk.code@[o - 1] == op_byte(OpCode::OpJumpIfFalse));
        assert(parser.chunk.code@.take(old(parser).chunk.code@.len() as int) =~= p3.chunk.code@.take(
            old(parser).chunk.code@.len() as int,
        ));
        lemma_prefix_refl(p3.chunk.line@);
        lemma_prefix_refl(p3.chunk.constants());
        lemma_prefix_refl(p3.errors@);
        lemma_prefix_refl(p3.float_literals@);
        assert(jump_to_end(parser.chunk.code@, o));
        if c.len() < 65536 {
            lemma_if_jumps_land(old(parser).chunk.code@, p1.chunk.code@, p3.chunk.code@, c, n1, n3);
        }
    }
}

/// The jumps of an `if`: the condition's code `p1` (grown from `p0`), the
/// conditional jump, the branch's code up to the end of `p3`, and the jump
/// patched to lead to the end of it all, `c`.
proof fn lemma_if_jumps_land(p0: Seq<u8>, p1: Seq<u8>, p3: Seq<u8>, c: Seq<u8>, n1: nat, n3: nat)
    requires
        p0.len() <= p1.len(),
        p1.len() + 3 <= p3.len(),
        c.len() == p3.len(),
        c.len() < 65536,
        p3.take(p1.len() as int) == p1,
        forall|j: int| 0 <= j < c.len() && j != p1.len() + 1 && j != p1.len() + 2 ==> c[j] == p3[j],
        c[p1.len() as int] == op_byte(OpCode::OpJumpIfFalse),
        jump_to_end(c, p1.len() + 1int),
        whole_after(p1, p0.len() as int, n1),
        jumps_land_after(p1, p0.len() as int),
        whole_after(p3, p1.len() + 3int, n3),
        jumps_land_after(p3, p1.len() + 3int),
        whole_after(c, p0.len() as int, n3),
        n1 <= n3,
    ensures
        jumps_land_after(c, p0.len() as int),
{
    let l0 = p0.len() as int;
    let l1 = p1.len() as int;
    let l2 = l1 + 3;
    assert(c.take(l1) =~= p1) by {
        assert forall|j: int| 0 <= j < l1 implies c[j] == p1[j] by {
            assert(p3[j] == p1[j]);
        }
    }
    assert(starts_at(c, l0, l1)) by {
        if l0 < l1 {
            lemma_whole_reaches_end(p1, l0, n1);
            lemma_starts_prefix(p1, c, l0, l1);
        } else {
            lemma_starts_refl(c, l0);
        }
    }
    assert(kind_of(c[l1]) is Jump);
    lemma_starts_next(c, l0, l1);
    assert(starts_at(c, l0, l2));
    lemma_whole_at_start(c, l0, l2, n3);
    lemma_whole_reaches_end(c, l0, n3);
    assert(jump_target(c, l1) == c.len()) by {
        crate::laws::law_if_jump_lands_after_branch(c, l1 + 1);
    }
    assert forall|i: int|
        #[trigger] starts_at(c, l0, i) && l0 <= i < c.len() && kind_of(c[i]) is Jump implies starts_at(
            c,
            l0,
            jump_target(c, i),
        ) by {
        if i < l1 {
            lemma_starts_prefix(p1, c, l0, i);
            lemma_whole_at_start(p1, l0, i, n1);
            lemma_whole_unfold(p1, i, n1);
            assert(c[i] == p1[i] && c[i + 1] == p1[i + 1] && c[i + 2] == p1[i + 2]);
            assert(starts_at(p1, l0, jump_target(p1, i)));
            lemma_whole_at_start(p1, l0, jump_target(p1, i), n1);
            lemma_starts_prefix(p1, c, l0, jump_target(p1, i));
        } else if i == l1 {
        } else if i < l2 {
            lemma_starts_split(c, l0, l1, i);
            lemma_starts_unfold(c, l1, i);
        } else {
            lemma_starts_split(c, l0, l2, i);
            lemma_starts_suffix(c, p3, l2, l2, i);
            lemma_whole_at_start(p3, l2, i, n3);
            lemma_whole_unfold(p3, i, n3);
            assert(c[i] == p3[i] && c[i + 1] == p3[i + 1] && c[i + 2] == p3[i + 2]);
            assert(starts_at(p3, l2, jump_target(p3, i)));
            lemma_starts_suffix(c, p3, l2, l2, jump_target(c, i));
            lemma_starts_trans(c, l0, l2, jump_target(c, i));
        }
    }
}

/// Compiles the whole text: reads the first token, then declarations up to
/// the end of the text, then the final return. Gives whether no error was
/// found.
pub fn compile(parser: &mut Parser) -> (ok: bool)
    requires
        pwf(old(parser)),
    ensures
        pwf(final(parser)),
        grows(old(parser), final(parser)),
        ok == !final(parser).had_err,
        ok == (final(parser).errors@.len() == 0),
        final(parser).chunk.code@.len() > old(parser).chunk.code@.len(),
        final(parser).chunk.code@.last() == op_byte(OpCode::OpR),
        whole_from(
            final(parser).chunk.code@,
            old(parser).chunk.code@.len() as int,
            final(parser).chunk.constants().len(),
        ),
        final(parser).chunk.code@.len() < 65536 ==> jumps_land(
            final(parser).chunk.code@,
            old(parser).chunk.code@.len() as int,
        ),
        final(parser).scanner.current == final(parser).scanner.src().len(),
        follows(old(parser), final(parser), s_compile(old(parser).scanner.src(), pview(old(parser)))),
        !no_error_token(old(parser).scanner.src(), 0, old(parser).scanner.src().len()) ==> !ok,
        skip_trivia(old(parser).scanner.src(), old(parser).scanner.current as nat)
            == old(parser).scanner.src().len() && !old(parser).had_err ==> {
            &&& ok
            &&& final(parser).chunk.code@ == old(parser).chunk.code@.push(op_byte(OpCode::OpR))
            &&& final(parser).chunk.constants() == old(parser).chunk.constants()
            &&& final(parser).float_literals@ == old(parser).float_literals@
            &&& final(parser).fault == old(parser).fault
        },
{
    let ghost s = parser.scanner.src();
    let ghost pos0 = parser.scanner.current as nat;
    let ghost blank = skip_trivia(s, pos0) == s.len() && !parser.had_err;
    proof {
        lemma_good_token(s, pos0);
    }
    advance(parser);
    let ghost p1 = *parser;
    proof {
        lemma_grows_refl(&p1);
        if blank {
            lemma_kind_eof(s, s.len());
            assert(good_token_start(s, pos0) == s.len());
            assert(p1.current.token_type == TokenType::Teof);
        }
    }
    loop
        invariant_except_break
            blank ==> *parser == p1,
            clean(&p1) ==> if clean(parser) {
                s_program(s, pview(&p1)) == s_program(s, pview(parser))
            } else {
                s_program(s, pview(&p1)) is Err && follows(&p1, parser, s_program(s, pview(&p1)))
            },
        invariant
            pwf(parser),
            grows(old(parser), parser),
            grows(&p1, parser),
            current_is_read(parser),
            parser.scanner.src() == s,
            blank ==> p1.current.token_type == TokenType::Teof,
        ensures
            pwf(parser),
            grows(old(parser), parser),
            grows(&p1, parser),
            follows(&p1, parser, s_program(s, pview(&p1))),
            parser.scanner.current == s.len(),
            blank ==> {
                &&& parser.had_err == p1.had_err
                &&& parser.chunk == p1.chunk
                &&& parser.float_literals == p1.float_literals
                &&& parser.fault == p1.fault
            },
        decreases measure(parser),
    {
        let ghost before = *parser;
        proof {
            lemma_measure(&before);
        }
        if match_tokens(parser, TokenType::Teof) {
            proof {
                lemma_grows_trans(old(parser), &before, parser);
                lemma_grows_trans(&p1, &before, parser);
                lemma_kind_eof(s, before.scanner.start as nat);
                lemma_kind_eof(s, s.len());
                assert(before.scanner.current == s.len());
                assert(good_token_start(s, s.len()) == s.len());
            }
            break;
        }
        declaration(parser);
        proof {
            lemma_grows_trans(old(parser), &before, parser);
            lemma_grows_trans(&p1, &before, parser);
            lemma_measure(parser);
        }
    }
    let ghost p2 = *parser;
    end_compile(parser);
    proof {
        lemma_grows_trans(old(parser), &p2, parser);
        lemma_grows_trans(&p1, &p2, parser);
        lemma_follows_bind(&p1, &p2, parser, s_program(s, pview(&p1)), Ok(s_emit(pview(&p2), seq![op_byte(OpCode::OpR)])));
        lemma_follows_bind(old(parser), &p1, parser, s_adv(s, pview(old(parser))), match s_program(s, pview(&p1)) { Ok(st2) => Ok(s_emit(st2, seq![op_byte(OpCode::OpR)])), Err(e) => Err(e) });
        if blank {
            assert(parser.chunk.code@ =~= old(parser).chunk.code@.push(op_byte(OpCode::OpR)));
        }
    }
    !parser.had_err
}

} // verus!
