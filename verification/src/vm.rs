use vstd::prelude::*;
use crate::chunk_values::{
    byte_op, display_of, falsy, lemma_views_drop_last, lemma_views_push, lemma_views_update, views,
    Chunk, DisplayText, OpCode, ValueView, Values, SIGN_BIT,
};
use crate::debug::{
    decode_short, jumps_land, jumps_land_after, lemma_jumps_land_trans, lemma_starts_refl,
    lemma_whole_after_trans, short_of, starts_at, whole_after, whole_from,
};
use crate::table::Table;
use crate::compiler::{compile, new_parser, pwf, CompileError, FloatLiteral};
use crate::scanner::{no_error_token, skip_trivia};
use crate::grammar::{fview, s_compile, start_state, Stop};
use vstd::string::StringExecFns;

verus! {

/// How running a program ended.
#[derive(Debug, Clone, Copy, PartialEq, Eq, Structural)]
pub enum InterpretResult {
    InterpretOK,
    InterpretCompileErr,
    InterpretRunTimeErr,
}

#[derive(Debug, Clone, Copy, PartialEq, Eq, Structural)]
pub enum BinaryOp {
    Add,
    Subtract,
    Divide,
    Multiply,
    Mod,
    Pow,
    DivideDivide,
}

#[derive(Debug, Clone, Copy, PartialEq, Eq, Structural)]
pub enum UnaryOp {
    Negate,
    Sqrt,
    Abs,
    Floor,
    Ceil,
    Sin,
    Cos,
    Tan,
    Not,
}

#[derive(Debug, Clone, Copy, PartialEq, Eq, Structural)]
pub enum ComparisonOp {
    EqEq,
    NotEq,
    Gt,
    Lt,
    Gte,
    Lte,
}

#[derive(Debug, Clone, Copy, PartialEq, Eq, Structural)]
pub enum LogicalOp {
    And,
    Or,
}

/// The errors a running program can meet; each stops the program.
#[derive(Debug, Clone, Copy, PartialEq, Eq, Structural)]
pub enum RuntimeErrorKind {
    UndefinedVariable,
    ImmutableVariable,
    UnsupportedStringOperation,
    OperandsMustBeNumbers,
    OperandMustBeBool,
    OperandMustBeNumber,
    UnsupportedComparisonOperator,
    UnsupportedStringComparison,
    UnsupportedComparison,
    OperandsMustBeBooleans,
}

impl RuntimeErrorKind {
    /// The message reported for the error.
    pub fn message(self) -> (m: &'static str)
        ensures
            m@ == (match self {
                RuntimeErrorKind::UndefinedVariable => "Undefined variable"@,
                RuntimeErrorKind::ImmutableVariable => "Cannot reassign immutable variable."@,
                RuntimeErrorKind::UnsupportedStringOperation => "Unsupported operation for strings."@,
                RuntimeErrorKind::OperandsMustBeNumbers => "Operands must be numbers."@,
                RuntimeErrorKind::OperandMustBeBool => "Operand must be a bool."@,
                RuntimeErrorKind::OperandMustBeNumber => "Operand must be a number."@,
                RuntimeErrorKind::UnsupportedComparisonOperator => "Unsupported compression operator"@,
                RuntimeErrorKind::UnsupportedStringComparison =>
                    "Unsupported compression operation for strings."@,
                RuntimeErrorKind::UnsupportedComparison => "Unsupported compression operation."@,
                RuntimeErrorKind::OperandsMustBeBooleans => "Operands must be booleans."@,
            }),
    {
        match self {
            RuntimeErrorKind::UndefinedVariable => "Undefined variable",
            RuntimeErrorKind::ImmutableVariable => "Cannot reassign immutable variable.",
            RuntimeErrorKind::UnsupportedStringOperation => "Unsupported operation for strings.",
            RuntimeErrorKind::OperandsMustBeNumbers => "Operands must be numbers.",
            RuntimeErrorKind::OperandMustBeBool => "Operand must be a bool.",
            RuntimeErrorKind::OperandMustBeNumber => "Operand must be a number.",
            RuntimeErrorKind::UnsupportedComparisonOperator => "Unsupported compression operator",
            RuntimeErrorKind::UnsupportedStringComparison =>
                "Unsupported compression operation for strings.",
            RuntimeErrorKind::UnsupportedComparison => "Unsupported compression operation.",
            RuntimeErrorKind::OperandsMustBeBooleans => "Operands must be booleans.",
        }
    }
}

/// Work on floats that the machine hands out: the result is pushed back
/// with `resume`. `Text` asks for the printed form of a float used as the
/// name of a global variable.
#[derive(Debug)]
pub enum FloatRequest {
    Binary(BinaryOp, Values, Values),
    Unary(UnaryOp, Values),
    Comparison(ComparisonOp, Values, Values),
    Text(u64),
}

pub enum FloatRequestView {
    Binary(BinaryOp, ValueView, ValueView),
    Unary(UnaryOp, ValueView),
    Comparison(ComparisonOp, ValueView, ValueView),
    Text(u64),
}

impl View for FloatRequest {
    type V = FloatRequestView;

    open spec fn view(&self) -> FloatRequestView {
        match self {
            FloatRequest::Binary(op, x, y) => FloatRequestView::Binary(*op, x@, y@),
            FloatRequest::Unary(op, x) => FloatRequestView::Unary(*op, x@),
            FloatRequest::Comparison(op, x, y) => FloatRequestView::Comparison(*op, x@, y@),
            FloatRequest::Text(b) => FloatRequestView::Text(*b),
        }
    }
}

/// The answer to a float request: a value to push, or the text of a float.
#[derive(Debug)]
pub enum FloatReply {
    Value(Values),
    Text(String),
}

pub enum FloatReplyView {
    Value(ValueView),
    Text(Seq<char>),
}

impl View for FloatReply {
    type V = FloatReplyView;

    open spec fn view(&self) -> FloatReplyView {
        match self {
            FloatReply::Value(v) => FloatReplyView::Value(v@),
            FloatReply::Text(t) => FloatReplyView::Text(t@),
        }
    }
}

/// What to do with a global variable once its name is known.
#[derive(Debug, Clone, Copy, PartialEq, Eq, Structural)]
pub enum GlobalAction {
    /// Define it with the value on top of the stack; `true` when it may be
    /// assigned again.
    Define(bool),
    Get,
    Assign,
}

/// The kind of value that answers float work: an integer (floor division
/// of two integers whose quotient is too large for a float to hold it
/// exactly), a float (other arithmetic), or a boolean (a comparison).
#[derive(Debug, Clone, Copy, PartialEq, Eq, Structural)]
pub enum ReplyKind {
    Int,
    Float,
    Bool,
}

/// Whether the value is of the kind.
pub open spec fn fits(k: ReplyKind, v: ValueView) -> bool {
    match k {
        ReplyKind::Int => v is Int,
        ReplyKind::Float => v is Float,
        ReplyKind::Bool => v is Bool,
    }
}

/// What the machine waits for after handing out float work.
#[derive(Debug, Clone, Copy, PartialEq, Eq, Structural)]
pub enum Pending {
    Push(ReplyKind),
    Global(GlobalAction),
}

/// What one step of the machine leads to.
#[derive(Debug)]
pub enum Step {
    /// Go on with the next instruction.
    Continue,
    /// The program has ended.
    Done(InterpretResult),
    /// The byte is no instruction the machine runs.
    UnknownOp(u8),
    /// Print the value.
    Print(Values),
    /// Float work to be done outside; the machine waits for `resume`.
    Float(FloatRequest),
    /// A runtime error at the given source line; for an undefined variable,
    /// its name.
    RuntimeError(RuntimeErrorKind, usize, Option<String>),
    /// The instruction cannot be carried out (the stack or the code runs
    /// out, or integer arithmetic overflows or divides by zero).
    Trap,
}

pub enum StepView {
    Continue,
    Done(InterpretResult),
    UnknownOp(u8),
    Print(ValueView),
    Float(FloatRequestView),
    RuntimeError(RuntimeErrorKind, usize, Option<Seq<char>>),
    Trap,
}

pub open spec fn opt_view(o: Option<String>) -> Option<Seq<char>> {
    match o {
        Some(s) => Some(s@),
        None => None,
    }
}

impl View for Step {
    type V = StepView;

    open spec fn view(&self) -> StepView {
        match self {
            Step::Continue => StepView::Continue,
            Step::Done(r) => StepView::Done(*r),
            Step::UnknownOp(b) => StepView::UnknownOp(*b),
            Step::Print(v) => StepView::Print(v@),
            Step::Float(f) => StepView::Float(f@),
            Step::RuntimeError(k, l, n) => StepView::RuntimeError(*k, *l, opt_view(*n)),
            Step::Trap => StepView::Trap,
        }
    }
}

/// Where a run ends at a step, how it ends: a finished program with its
/// result, a byte that is no instruction with a compile error, a runtime
/// error with a runtime error. At the other steps the run goes on.
pub open spec fn run_ends_with(s: StepView) -> Option<InterpretResult> {
    match s {
        StepView::Done(r) => Some(r),
        StepView::UnknownOp(_) => Some(InterpretResult::InterpretCompileErr),
        StepView::RuntimeError(..) => Some(InterpretResult::InterpretRunTimeErr),
        _ => None,
    }
}

/// How the run ends at this step, if it ends there.
pub fn outcome_of(step: &Step) -> (r: Option<InterpretResult>)
    ensures
        r == run_ends_with(step@),
{
    match step {
        Step::Done(r) => Some(*r),
        Step::UnknownOp(_) => Some(InterpretResult::InterpretCompileErr),
        Step::RuntimeError(..) => Some(InterpretResult::InterpretRunTimeErr),
        _ => None,
    }
}

// ---------------------------------------------------------------------------
// The semantics of the machine.
// ---------------------------------------------------------------------------

/// The state of the machine, as values.
pub struct VmState {
    pub code: Seq<u8>,
    pub lines: Seq<usize>,
    pub constants: Seq<ValueView>,
    pub ip: int,
    pub stack: Seq<ValueView>,
    pub globals: Map<Seq<char>, (ValueView, bool)>,
    pub pending: Option<Pending>,
}

/// The machine stands at the start of an instruction of code made of whole
/// instructions whose jumps lead to starts of instructions.
pub open spec fn in_step(s: VmState) -> bool {
    &&& whole_from(s.code, 0, s.constants.len())
    &&& jumps_land(s.code, 0)
    &&& starts_at(s.code, 0, s.ip)
}

/// The result of an operation on values.
pub enum Outcome {
    Value(ValueView),
    /// The operation is on floats and is done outside.
    Float(ReplyKind),
    Error(RuntimeErrorKind),
    Trap,
}

/// `a` raised to the power `e`.
pub open spec fn pow(a: int, e: nat) -> int
    decreases e,
{
    if e == 0 { 1 } else { pow(a, (e - 1) as nat) * a }
}

pub open spec fn in_i64(v: int) -> bool {
    i64::MIN <= v <= i64::MAX
}

pub open spec fn checked(v: Option<i64>) -> Outcome {
    match v {
        Some(r) => Outcome::Value(ValueView::Int(r)),
        None => Outcome::Trap,
    }
}

pub open spec fn is_number(v: ValueView) -> bool {
    v is Int || v is Float
}

/// What an arithmetic operator gives for two values. Integer arithmetic
/// that overflows, divides by zero, or raises to a power out of range
/// traps; the exponent of `Pow` is the low 32 bits of the right operand.
pub open spec fn binary_outcome(op: BinaryOp, x: ValueView, y: ValueView) -> Outcome {
    match (x, y) {
        (ValueView::Int(a), ValueView::Int(b)) => match op {
            BinaryOp::Add => checked(a.checked_add(b)),
            BinaryOp::Subtract => checked(a.checked_sub(b)),
            BinaryOp::Multiply => checked(a.checked_mul(b)),
            BinaryOp::Divide => checked(a.checked_div(b)),
            BinaryOp::Mod => checked(a.checked_rem(b)),
            BinaryOp::Pow => {
                let p = pow(a as int, (b as u32) as nat);
                if in_i64(p) {
                    Outcome::Value(ValueView::Int(p as i64))
                } else {
                    Outcome::Trap
                }
            },
            BinaryOp::DivideDivide => match a.checked_div(b) {
                Some(q) => if -TWO_53 <= q <= TWO_53 {
                    Outcome::Value(ValueView::Int(q))
                } else {
                    Outcome::Float(ReplyKind::Int)
                },
                None => Outcome::Trap,
            },
        },
        (ValueView::Str(a), ValueView::Str(b)) => match op {
            BinaryOp::Add => Outcome::Value(ValueView::Str(a + b)),
            _ => Outcome::Error(RuntimeErrorKind::UnsupportedStringOperation),
        },
        _ => if is_number(x) && is_number(y) {
            Outcome::Float(ReplyKind::Float)
        } else {
            Outcome::Error(RuntimeErrorKind::OperandsMustBeNumbers)
        },
    }
}

/// What a one-operand operator gives. Negation and absolute value of a
/// float change its sign bit; the other float functions are done outside.
pub open spec fn unary_outcome(op: UnaryOp, x: ValueView) -> Outcome {
    match x {
        ValueView::Int(a) => match op {
            UnaryOp::Negate => if a == i64::MIN {
                Outcome::Trap
            } else {
                Outcome::Value(ValueView::Int((-a) as i64))
            },
            UnaryOp::Abs => if a == i64::MIN {
                Outcome::Trap
            } else {
                Outcome::Value(ValueView::Int(if a < 0 { (-a) as i64 } else { a }))
            },
            UnaryOp::Not => Outcome::Error(RuntimeErrorKind::OperandMustBeBool),
            _ => Outcome::Float(ReplyKind::Float),
        },
        ValueView::Float(bits) => match op {
            UnaryOp::Negate => Outcome::Value(ValueView::Float(bits ^ SIGN_BIT)),
            UnaryOp::Abs => Outcome::Value(ValueView::Float(bits & !SIGN_BIT)),
            UnaryOp::Not => Outcome::Error(RuntimeErrorKind::OperandMustBeBool),
            _ => Outcome::Float(ReplyKind::Float),
        },
        ValueView::Bool(b) => match op {
            UnaryOp::Not => Outcome::Value(ValueView::Bool(!b)),
            _ => Outcome::Error(RuntimeErrorKind::OperandMustBeBool),
        },
        _ => Outcome::Error(RuntimeErrorKind::OperandMustBeNumber),
    }
}

pub open spec fn compare_ints(op: ComparisonOp, a: i64, b: i64) -> bool {
    match op {
        ComparisonOp::EqEq => a == b,
        ComparisonOp::NotEq => a != b,
        ComparisonOp::Gt => a > b,
        ComparisonOp::Lt => a < b,
        ComparisonOp::Gte => a >= b,
        ComparisonOp::Lte => a <= b,
    }
}

/// What a comparison gives. Booleans and strings can only be tested for
/// equality.
pub open spec fn comparison_outcome(op: ComparisonOp, x: ValueView, y: ValueView) -> Outcome {
    match (x, y) {
        (ValueView::Int(a), ValueView::Int(b)) => Outcome::Value(
            ValueView::Bool(compare_ints(op, a, b)),
        ),
        (ValueView::Bool(a), ValueView::Bool(b)) => match op {
            ComparisonOp::EqEq => Outcome::Value(ValueView::Bool(a == b)),
            ComparisonOp::NotEq => Outcome::Value(ValueView::Bool(a != b)),
            _ => Outcome::Error(RuntimeErrorKind::UnsupportedComparisonOperator),
        },
        (ValueView::Str(a), ValueView::Str(b)) => match op {
            ComparisonOp::EqEq => Outcome::Value(ValueView::Bool(a == b)),
            ComparisonOp::NotEq => Outcome::Value(ValueView::Bool(a != b)),
            _ => Outcome::Error(RuntimeErrorKind::UnsupportedStringComparison),
        },
        _ => if is_number(x) && is_number(y) {
            Outcome::Float(ReplyKind::Bool)
        } else {
            Outcome::Error(RuntimeErrorKind::UnsupportedComparison)
        },
    }
}

/// What a logical operator gives; both operands must be booleans.
pub open spec fn logical_outcome(op: LogicalOp, x: ValueView, y: ValueView) -> Outcome {
    match (x, y) {
        (ValueView::Bool(a), ValueView::Bool(b)) => Outcome::Value(
            ValueView::Bool(
                match op {
                    LogicalOp::And => a && b,
                    LogicalOp::Or => a || b,
                },
            ),
        ),
        _ => Outcome::Error(RuntimeErrorKind::OperandsMustBeBooleans),
    }
}

impl VmState {
    pub open spec fn with_ip(self, ip: int) -> VmState {
        VmState { ip, ..self }
    }

    pub open spec fn with_stack(self, stack: Seq<ValueView>) -> VmState {
        VmState { stack, ..self }
    }

    /// The line of the last byte read.
    pub open spec fn current_line(self) -> usize {
        self.lines[self.ip - 1]
    }

    /// Reporting a runtime error empties the stack.
    pub open spec fn fail(self, kind: RuntimeErrorKind, name: Option<Seq<char>>) -> (
        StepView,
        VmState,
    ) {
        (StepView::RuntimeError(kind, self.current_line(), name), self.with_stack(Seq::empty()))
    }

    /// Replaces the top `n` values of the stack by the outcome of an operation.
    pub open spec fn apply(self, n: int, outcome: Outcome, request: FloatRequestView) -> (
        StepView,
        VmState,
    ) {
        let rest = self.stack.take(self.stack.len() - n);
        match outcome {
            Outcome::Value(v) => (StepView::Continue, self.with_stack(rest.push(v))),
            Outcome::Float(k) => (
                StepView::Float(request),
                VmState { stack: rest, pending: Some(Pending::Push(k)), ..self },
            ),
            Outcome::Error(k) => self.fail(k, None),
            Outcome::Trap => (StepView::Trap, self),
        }
    }

    pub open spec fn binary(self, op: BinaryOp) -> (StepView, VmState) {
        let n = self.stack.len();
        if n < 2 {
            (StepView::Trap, self)
        } else {
            let x = self.stack[n - 2];
            let y = self.stack[n - 1];
            self.apply(2, binary_outcome(op, x, y), FloatRequestView::Binary(op, x, y))
        }
    }

    pub open spec fn unary(self, op: UnaryOp) -> (StepView, VmState) {
        let n = self.stack.len();
        if n < 1 {
            (StepView::Trap, self)
        } else {
            let x = self.stack[n - 1];
            self.apply(1, unary_outcome(op, x), FloatRequestView::Unary(op, x))
        }
    }

    pub open spec fn comparison(self, op: ComparisonOp) -> (StepView, VmState) {
        let n = self.stack.len();
        if n < 2 {
            (StepView::Trap, self)
        } else {
            let x = self.stack[n - 2];
            let y = self.stack[n - 1];
            self.apply(2, comparison_outcome(op, x, y), FloatRequestView::Comparison(op, x, y))
        }
    }

    pub open spec fn logical(self, op: LogicalOp) -> (StepView, VmState) {
        let n = self.stack.len();
        if n < 2 {
            (StepView::Trap, self)
        } else {
            let x = self.stack[n - 2];
            let y = self.stack[n - 1];
            self.apply(2, logical_outcome(op, x, y), FloatRequestView::Text(0))
        }
    }

    /// Carries out a global-variable instruction once the name is known.
    pub open spec fn global(self, action: GlobalAction, name: Seq<char>) -> (StepView, VmState) {
        let n = self.stack.len();
        match action {
            GlobalAction::Define(mutable) => if n == 0 {
                (StepView::Trap, self)
            } else {
                (
                    StepView::Continue,
                    VmState {
                        globals: self.globals.insert(name, (self.stack[n - 1], mutable)),
                        stack: self.stack.drop_last(),
                        ..self
                    },
                )
            },
            GlobalAction::Get => if self.globals.contains_key(name) {
                (StepView::Continue, self.with_stack(self.stack.push(self.globals[name].0)))
            } else {
                self.fail(RuntimeErrorKind::UndefinedVariable, Some(name))
            },
            GlobalAction::Assign => if !self.globals.contains_key(name) {
                self.fail(RuntimeErrorKind::UndefinedVariable, Some(name))
            } else if !self.globals[name].1 {
                self.fail(RuntimeErrorKind::ImmutableVariable, None)
            } else if n == 0 {
                (StepView::Trap, self)
            } else {
                (
                    StepView::Continue,
                    VmState {
                        globals: self.globals.insert(name, (self.stack[n - 1], true)),
                        ..self
                    },
                )
            },
        }
    }

    /// A global-variable instruction: its operand names a constant whose
    /// printed form is the variable's name.
    pub open spec fn global_named(self, action: GlobalAction) -> (StepView, VmState) {
        if self.ip >= self.code.len() {
            (StepView::Trap, self)
        } else {
            let index = self.code[self.ip];
            let s = self.with_ip(self.ip + 1);
            if index >= self.constants.len() {
                (StepView::Trap, s)
            } else {
                let c = self.constants[index as int];
                match c {
                    ValueView::Float(bits) => (
                        StepView::Float(FloatRequestView::Text(bits)),
                        VmState { pending: Some(Pending::Global(action)), ..s },
                    ),
                    _ => match display_of(c) {
                        Some(name) => s.global(action, name),
                        None => (StepView::Trap, s),
                    },
                }
            }
        }
    }

    /// A two-byte jump distance follows the instruction.
    pub open spec fn jump(self, forward: bool, only_if_false: bool) -> (StepView, VmState) {
        if self.ip + 1 >= self.code.len() {
            (StepView::Trap, self)
        } else {
            let offset = short_of(self.code[self.ip], self.code[self.ip + 1]) as int;
            let s = self.with_ip(self.ip + 2);
            if only_if_false && self.stack.len() == 0 {
                (StepView::Trap, s)
            } else if only_if_false && !falsy(self.stack.last()) {
                (StepView::Continue, s)
            } else if forward {
                if s.ip + offset > usize::MAX {
                    (StepView::Trap, s)
                } else {
                    (StepView::Continue, s.with_ip(s.ip + offset))
                }
            } else if offset > s.ip {
                (StepView::Trap, s)
            } else {
                (StepView::Continue, s.with_ip(s.ip - offset))
            }
        }
    }

    /// Runs the instruction `op`, whose byte has been read.
    pub open spec fn run_op(self, op: OpCode) -> (StepView, VmState) {
        let n = self.stack.len();
        match op {
            OpCode::OpR => (StepView::Done(InterpretResult::InterpretOK), self),
            OpCode::OpC => if self.ip >= self.code.len() {
                (StepView::Trap, self)
            } else {
                let index = self.code[self.ip];
                let s = self.with_ip(self.ip + 1);
                if index >= self.constants.len() {
                    (StepView::Trap, s)
                } else {
                    (StepView::Continue, s.with_stack(self.stack.push(self.constants[index as int])))
                }
            },
            OpCode::OpAdd => self.binary(BinaryOp::Add),
            OpCode::OpSubtract => self.binary(BinaryOp::Subtract),
            OpCode::OpDivide => self.binary(BinaryOp::Divide),
            OpCode::OpMultiply => self.binary(BinaryOp::Multiply),
            OpCode::OpMod => self.binary(BinaryOp::Mod),
            OpCode::OpPow => self.binary(BinaryOp::Pow),
            OpCode::OpDivideDivide => self.binary(BinaryOp::DivideDivide),
            OpCode::OpNegate => self.unary(UnaryOp::Negate),
            OpCode::OpSqrt => self.unary(UnaryOp::Sqrt),
            OpCode::OpAbs => self.unary(UnaryOp::Abs),
            OpCode::OpFloor => self.unary(UnaryOp::Floor),
            OpCode::OpCeil => self.unary(UnaryOp::Ceil),
            OpCode::OpSin => self.unary(UnaryOp::Sin),
            OpCode::OpCos => self.unary(UnaryOp::Cos),
            OpCode::OpTan => self.unary(UnaryOp::Tan),
            OpCode::OpNot => self.unary(UnaryOp::Not),
            OpCode::OpEqEq => self.comparison(ComparisonOp::EqEq),
            OpCode::OpNotEq => self.comparison(ComparisonOp::NotEq),
            OpCode::OpGt => self.comparison(ComparisonOp::Gt),
            OpCode::OpLt => self.comparison(ComparisonOp::Lt),
            OpCode::OpGte => self.comparison(ComparisonOp::Gte),
            OpCode::OpLte => self.comparison(ComparisonOp::Lte),
            OpCode::OpAnd => self.logical(LogicalOp::And),
            OpCode::OpOr => self.logical(LogicalOp::Or),
            OpCode::OpPrint => if n == 0 {
                (StepView::Trap, self)
            } else {
                (StepView::Print(self.stack[n - 1]), self.with_stack(self.stack.drop_last()))
            },
            OpCode::OpPop => if n == 0 {
                (StepView::Trap, self)
            } else {
                (StepView::Continue, self.with_stack(self.stack.drop_last()))
            },
            OpCode::OpDefGlobal => self.global_named(GlobalAction::Define(true)),
            OpCode::OpDefFixed => self.global_named(GlobalAction::Define(false)),
            OpCode::OpGetGlobal => self.global_named(GlobalAction::Get),
            OpCode::OpSetGlobal => self.global_named(GlobalAction::Assign),
            OpCode::OpGetLocal => if self.ip >= self.code.len() {
                (StepView::Trap, self)
            } else {
                let slot = self.code[self.ip];
                let s = self.with_ip(self.ip + 1);
                if slot >= n {
                    (StepView::Trap, s)
                } else {
                    (StepView::Continue, s.with_stack(self.stack.push(self.stack[slot as int])))
                }
            },
            OpCode::OpSetLocalFixed => if self.ip >= self.code.len() {
                (StepView::Trap, self)
            } else {
                self.with_ip(self.ip + 1).fail(RuntimeErrorKind::ImmutableVariable, None)
            },
            OpCode::OpSetLocal => if self.ip >= self.code.len() {
                (StepView::Trap, self)
            } else {
                let slot = self.code[self.ip];
                let s = self.with_ip(self.ip + 1);
                if n == 0 || slot >= n {
                    (StepView::Trap, s)
                } else {
                    (
                        StepView::Continue,
                        s.with_stack(self.stack.update(slot as int, self.stack[n - 1])),
                    )
                }
            },
            OpCode::OpJumpIfFalse => self.jump(true, true),
            OpCode::OpJump => self.jump(true, false),
            OpCode::OpLoop => self.jump(false, false),
            OpCode::OpEq => (StepView::UnknownOp(op_byte_of(op)), self),
        }
    }

    /// One step: read the instruction at `ip` and carry it out. Past the end
    /// of the code the program has ended.
    pub open spec fn step(self) -> (StepView, VmState) {
        if self.ip >= self.code.len() {
            (StepView::Done(InterpretResult::InterpretOK), self)
        } else {
            let b = self.code[self.ip];
            let s = self.with_ip(self.ip + 1);
            match byte_op(b) {
                Some(op) => s.run_op(op),
                None => (StepView::UnknownOp(b), s),
            }
        }
    }

    /// Takes the answer to a float request.
    pub open spec fn resume(self, reply: FloatReplyView) -> (StepView, VmState) {
        let s = VmState { pending: None, ..self };
        match (self.pending, reply) {
            (Some(Pending::Push(k)), FloatReplyView::Value(v)) => if fits(k, v) {
                (StepView::Continue, s.with_stack(self.stack.push(v)))
            } else {
                (StepView::Trap, self)
            },
            (Some(Pending::Global(action)), FloatReplyView::Text(name)) => s.global(action, name),
            _ => (StepView::Trap, self),
        }
    }
}

/// 2^53: up to this magnitude every integer is a float exactly.
pub const TWO_53: i64 = 9007199254740992i64;

fn value_fits(k: ReplyKind, v: &Values) -> (b: bool)
    ensures
        b == fits(k, v@),
{
    match (k, v) {
        (ReplyKind::Int, Values::Int(_)) => true,
        (ReplyKind::Float, Values::Float(_)) => true,
        (ReplyKind::Bool, Values::Bool(_)) => true,
        _ => false,
    }
}

/// The outcome of an operation, with the value when there is one.
#[derive(Debug)]
pub enum ExecOutcome {
    Value(Values),
    Float(ReplyKind),
    Error(RuntimeErrorKind),
    Trap,
}

impl View for ExecOutcome {
    type V = Outcome;

    open spec fn view(&self) -> Outcome {
        match self {
            ExecOutcome::Value(v) => Outcome::Value(v@),
            ExecOutcome::Float(k) => Outcome::Float(*k),
            ExecOutcome::Error(k) => Outcome::Error(*k),
            ExecOutcome::Trap => Outcome::Trap,
        }
    }
}

fn checked_outcome(v: Option<i64>) -> (r: ExecOutcome)
    ensures
        r@ == checked(v),
{
    match v {
        Some(x) => ExecOutcome::Value(Values::Int(x)),
        None => ExecOutcome::Trap,
    }
}

proof fn lemma_pow_unit(a: int, e: nat)
    ensures
        a == 0 ==> pow(a, e) == if e == 0 { 1int } else { 0int },
        a == 1 ==> pow(a, e) == 1,
        a == -1 ==> pow(a, e) == if e % 2 == 0 { 1int } else { -1int },
    decreases e,
{
    if e > 0 {
        lemma_pow_unit(a, (e - 1) as nat);
    }
}

proof fn lemma_pow_grows(a: int, i: nat, j: nat)
    requires
        a >= 2 || a <= -2,
        i < j,
    ensures
        abs(pow(a, j)) >= 2 * abs(pow(a, i)),
    decreases j,
{
    let pj = pow(a, (j - 1) as nat);
    if i < j - 1 {
        lemma_pow_grows(a, i, (j - 1) as nat);
    }
    assert(abs(pj * a) >= 2 * abs(pj)) by (nonlinear_arith)
        requires
            a >= 2 || a <= -2,
    {
        assert(abs(pj * a) == abs(pj) * abs(a));
    }
}

pub open spec fn abs(v: int) -> int {
    if v < 0 { -v } else { v }
}

/// `a` raised to the power `e`, when the result fits in an `i64`.
pub fn int_pow(a: i64, e: u32) -> (r: Option<i64>)
    ensures
        r == (if in_i64(pow(a as int, e as nat)) {
            Some(pow(a as int, e as nat) as i64)
        } else {
            None
        }),
{
    proof {
        lemma_pow_unit(a as int, e as nat);
    }
    if a == 0 {
        return if e == 0 { Some(1) } else { Some(0) };
    }
    if a == 1 {
        return Some(1);
    }
    if a == -1 {
        return if e % 2 == 0 { Some(1) } else { Some(-1) };
    }
    let mut acc: i64 = 1;
    let mut i: u32 = 0;
    while i < e
        invariant
            0 <= i <= e,
            a >= 2 || a <= -2,
            acc as int == pow(a as int, i as nat),
        decreases e - i,
    {
        match acc.checked_mul(a) {
            Some(v) => {
                assert(pow(a as int, (i + 1) as nat) == acc * a);
                acc = v;
            },
            None => {
                proof {
                    assert(pow(a as int, (i + 1) as nat) == acc * a);
                    if i + 1 < e {
                        lemma_pow_grows(a as int, (i + 1) as nat, e as nat);
                    }
                }
                return None;
            },
        }
        i = i + 1;
    }
    Some(acc)
}

fn is_number_value(v: &Values) -> (b: bool)
    ensures
        b == is_number(v@),
{
    match v {
        Values::Int(_) => true,
        Values::Float(_) => true,
        _ => false,
    }
}

/// What an arithmetic operator gives for two values.
pub fn binary_value(op: BinaryOp, x: &Values, y: &Values) -> (r: ExecOutcome)
    ensures
        r@ == binary_outcome(op, x@, y@),
{
    match (x, y) {
        (Values::Int(a), Values::Int(b)) => match op {
            BinaryOp::Add => checked_outcome(a.checked_add(*b)),
            BinaryOp::Subtract => checked_outcome(a.checked_sub(*b)),
            BinaryOp::Multiply => checked_outcome(a.checked_mul(*b)),
            BinaryOp::Divide => checked_outcome(a.checked_div(*b)),
            BinaryOp::Mod => checked_outcome(a.checked_rem(*b)),
            BinaryOp::Pow => checked_outcome(int_pow(*a, *b as u32)),
            BinaryOp::DivideDivide => match a.checked_div(*b) {
                Some(q) => {
                    if -TWO_53 <= q && q <= TWO_53 {
                        ExecOutcome::Value(Values::Int(q))
                    } else {
                        ExecOutcome::Float(ReplyKind::Int)
                    }
                },
                None => ExecOutcome::Trap,
            },
        },
        (Values::Str(a), Values::Str(b)) => match op {
            BinaryOp::Add => {
                let mut s = a.clone();
                s.append(b.as_str());
                ExecOutcome::Value(Values::Str(s))
            },
            _ => ExecOutcome::Error(RuntimeErrorKind::UnsupportedStringOperation),
        },
        _ => {
            if is_number_value(x) && is_number_value(y) {
                ExecOutcome::Float(ReplyKind::Float)
            } else {
                ExecOutcome::Error(RuntimeErrorKind::OperandsMustBeNumbers)
            }
        },
    }
}

/// What a one-operand operator gives.
pub fn unary_value(op: UnaryOp, x: &Values) -> (r: ExecOutcome)
    ensures
        r@ == unary_outcome(op, x@),
{
    match x {
        Values::Int(a) => match op {
            UnaryOp::Negate => {
                if *a == i64::MIN {
                    ExecOutcome::Trap
                } else {
                    ExecOutcome::Value(Values::Int(-*a))
                }
            },
            UnaryOp::Abs => {
                if *a == i64::MIN {
                    ExecOutcome::Trap
                } else if *a < 0 {
                    ExecOutcome::Value(Values::Int(-*a))
                } else {
                    ExecOutcome::Value(Values::Int(*a))
                }
            },
            UnaryOp::Not => ExecOutcome::Error(RuntimeErrorKind::OperandMustBeBool),
            _ => ExecOutcome::Float(ReplyKind::Float),
        },
        Values::Float(bits) => match op {
            UnaryOp::Negate => ExecOutcome::Value(Values::Float(*bits ^ SIGN_BIT)),
            UnaryOp::Abs => ExecOutcome::Value(Values::Float(*bits & !SIGN_BIT)),
            UnaryOp::Not => ExecOutcome::Error(RuntimeErrorKind::OperandMustBeBool),
            _ => ExecOutcome::Float(ReplyKind::Float),
        },
        Values::Bool(b) => match op {
            UnaryOp::Not => ExecOutcome::Value(Values::Bool(!*b)),
            _ => ExecOutcome::Error(RuntimeErrorKind::OperandMustBeBool),
        },
        _ => ExecOutcome::Error(RuntimeErrorKind::OperandMustBeNumber),
    }
}

/// What a comparison gives.
pub fn comparison_value(op: ComparisonOp, x: &Values, y: &Values) -> (r: ExecOutcome)
    ensures
        r@ == comparison_outcome(op, x@, y@),
{
    match (x, y) {
        (Values::Int(a), Values::Int(b)) => {
            let r = match op {
                ComparisonOp::EqEq => *a == *b,
                ComparisonOp::NotEq => *a != *b,
                ComparisonOp::Gt => *a > *b,
                ComparisonOp::Lt => *a < *b,
                ComparisonOp::Gte => *a >= *b,
                ComparisonOp::Lte => *a <= *b,
            };
            ExecOutcome::Value(Values::Bool(r))
        },
        (Values::Bool(a), Values::Bool(b)) => match op {
            ComparisonOp::EqEq => ExecOutcome::Value(Values::Bool(*a == *b)),
            ComparisonOp::NotEq => ExecOutcome::Value(Values::Bool(*a != *b)),
            _ => ExecOutcome::Error(RuntimeErrorKind::UnsupportedComparisonOperator),
        },
        (Values::Str(a), Values::Str(b)) => match op {
            ComparisonOp::EqEq => ExecOutcome::Value(Values::Bool(*a == *b)),
            ComparisonOp::NotEq => ExecOutcome::Value(Values::Bool(!(*a == *b))),
            _ => ExecOutcome::Error(RuntimeErrorKind::UnsupportedStringComparison),
        },
        _ => {
            if is_number_value(x) && is_number_value(y) {
                ExecOutcome::Float(ReplyKind::Bool)
            } else {
                ExecOutcome::Error(RuntimeErrorKind::UnsupportedComparison)
            }
        },
    }
}

/// What a logical operator gives.
pub fn logical_value(op: LogicalOp, x: &Values, y: &Values) -> (r: ExecOutcome)
    ensures
        r@ == logical_outcome(op, x@, y@),
{
    match (x, y) {
        (Values::Bool(a), Values::Bool(b)) => match op {
            LogicalOp::And => ExecOutcome::Value(Values::Bool(*a && *b)),
            LogicalOp::Or => ExecOutcome::Value(Values::Bool(*a || *b)),
        },
        _ => ExecOutcome::Error(RuntimeErrorKind::OperandsMustBeBooleans),
    }
}

/// What compiling a program gives: the float literals whose constants are
/// to be set from their text before the program runs; or the compile errors;
/// or, for a program that cannot be compiled at all, the errors found before
/// that was noticed.
#[derive(Debug)]
pub enum CompileOutcome {
    Compiled(Vec<FloatLiteral>),
    CompileFailed(Vec<CompileError>),
    Fault(Vec<CompileError>),
}

/// The virtual machine: a chunk being run, the position of the next
/// instruction, the value stack and the global variables.
#[derive(Debug)]
pub struct VM {
    pub chunk: Chunk,
    pub ip: usize,
    pub stack: Vec<Values>,
    pub globals: Table,
    pub pending: Option<Pending>,
}

impl VM {
    /// The state of the machine, as values.
    pub open spec fn state(&self) -> VmState {
        VmState {
            code: self.chunk.code@,
            lines: self.chunk.line@,
            constants: self.chunk.constants(),
            ip: self.ip as int,
            stack: views(self.stack@),
            globals: self.globals@,
            pending: self.pending,
        }
    }

    /// Every byte has its line, and while the machine waits for float work
    /// it stands after an instruction it has read.
    pub open spec fn wf(&self) -> bool {
        &&& self.chunk.wf()
        &&& self.pending is Some ==> 1 <= self.ip <= self.chunk.code@.len()
    }

    /// A machine at the start of `chunk`, with an empty stack and no globals.
    pub fn new_vm(chunk: Chunk) -> (vm: Self)
        ensures
            vm.chunk == chunk,
            vm.ip == 0,
            vm.stack@.len() == 0,
            vm.globals@ == Map::<Seq<char>, (ValueView, bool)>::empty(),
            vm.pending is None,
    {
        Self { chunk, ip: 0, stack: Vec::new(), globals: Table::new(), pending: None }
    }

    /// Compiles `source`, appending its code to the machine's chunk. When it
    /// compiles, the machine is set to run the chunk from its start (the
    /// stack and globals stay); otherwise the machine is unchanged.
    pub fn interpret(&mut self, source: &str) -> (r: CompileOutcome)
        requires
            old(self).wf(),
            old(self).pending is None,
            source@.len() + 2 < i64::MAX,
            source@.len() < usize::MAX,
        ensures
            final(self).wf(),
            final(self).pending is None,
            match r {
                CompileOutcome::Compiled(literals) => {
                    &&& final(self).ip == 0
                    &&& final(self).stack == old(self).stack
                    &&& final(self).globals == old(self).globals
                    &&& old(self).chunk.code@.len() < final(self).chunk.code@.len()
                    &&& final(self).chunk.code@.take(old(self).chunk.code@.len() as int) == old(
                        self,
                    ).chunk.code@
                    &&& final(self).chunk.code@.last() == crate::chunk_values::op_byte(OpCode::OpR)
                    &&& whole_after(
                        final(self).chunk.code@,
                        old(self).chunk.code@.len() as int,
                        final(self).chunk.constants().len(),
                    )
                    &&& (whole_after(old(self).chunk.code@, 0, old(self).chunk.constants().len())
                        ==> whole_from(final(self).chunk.code@, 0, final(self).chunk.constants().len()))
                    &&& (whole_after(old(self).chunk.code@, 0, old(self).chunk.constants().len())
                        && jumps_land_after(old(self).chunk.code@, 0)
                        && final(self).chunk.code@.len() < 65536 ==> in_step(final(self).state()))
                    &&& forall|i: int|
                        0 <= i < literals@.len() ==> (#[trigger] literals@[i]).index
                            < final(self).chunk.constants().len()
                },
                CompileOutcome::CompileFailed(errors) => {
                    &&& errors@.len() > 0
                    &&& *final(self) == *old(self)
                },
                CompileOutcome::Fault(_) => *final(self) == *old(self),
            },
            !no_error_token(source@, 0, source@.len()) ==> !(r is Compiled),
            match s_compile(
                source@,
                start_state(old(self).chunk.code@, old(self).chunk.line@, old(self).chunk.constants()),
            ) {
                Ok(st) => {
                    &&& r matches CompileOutcome::Compiled(literals) && fview(literals@) == st.floats
                    &&& final(self).chunk.code@ == st.code
                    &&& final(self).chunk.line@ == st.lines
                    &&& final(self).chunk.constants() == st.consts
                },
                Err(Stop::Error(t, m)) => {
                    &&& !(r is Compiled)
                    &&& (r matches CompileOutcome::CompileFailed(errors) ==> errors@.len() > 0
                        && errors@[0].token@ == t && errors@[0].message@ == m)
                    &&& (r matches CompileOutcome::Fault(errors) ==> errors@.len() > 0
                        && errors@[0].token@ == t && errors@[0].message@ == m)
                },
                Err(Stop::Fault) => r matches CompileOutcome::Fault(errors) && errors@.len() == 0,
            },
            skip_trivia(source@, 0) == source@.len() ==> {
                &&& r matches CompileOutcome::Compiled(literals) && literals@.len() == 0
                &&& final(self).chunk.code@ == old(self).chunk.code@.push(
                    crate::chunk_values::op_byte(OpCode::OpR),
                )
                &&& final(self).chunk.constants() == old(self).chunk.constants()
            },
    {
        let chunk = self.chunk.copy();
        let mut parser = new_parser(chunk, source);
        let ok = compile(&mut parser);
        match parser.fault {
            Some(n) => {
                let mut errors = parser.errors;
                if n < errors.len() {
                    errors.truncate(n);
                }
                return CompileOutcome::Fault(errors);
            },
            None => {},
        }
        if !ok {
            return CompileOutcome::CompileFailed(parser.errors);
        }
        proof {
            if whole_after(self.chunk.code@, 0, self.chunk.constants().len()) {
                lemma_whole_after_trans(
                    Seq::<u8>::empty(),
                    self.chunk.code@,
                    parser.chunk.code@,
                    self.chunk.constants().len(),
                    parser.chunk.constants().len(),
                );
                if jumps_land_after(self.chunk.code@, 0) && parser.chunk.code@.len() < 65536 {
                    lemma_jumps_land_trans(
                        0,
                        self.chunk.code@,
                        parser.chunk.code@,
                        self.chunk.constants().len(),
                        parser.chunk.constants().len(),
                    );
                    lemma_starts_refl(parser.chunk.code@, 0);
                }
            }
        }
        self.chunk = parser.chunk;
        self.ip = 0;
        CompileOutcome::Compiled(parser.float_literals)
    }

    /// Sets the constant of a float literal to the float with the given bits.
    pub fn set_float_literal(&mut self, index: usize, bits: u64)
        requires
            old(self).wf(),
            index < old(self).chunk.constants().len(),
        ensures
            final(self).wf(),
            final(self).state() == (VmState {
                constants: old(self).state().constants.update(index as int, ValueView::Float(bits)),
                ..old(self).state()
            }),
    {
        self.chunk.set_float_constant(index, bits);
    }

    /// Whether the machine waits for the answer to float work.
    pub fn is_waiting(&self) -> (b: bool)
        ensures
            b == self.pending is Some,
    {
        self.pending.is_some()
    }

    /// Reports a runtime error at the line of the last byte read, and
    /// empties the stack.
    fn runtime_errors(&mut self, kind: RuntimeErrorKind, name: Option<String>) -> (r: Step)
        requires
            old(self).wf(),
            1 <= old(self).ip <= old(self).chunk.code@.len(),
        ensures
            final(self).wf(),
            (r@, final(self).state()) == old(self).state().fail(kind, opt_view(name)),
    {
        let line = self.chunk.line[self.ip - 1];
        self.stack.clear();
        proof {
            assert(views(self.stack@) =~= Seq::<ValueView>::empty());
        }
        Step::RuntimeError(kind, line, name)
    }

    /// Pushes the outcome of an operation whose operands have been taken off.
    fn finish(&mut self, outcome: ExecOutcome, request: FloatRequest) -> (r: Step)
        requires
            old(self).wf(),
            1 <= old(self).ip <= old(self).chunk.code@.len(),
        ensures
            final(self).wf(),
            match outcome@ {
                Outcome::Value(v) => r@ is Continue && final(self).state() == old(
                    self,
                ).state().with_stack(old(self).state().stack.push(v)),
                Outcome::Float(k) => r@ == StepView::Float(request@) && final(self).state()
                    == (VmState { pending: Some(Pending::Push(k)), ..old(self).state() }),
                Outcome::Error(k) => (r@, final(self).state()) == old(self).state().fail(k, None),
                Outcome::Trap => r@ is Trap,
            },
    {
        match outcome {
            ExecOutcome::Value(v) => {
                proof {
                    lemma_views_push(self.stack@, v);
                }
                self.stack.push(v);
                Step::Continue
            },
            ExecOutcome::Float(k) => {
                self.pending = Some(Pending::Push(k));
                Step::Float(request)
            },
            ExecOutcome::Error(k) => self.runtime_errors(k, None),
            ExecOutcome::Trap => Step::Trap,
        }
    }

    /// Takes the top value off the stack.
    fn pop_value(&mut self) -> (v: Values)
        requires
            old(self).stack@.len() > 0,
        ensures
            v@ == old(self).state().stack.last(),
            final(self).stack@ == old(self).stack@.drop_last(),
            final(self).state() == old(self).state().with_stack(old(self).state().stack.drop_last()),
            final(self).chunk == old(self).chunk,
            final(self).pending == old(self).pending,
    {
        proof {
            lemma_views_drop_last(self.stack@);
        }
        match self.stack.pop() {
            Some(v) => v,
            None => Values::Nil,
        }
    }

    /// Replaces the top two values, `x` below `y`, by `x op y`; a float
    /// operand hands the work out.
    pub fn binary_op(&mut self, op: BinaryOp) -> (r: Step)
        requires
            old(self).wf(),
            1 <= old(self).ip <= old(self).chunk.code@.len(),
        ensures
            final(self).wf(),
            r@ == old(self).state().binary(op).0,
            !(r@ is Trap) ==> final(self).state() == old(self).state().binary(op).1,
    {
        let n = self.stack.len();
        if n < 2 {
            return Step::Trap;
        }
        let ghost s0 = self.state();
        let y = self.pop_value();
        let x = self.pop_value();
        assert(s0.stack.drop_last().drop_last() =~= s0.stack.take(s0.stack.len() - 2));
        let outcome = binary_value(op, &x, &y);
        self.finish(outcome, FloatRequest::Binary(op, x, y))
    }

    /// Replaces the top value by `op` applied to it; float work is handed
    /// out.
    pub fn unary_op(&mut self, op: UnaryOp) -> (r: Step)
        requires
            old(self).wf(),
            1 <= old(self).ip <= old(self).chunk.code@.len(),
        ensures
            final(self).wf(),
            r@ == old(self).state().unary(op).0,
            !(r@ is Trap) ==> final(self).state() == old(self).state().unary(op).1,
    {
        let n = self.stack.len();
        if n < 1 {
            return Step::Trap;
        }
        let ghost s0 = self.state();
        let x = self.pop_value();
        assert(s0.stack.drop_last() =~= s0.stack.take(s0.stack.len() - 1));
        let outcome = unary_value(op, &x);
        self.finish(outcome, FloatRequest::Unary(op, x))
    }

    /// Replaces the top two values, `x` below `y`, by whether `x op y`; a
    /// float operand hands the work out.
    pub fn comparison_op(&mut self, op: ComparisonOp) -> (r: Step)
        requires
            old(self).wf(),
            1 <= old(self).ip <= old(self).chunk.code@.len(),
        ensures
            final(self).wf(),
            r@ == old(self).state().comparison(op).0,
            !(r@ is Trap) ==> final(self).state() == old(self).state().comparison(op).1,
    {
        let n = self.stack.len();
        if n < 2 {
            return Step::Trap;
        }
        let ghost s0 = self.state();
        let y = self.pop_value();
        let x = self.pop_value();
        assert(s0.stack.drop_last().drop_last() =~= s0.stack.take(s0.stack.len() - 2));
        let outcome = comparison_value(op, &x, &y);
        self.finish(outcome, FloatRequest::Comparison(op, x, y))
    }

    fn logical_op(&mut self, op: LogicalOp) -> (r: Step)
        requires
            old(self).wf(),
            1 <= old(self).ip <= old(self).chunk.code@.len(),
        ensures
            final(self).wf(),
            r@ == old(self).state().logical(op).0,
            !(r@ is Trap) ==> final(self).state() == old(self).state().logical(op).1,
    {
        let n = self.stack.len();
        if n < 2 {
            return Step::Trap;
        }
        let ghost s0 = self.state();
        let y = self.pop_value();
        let x = self.pop_value();
        assert(s0.stack.drop_last().drop_last() =~= s0.stack.take(s0.stack.len() - 2));
        let outcome = logical_value(op, &x, &y);
        self.finish(outcome, FloatRequest::Text(0))
    }

    /// Carries out a global-variable instruction on the variable `name`.
    fn global_op(&mut self, action: GlobalAction, name: String) -> (r: Step)
        requires
            old(self).wf(),
            1 <= old(self).ip <= old(self).chunk.code@.len(),
        ensures
            final(self).wf(),
            r@ == old(self).state().global(action, name@).0,
            !(r@ is Trap) ==> final(self).state() == old(self).state().global(action, name@).1,
    {
        match action {
            GlobalAction::Define(mutable) => {
                if self.stack.len() == 0 {
                    return Step::Trap;
                }
                let v = self.pop_value();
                self.globals.set_table(name, v, mutable);
                Step::Continue
            },
            GlobalAction::Get => {
                match self.globals.get_value(&name) {
                    Some((v, _)) => {
                        proof {
                            lemma_views_push(self.stack@, v);
                        }
                        self.stack.push(v);
                        Step::Continue
                    },
                    None => self.runtime_errors(RuntimeErrorKind::UndefinedVariable, Some(name)),
                }
            },
            GlobalAction::Assign => {
                match self.globals.get_value(&name) {
                    None => {
                        let ghost g = self.globals@;
                        self.globals.delete(&name);
                        assert(g.remove(name@) =~= g);
                        self.runtime_errors(RuntimeErrorKind::UndefinedVariable, Some(name))
                    },
                    Some((_, false)) => self.runtime_errors(
                        RuntimeErrorKind::ImmutableVariable,
                        None,
                    ),
                    Some((_, true)) => {
                        let n = self.stack.len();
                        if n == 0 {
                            return Step::Trap;
                        }
                        let v = self.stack[n - 1].copy();
                        self.globals.set_table(name, v, true);
                        Step::Continue
                    },
                }
            },
        }
    }

    /// Reads the next byte of code, if there is one.
    fn read_bytes(&mut self) -> (b: Option<u8>)
        requires
            old(self).wf(),
        ensures
            final(self).wf(),
            old(self).ip < old(self).chunk.code@.len() ==> b == Some(
                old(self).chunk.code@[old(self).ip as int],
            ) && final(self).state() == old(self).state().with_ip(old(self).ip + 1),
            old(self).ip >= old(self).chunk.code@.len() ==> b is None && *final(self) == *old(self),
    {
        if self.ip >= self.chunk.code.len() {
            return None;
        }
        let b = self.chunk.code[self.ip];
        self.ip = self.ip + 1;
        Some(b)
    }

    /// Looks up the global named by the next byte, and carries out `action`.
    fn global_named(&mut self, action: GlobalAction) -> (r: Step)
        requires
            old(self).wf(),
            old(self).pending is None,
            1 <= old(self).ip,
        ensures
            final(self).wf(),
            r@ == old(self).state().global_named(action).0,
            !(r@ is Trap) ==> final(self).state() == old(self).state().global_named(action).1,
    {
        let index = match self.read_bytes() {
            Some(b) => b,
            None => {
                return Step::Trap;
            },
        };
        if index as usize >= self.chunk.constant.values.len() {
            return Step::Trap;
        }
        match self.chunk.constant.values[index as usize].display_text() {
            DisplayText::FloatBits(bits) => {
                self.pending = Some(Pending::Global(action));
                Step::Float(FloatRequest::Text(bits))
            },
            DisplayText::Text(name) => self.global_op(action, name),
            DisplayText::Unprintable => Step::Trap,
        }
    }

    /// Reads a two-byte jump distance and jumps: forward or back, and when
    /// `only_if_false` only if the value on top of the stack is false.
    fn jump(&mut self, forward: bool, only_if_false: bool) -> (r: Step)
        requires
            old(self).wf(),
            old(self).pending is None,
        ensures
            final(self).wf(),
            r@ == old(self).state().jump(forward, only_if_false).0,
            !(r@ is Trap) ==> final(self).state() == old(self).state().jump(
                forward,
                only_if_false,
            ).1,
    {
        let len = self.chunk.code.len();
        if self.ip >= len || len - self.ip < 2 {
            return Step::Trap;
        }
        let offset = decode_short(self.chunk.code[self.ip], self.chunk.code[self.ip + 1]) as usize;
        self.ip = self.ip + 2;
        if only_if_false {
            let n = self.stack.len();
            if n == 0 {
                return Step::Trap;
            }
            if !self.stack[n - 1].is_false() {
                return Step::Continue;
            }
        }
        if forward {
            match self.ip.checked_add(offset) {
                Some(ip) => {
                    self.ip = ip;
                    Step::Continue
                },
                None => Step::Trap,
            }
        } else if offset > self.ip {
            Step::Trap
        } else {
            self.ip = self.ip - offset;
            Step::Continue
        }
    }

    /// Carries out the instruction `op`, whose byte has just been read.
    fn run_op(&mut self, op: OpCode) -> (r: Step)
        requires
            old(self).wf(),
            old(self).pending is None,
            1 <= old(self).ip <= old(self).chunk.code@.len(),
        ensures
            final(self).wf(),
            r@ == old(self).state().run_op(op).0,
            !(r@ is Trap) ==> final(self).state() == old(self).state().run_op(op).1,
    {
        match op {
            OpCode::OpR => Step::Done(InterpretResult::InterpretOK),
            OpCode::OpC => {
                let index = match self.read_bytes() {
                    Some(b) => b,
                    None => {
                        return Step::Trap;
                    },
                };
                if index as usize >= self.chunk.constant.values.len() {
                    return Step::Trap;
                }
                let v = self.chunk.constant.values[index as usize].copy();
                proof {
                    lemma_views_push(self.stack@, v);
                }
                self.stack.push(v);
                Step::Continue
            },
            OpCode::OpAdd => self.binary_op(BinaryOp::Add),
            OpCode::OpSubtract => self.binary_op(BinaryOp::Subtract),
            OpCode::OpDivide => self.binary_op(BinaryOp::Divide),
            OpCode::OpMultiply => self.binary_op(BinaryOp::Multiply),
            OpCode::OpMod => self.binary_op(BinaryOp::Mod),
            OpCode::OpPow => self.binary_op(BinaryOp::Pow),
            OpCode::OpDivideDivide => self.binary_op(BinaryOp::DivideDivide),
            OpCode::OpNegate => self.unary_op(UnaryOp::Negate),
            OpCode::OpSqrt => self.unary_op(UnaryOp::Sqrt),
            OpCode::OpAbs => self.unary_op(UnaryOp::Abs),
            OpCode::OpFloor => self.unary_op(UnaryOp::Floor),
            OpCode::OpCeil => self.unary_op(UnaryOp::Ceil),
            OpCode::OpSin => self.unary_op(UnaryOp::Sin),
            OpCode::OpCos => self.unary_op(UnaryOp::Cos),
            OpCode::OpTan => self.unary_op(UnaryOp::Tan),
            OpCode::OpNot => self.unary_op(UnaryOp::Not),
            OpCode::OpEqEq => self.comparison_op(ComparisonOp::EqEq),
            OpCode::OpNotEq => self.comparison_op(ComparisonOp::NotEq),
            OpCode::OpGt => self.comparison_op(ComparisonOp::Gt),
            OpCode::OpLt => self.comparison_op(ComparisonOp::Lt),
            OpCode::OpGte => self.comparison_op(ComparisonOp::Gte),
            OpCode::OpLte => self.comparison_op(ComparisonOp::Lte),
            OpCode::OpAnd => self.logical_op(LogicalOp::And),
            OpCode::OpOr => self.logical_op(LogicalOp::Or),
            OpCode::OpPrint => {
                if self.stack.len() == 0 {
                    return Step::Trap;
                }
                let v = self.pop_value();
                Step::Print(v)
            },
            OpCode::OpPop => {
                if self.stack.len() == 0 {
                    return Step::Trap;
                }
                self.pop_value();
                Step::Continue
            },
            OpCode::OpDefGlobal => self.global_named(GlobalAction::Define(true)),
            OpCode::OpDefFixed => self.global_named(GlobalAction::Define(false)),
            OpCode::OpGetGlobal => self.global_named(GlobalAction::Get),
            OpCode::OpSetGlobal => self.global_named(GlobalAction::Assign),
            OpCode::OpGetLocal => {
                let slot = match self.read_bytes() {
                    Some(b) => b as usize,
                    None => {
                        return Step::Trap;
                    },
                };
                if slot >= self.stack.len() {
                    return Step::Trap;
                }
                let v = self.stack[slot].copy();
                proof {
                    lemma_views_push(self.stack@, v);
                }
                self.stack.push(v);
                Step::Continue
            },
            OpCode::OpSetLocalFixed => {
                match self.read_bytes() {
                    Some(_) => {},
                    None => {
                        return Step::Trap;
                    },
                }
                self.runtime_errors(RuntimeErrorKind::ImmutableVariable, None)
            },
            OpCode::OpSetLocal => {
                let slot = match self.read_bytes() {
                    Some(b) => b as usize,
                    None => {
                        return Step::Trap;
                    },
                };
                let n = self.stack.len();
                if n == 0 || slot >= n {
                    return Step::Trap;
                }
                let v = self.stack[n - 1].copy();
                proof {
                    lemma_views_update(self.stack@, slot as int, v);
                }
                self.stack.set(slot, v);
                Step::Continue
            },
            OpCode::OpJumpIfFalse => self.jump(true, true),
            OpCode::OpJump => self.jump(true, false),
            OpCode::OpLoop => self.jump(false, false),
            OpCode::OpEq => Step::UnknownOp(op.to_byte()),
        }
    }

    /// Runs one instruction. Past the end of the code the program has ended.
    pub fn step(&mut self) -> (r: Step)
        requires
            old(self).wf(),
            old(self).pending is None,
        ensures
            final(self).wf(),
            r@ == old(self).state().step().0,
            !(r@ is Trap) ==> final(self).state() == old(self).state().step().1,
    {
        let b = match self.read_bytes() {
            Some(b) => b,
            None => {
                return Step::Done(InterpretResult::InterpretOK);
            },
        };
        match OpCode::from_byte(b) {
            Some(op) => self.run_op(op),
            None => Step::UnknownOp(b),
        }
    }

    /// Hands the machine the answer to the float work it asked for.
    pub fn resume(&mut self, reply: FloatReply) -> (r: Step)
        requires
            old(self).wf(),
        ensures
            final(self).wf(),
            r@ == old(self).state().resume(reply@).0,
            !(r@ is Trap) ==> final(self).state() == old(self).state().resume(reply@).1,
            !(old(self).pending matches Some(Pending::Global(_))) ==> final(self).state()
                == old(self).state().resume(reply@).1,
    {
        match (self.pending, reply) {
            (Some(Pending::Push(k)), FloatReply::Value(v)) => {
                if !value_fits(k, &v) {
                    return Step::Trap;
                }
                self.pending = None;
                proof {
                    lemma_views_push(self.stack@, v);
                }
                self.stack.push(v);
                Step::Continue
            },
            (Some(Pending::Global(action)), FloatReply::Text(name)) => {
                self.pending = None;
                self.global_op(action, name)
            },
            _ => Step::Trap,
        }
    }
}

pub open spec fn op_byte_of(op: OpCode) -> u8 {
    crate::chunk_values::op_byte(op)
}

} // verus!
