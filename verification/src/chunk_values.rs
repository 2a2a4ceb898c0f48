use vstd::prelude::*;
use crate::text::push_char;

verus! {

/// The instruction set of the virtual machine. Each instruction is stored
/// in a chunk as one byte, its number in this list.
#[derive(Clone, Copy, Debug, PartialEq, Eq, Structural)]
pub enum OpCode {
    OpR,
    OpC,
    OpPop,
    OpDefGlobal,
    OpGetGlobal,
    OpSetGlobal,
    OpSetLocal,
    OpGetLocal,
    OpDefFixed,
    OpSetLocalFixed,
    OpLoop,
    OpNegate,
    OpSqrt,
    OpAbs,
    OpFloor,
    OpCeil,
    OpSin,
    OpCos,
    OpTan,
    OpNot,
    OpAdd,
    OpSubtract,
    OpMultiply,
    OpDivide,
    OpMod,
    OpPow,
    OpDivideDivide,
    OpEqEq,
    OpEq,
    OpNotEq,
    OpLt,
    OpGt,
    OpGte,
    OpLte,
    OpAnd,
    OpOr,
    OpPrint,
    OpJumpIfFalse,
    OpJump,
}

/// The byte that encodes an instruction: its position in the instruction list.
pub open spec fn op_byte(op: OpCode) -> u8 {
    match op {
        OpCode::OpR => 0,
        OpCode::OpC => 1,
        OpCode::OpPop => 2,
        OpCode::OpDefGlobal => 3,
        OpCode::OpGetGlobal => 4,
        OpCode::OpSetGlobal => 5,
        OpCode::OpSetLocal => 6,
        OpCode::OpGetLocal => 7,
        OpCode::OpDefFixed => 8,
        OpCode::OpSetLocalFixed => 9,
        OpCode::OpLoop => 10,
        OpCode::OpNegate => 11,
        OpCode::OpSqrt => 12,
        OpCode::OpAbs => 13,
        OpCode::OpFloor => 14,
        OpCode::OpCeil => 15,
        OpCode::OpSin => 16,
        OpCode::OpCos => 17,
        OpCode::OpTan => 18,
        OpCode::OpNot => 19,
        OpCode::OpAdd => 20,
        OpCode::OpSubtract => 21,
        OpCode::OpMultiply => 22,
        OpCode::OpDivide => 23,
        OpCode::OpMod => 24,
        OpCode::OpPow => 25,
        OpCode::OpDivideDivide => 26,
        OpCode::OpEqEq => 27,
        OpCode::OpEq => 28,
        OpCode::OpNotEq => 29,
        OpCode::OpLt => 30,
        OpCode::OpGt => 31,
        OpCode::OpGte => 32,
        OpCode::OpLte => 33,
        OpCode::OpAnd => 34,
        OpCode::OpOr => 35,
        OpCode::OpPrint => 36,
        OpCode::OpJumpIfFalse => 37,
        OpCode::OpJump => 38,
    }
}

/// The instruction that a byte encodes, if any.
pub open spec fn byte_op(b: u8) -> Option<OpCode> {
    if b == 0 { Some(OpCode::OpR) }
    else if b == 1 { Some(OpCode::OpC) }
    else if b == 2 { Some(OpCode::OpPop) }
    else if b == 3 { Some(OpCode::OpDefGlobal) }
    else if b == 4 { Some(OpCode::OpGetGlobal) }
    else if b == 5 { Some(OpCode::OpSetGlobal) }
    else if b == 6 { Some(OpCode::OpSetLocal) }
    else if b == 7 { Some(OpCode::OpGetLocal) }
    else if b == 8 { Some(OpCode::OpDefFixed) }
    else if b == 9 { Some(OpCode::OpSetLocalFixed) }
    else if b == 10 { Some(OpCode::OpLoop) }
    else if b == 11 { Some(OpCode::OpNegate) }
    else if b == 12 { Some(OpCode::OpSqrt) }
    else if b == 13 { Some(OpCode::OpAbs) }
    else if b == 14 { Some(OpCode::OpFloor) }
    else if b == 15 { Some(OpCode::OpCeil) }
    else if b == 16 { Some(OpCode::OpSin) }
    else if b == 17 { Some(OpCode::OpCos) }
    else if b == 18 { Some(OpCode::OpTan) }
    else if b == 19 { Some(OpCode::OpNot) }
    else if b == 20 { Some(OpCode::OpAdd) }
    else if b == 21 { Some(OpCode::OpSubtract) }
    else if b == 22 { Some(OpCode::OpMultiply) }
    else if b == 23 { Some(OpCode::OpDivide) }
    else if b == 24 { Some(OpCode::OpMod) }
    else if b == 25 { Some(OpCode::OpPow) }
    else if b == 26 { Some(OpCode::OpDivideDivide) }
    else if b == 27 { Some(OpCode::OpEqEq) }
    else if b == 28 { Some(OpCode::OpEq) }
    else if b == 29 { Some(OpCode::OpNotEq) }
    else if b == 30 { Some(OpCode::OpLt) }
    else if b == 31 { Some(OpCode::OpGt) }
    else if b == 32 { Some(OpCode::OpGte) }
    else if b == 33 { Some(OpCode::OpLte) }
    else if b == 34 { Some(OpCode::OpAnd) }
    else if b == 35 { Some(OpCode::OpOr) }
    else if b == 36 { Some(OpCode::OpPrint) }
    else if b == 37 { Some(OpCode::OpJumpIfFalse) }
    else if b == 38 { Some(OpCode::OpJump) }
    else { None }
}

/// Decoding the byte of an instruction gives that instruction back, and a
/// byte decodes to an instruction exactly when it is that instruction's byte.
pub proof fn lemma_op_byte_roundtrip(op: OpCode, b: u8)
    ensures
        byte_op(op_byte(op)) == Some(op),
        byte_op(b) == Some(op) <==> op_byte(op) == b,
{
}

impl OpCode {
    /// The instruction that a byte encodes, if any.
    pub fn from_byte(b: u8) -> (r: Option<OpCode>)
        ensures
            r == byte_op(b),
    {
        if b == 0 { Some(OpCode::OpR) }
        else if b == 1 { Some(OpCode::OpC) }
        else if b == 2 { Some(OpCode::OpPop) }
        else if b == 3 { Some(OpCode::OpDefGlobal) }
        else if b == 4 { Some(OpCode::OpGetGlobal) }
        else if b == 5 { Some(OpCode::OpSetGlobal) }
        else if b == 6 { Some(OpCode::OpSetLocal) }
        else if b == 7 { Some(OpCode::OpGetLocal) }
        else if b == 8 { Some(OpCode::OpDefFixed) }
        else if b == 9 { Some(OpCode::OpSetLocalFixed) }
        else if b == 10 { Some(OpCode::OpLoop) }
        else if b == 11 { Some(OpCode::OpNegate) }
        else if b == 12 { Some(OpCode::OpSqrt) }
        else if b == 13 { Some(OpCode::OpAbs) }
        else if b == 14 { Some(OpCode::OpFloor) }
        else if b == 15 { Some(OpCode::OpCeil) }
        else if b == 16 { Some(OpCode::OpSin) }
        else if b == 17 { Some(OpCode::OpCos) }
        else if b == 18 { Some(OpCode::OpTan) }
        else if b == 19 { Some(OpCode::OpNot) }
        else if b == 20 { Some(OpCode::OpAdd) }
        else if b == 21 { Some(OpCode::OpSubtract) }
        else if b == 22 { Some(OpCode::OpMultiply) }
        else if b == 23 { Some(OpCode::OpDivide) }
        else if b == 24 { Some(OpCode::OpMod) }
        else if b == 25 { Some(OpCode::OpPow) }
        else if b == 26 { Some(OpCode::OpDivideDivide) }
        else if b == 27 { Some(OpCode::OpEqEq) }
        else if b == 28 { Some(OpCode::OpEq) }
        else if b == 29 { Some(OpCode::OpNotEq) }
        else if b == 30 { Some(OpCode::OpLt) }
        else if b == 31 { Some(OpCode::OpGt) }
        else if b == 32 { Some(OpCode::OpGte) }
        else if b == 33 { Some(OpCode::OpLte) }
        else if b == 34 { Some(OpCode::OpAnd) }
        else if b == 35 { Some(OpCode::OpOr) }
        else if b == 36 { Some(OpCode::OpPrint) }
        else if b == 37 { Some(OpCode::OpJumpIfFalse) }
        else if b == 38 { Some(OpCode::OpJump) }
        else { None }
    }

    /// The byte that encodes this instruction.
    pub fn to_byte(self) -> (b: u8)
        ensures
            b == op_byte(self),
    {
        match self {
            OpCode::OpR => 0,
            OpCode::OpC => 1,
            OpCode::OpPop => 2,
            OpCode::OpDefGlobal => 3,
            OpCode::OpGetGlobal => 4,
            OpCode::OpSetGlobal => 5,
            OpCode::OpSetLocal => 6,
            OpCode::OpGetLocal => 7,
            OpCode::OpDefFixed => 8,
            OpCode::OpSetLocalFixed => 9,
            OpCode::OpLoop => 10,
            OpCode::OpNegate => 11,
            OpCode::OpSqrt => 12,
            OpCode::OpAbs => 13,
            OpCode::OpFloor => 14,
            OpCode::OpCeil => 15,
            OpCode::OpSin => 16,
            OpCode::OpCos => 17,
            OpCode::OpTan => 18,
            OpCode::OpNot => 19,
            OpCode::OpAdd => 20,
            OpCode::OpSubtract => 21,
            OpCode::OpMultiply => 22,
            OpCode::OpDivide => 23,
            OpCode::OpMod => 24,
            OpCode::OpPow => 25,
            OpCode::OpDivideDivide => 26,
            OpCode::OpEqEq => 27,
            OpCode::OpEq => 28,
            OpCode::OpNotEq => 29,
            OpCode::OpLt => 30,
            OpCode::OpGt => 31,
            OpCode::OpGte => 32,
            OpCode::OpLte => 33,
            OpCode::OpAnd => 34,
            OpCode::OpOr => 35,
            OpCode::OpPrint => 36,
            OpCode::OpJumpIfFalse => 37,
            OpCode::OpJump => 38,
        }
    }
}


/// A value of the language. A float is held as the bits of its IEEE 754
/// double-precision encoding; the arithmetic on it is done outside the library.
#[derive(Debug, Clone)]
pub enum Values {
    Float(u64),
    Int(i64),
    Bool(bool),
    Str(String),
    Nil,
}

/// What a value is, for specifications: a string by its characters.
pub enum ValueView {
    Float(u64),
    Int(i64),
    Bool(bool),
    Str(Seq<char>),
    Nil,
}

impl View for Values {
    type V = ValueView;

    open spec fn view(&self) -> ValueView {
        match self {
            Values::Float(b) => ValueView::Float(*b),
            Values::Int(i) => ValueView::Int(*i),
            Values::Bool(b) => ValueView::Bool(*b),
            Values::Str(s) => ValueView::Str(s@),
            Values::Nil => ValueView::Nil,
        }
    }
}

/// The bit of a double that holds its sign.
pub const SIGN_BIT: u64 = 0x8000_0000_0000_0000u64;

/// Whether a value counts as false in a condition: `false`, nothing, the
/// integer zero and the float zero of either sign.
pub open spec fn falsy(v: ValueView) -> bool {
    match v {
        ValueView::Bool(b) => !b,
        ValueView::Nil => true,
        ValueView::Int(i) => i == 0,
        ValueView::Float(bits) => bits == 0 || bits == SIGN_BIT,
        ValueView::Str(_) => false,
    }
}

/// The negation of a value: a number changes sign, a boolean stays as it is,
/// anything else becomes nothing.
pub open spec fn negated(v: ValueView) -> ValueView {
    match v {
        ValueView::Float(bits) => ValueView::Float(bits ^ SIGN_BIT),
        ValueView::Int(i) => ValueView::Int((-i) as i64),
        ValueView::Bool(b) => ValueView::Bool(b),
        _ => ValueView::Nil,
    }
}

/// The digit character for `d < 10`.
pub open spec fn digit_char(d: nat) -> char {
    if d == 0 { '0' }
    else if d == 1 { '1' }
    else if d == 2 { '2' }
    else if d == 3 { '3' }
    else if d == 4 { '4' }
    else if d == 5 { '5' }
    else if d == 6 { '6' }
    else if d == 7 { '7' }
    else if d == 8 { '8' }
    else { '9' }
}

/// The decimal digits of `n`, without leading zeros.
pub open spec fn digits(n: nat) -> Seq<char>
    decreases n,
{
    if n < 10 {
        seq![digit_char(n)]
    } else {
        digits(n / 10).push(digit_char(n % 10))
    }
}

/// An integer as it is printed: in decimal, with `-` before a negative one.
pub open spec fn decimal(i: int) -> Seq<char> {
    if i < 0 {
        seq!['-'] + digits((-i) as nat)
    } else {
        digits(i as nat)
    }
}

/// What printing a value gives, where the library can tell: the text of a
/// string, integer or boolean; a float is formatted outside the library; the
/// absence of a value has no text.
pub enum DisplayText {
    Text(String),
    FloatBits(u64),
    Unprintable,
}

/// The text of a value, where the library forms it.
pub open spec fn display_of(v: ValueView) -> Option<Seq<char>> {
    match v {
        ValueView::Str(s) => Some(s),
        ValueView::Int(i) => Some(decimal(i as int)),
        ValueView::Bool(b) => Some(if b { "true"@ } else { "false"@ }),
        _ => None,
    }
}

fn push_digits(s: &mut String, n: u64)
    ensures
        final(s)@ == old(s)@ + digits(n as nat),
    decreases n,
{
    if n >= 10 {
        push_digits(s, n / 10);
    }
    let d = n % 10;
    let c = if d == 0 { '0' }
        else if d == 1 { '1' }
        else if d == 2 { '2' }
        else if d == 3 { '3' }
        else if d == 4 { '4' }
        else if d == 5 { '5' }
        else if d == 6 { '6' }
        else if d == 7 { '7' }
        else if d == 8 { '8' }
        else { '9' };
    push_char(s, c);
    proof {
        if n >= 10 {
            assert(digits(n as nat) == digits((n / 10) as nat).push(c));
        }
    }
}

/// An integer in decimal, with `-` before a negative one.
pub fn int_text(i: i64) -> (r: String)
    ensures
        r@ == decimal(i as int),
{
    let mut s = String::new();
    if i < 0 {
        push_char(&mut s, '-');
        let magnitude: u64 = (0i128 - (i as i128)) as u64;
        push_digits(&mut s, magnitude);
    } else {
        push_digits(&mut s, i as u64);
    }
    s
}

impl Values {
    pub fn bool_val(b: bool) -> (v: Self)
        ensures
            v@ == ValueView::Bool(b),
    {
        Values::Bool(b)
    }

    pub fn int_val(i: i64) -> (v: Self)
        ensures
            v@ == ValueView::Int(i),
    {
        Values::Int(i)
    }

    /// A float, given by the bits of its IEEE 754 encoding.
    pub fn float_val(bits: u64) -> (v: Self)
        ensures
            v@ == ValueView::Float(bits),
    {
        Values::Float(bits)
    }

    pub fn none() -> (v: Self)
        ensures
            v@ == ValueView::Nil,
    {
        Values::Nil
    }

    pub fn as_bool(&self) -> (r: Option<bool>)
        ensures
            r == (match self@ {
                ValueView::Bool(b) => Some(b),
                _ => None,
            }),
    {
        match self {
            Values::Bool(b) => Some(*b),
            _ => None,
        }
    }

    pub fn as_int(&self) -> (r: Option<i64>)
        ensures
            r == (match self@ {
                ValueView::Int(i) => Some(i),
                _ => None,
            }),
    {
        match self {
            Values::Int(i) => Some(*i),
            _ => None,
        }
    }

    /// The bits of a float value.
    pub fn as_float(&self) -> (r: Option<u64>)
        ensures
            r == (match self@ {
                ValueView::Float(b) => Some(b),
                _ => None,
            }),
    {
        match self {
            Values::Float(f) => Some(*f),
            _ => None,
        }
    }

    pub fn is_bool(&self) -> (r: bool)
        ensures
            r == self@ is Bool,
    {
        self.as_bool().is_some()
    }

    pub fn is_int(&self) -> (r: bool)
        ensures
            r == self@ is Int,
    {
        self.as_int().is_some()
    }

    pub fn is_float(&self) -> (r: bool)
        ensures
            r == self@ is Float,
    {
        self.as_float().is_some()
    }

    pub fn is_false(&self) -> (r: bool)
        ensures
            r == falsy(self@),
    {
        match self {
            Values::Bool(b) => !*b,
            Values::Nil => true,
            Values::Int(i) => *i == 0,
            Values::Float(bits) => *bits == 0 || *bits == SIGN_BIT,
            Values::Str(_) => false,
        }
    }

    /// A copy of the value.
    pub fn copy(&self) -> (r: Self)
        ensures
            r@ == self@,
    {
        match self {
            Values::Float(b) => Values::Float(*b),
            Values::Int(i) => Values::Int(*i),
            Values::Bool(b) => Values::Bool(*b),
            Values::Str(s) => Values::Str(s.clone()),
            Values::Nil => Values::Nil,
        }
    }

    /// The negation of the value (the `-` operator on values).
    pub fn neg(self) -> (r: Self)
        requires
            !(self@ matches ValueView::Int(i) && i == i64::MIN),
        ensures
            r@ == negated(self@),
    {
        match self {
            Values::Float(bits) => Values::Float(bits ^ SIGN_BIT),
            Values::Int(i) => Values::Int(-i),
            Values::Bool(b) => Values::Bool(b),
            _ => Values::Nil,
        }
    }

    /// The text that printing the value gives, where the library forms it.
    pub fn display_text(&self) -> (r: DisplayText)
        ensures
            match r {
                DisplayText::Text(t) => display_of(self@) == Some(t@),
                DisplayText::FloatBits(b) => self@ == ValueView::Float(b),
                DisplayText::Unprintable => self@ is Nil,
            },
    {
        match self {
            Values::Str(s) => DisplayText::Text(s.clone()),
            Values::Int(i) => DisplayText::Text(int_text(*i)),
            Values::Bool(b) => {
                if *b {
                    DisplayText::Text("true".to_owned())
                } else {
                    DisplayText::Text("false".to_owned())
                }
            },
            Values::Float(bits) => DisplayText::FloatBits(*bits),
            Values::Nil => DisplayText::Unprintable,
        }
    }
}

/// The constants of a chunk.
#[derive(Debug)]
pub struct ValueArray {
    pub values: Vec<Values>,
}

/// The views of a sequence of values.
pub open spec fn views(vs: Seq<Values>) -> Seq<ValueView> {
    vs.map_values(|v: Values| v@)
}

pub proof fn lemma_views_push(vs: Seq<Values>, v: Values)
    ensures
        views(vs.push(v)) == views(vs).push(v@),
{
    assert(views(vs.push(v)) =~= views(vs).push(v@));
}

pub proof fn lemma_views_drop_last(vs: Seq<Values>)
    requires
        vs.len() > 0,
    ensures
        views(vs.drop_last()) == views(vs).drop_last(),
{
    assert(views(vs.drop_last()) =~= views(vs).drop_last());
}

pub proof fn lemma_views_update(vs: Seq<Values>, i: int, v: Values)
    requires
        0 <= i < vs.len(),
    ensures
        views(vs.update(i, v)) == views(vs).update(i, v@),
{
    assert(views(vs.update(i, v)) =~= views(vs).update(i, v@));
}

/// Copies of the values `vs`.
pub fn copy_values(vs: &Vec<Values>) -> (r: Vec<Values>)
    ensures
        views(r@) == views(vs@),
{
    let mut r: Vec<Values> = Vec::new();
    let mut i: usize = 0;
    while i < vs.len()
        invariant
            0 <= i <= vs.len(),
            r@.len() == i,
            forall|k: int| 0 <= k < i ==> (#[trigger] r@[k])@ == vs@[k]@,
        decreases vs.len() - i,
    {
        r.push(vs[i].copy());
        i = i + 1;
    }
    assert(views(r@) =~= views(vs@));
    r
}

impl ValueArray {
    pub fn new_value() -> (a: Self)
        ensures
            a.values@.len() == 0,
    {
        Self { values: Vec::new() }
    }

    pub fn write_value(&mut self, values: Values)
        ensures
            final(self).values@ == old(self).values@.push(values),
    {
        self.values.push(values);
    }
}

/// Bytecode: instruction bytes, the source line of each byte, and constants.
#[derive(Debug)]
pub struct Chunk {
    pub code: Vec<u8>,
    pub constant: ValueArray,
    pub line: Vec<usize>,
}

impl Chunk {
    /// Every byte has its line.
    pub open spec fn wf(&self) -> bool {
        self.code@.len() == self.line@.len()
    }

    /// The constants, as values.
    pub open spec fn constants(&self) -> Seq<ValueView> {
        views(self.constant.values@)
    }

    /// A copy of the chunk.
    pub fn copy(&self) -> (r: Chunk)
        ensures
            r.code@ == self.code@,
            r.line@ == self.line@,
            r.constants() == self.constants(),
    {
        Chunk {
            code: self.code.clone(),
            constant: ValueArray { values: copy_values(&self.constant.values) },
            line: self.line.clone(),
        }
    }
}

} // verus!
