use vstd::prelude::*;
use crate::chunk_values::{byte_op, op_byte, views, Chunk, OpCode, ValueArray, ValueView, Values};

verus! {

impl Chunk {
    /// An empty chunk.
    pub fn new_chunk() -> (c: Self)
        ensures
            c.code@.len() == 0,
            c.line@.len() == 0,
            c.constants().len() == 0,
            c.wf(),
    {
        Self { code: Vec::new(), constant: ValueArray::new_value(), line: Vec::new() }
    }

    /// Appends a byte, recorded as coming from source line `line`.
    pub fn write_chunk(&mut self, bytes: u8, line: usize)
        ensures
            final(self).code@ == old(self).code@.push(bytes),
            final(self).line@ == old(self).line@.push(line),
            final(self).constants() == old(self).constants(),
    {
        self.code.push(bytes);
        self.line.push(line);
    }

    /// Appends a constant and gives its index.
    pub fn add_constant(&mut self, value: Values) -> (index: usize)
        ensures
            final(self).constants() == old(self).constants().push(value@),
            final(self).code@ == old(self).code@,
            final(self).line@ == old(self).line@,
            index == old(self).constants().len(),
    {
        self.constant.write_value(value);
        proof {
            assert(views(self.constant.values@) =~= views(old(self).constant.values@).push(value@));
        }
        self.constant.values.len() - 1
    }

    /// Sets the constant at `index` to the float with the given bits.
    pub fn set_float_constant(&mut self, index: usize, bits: u64)
        requires
            index < old(self).constants().len(),
        ensures
            final(self).constants() == old(self).constants().update(index as int, ValueView::Float(bits)),
            final(self).code@ == old(self).code@,
            final(self).line@ == old(self).line@,
    {
        self.constant.values.set(index, Values::Float(bits));
        proof {
            assert(views(self.constant.values@) =~= views(old(self).constant.values@).update(
                index as int,
                ValueView::Float(bits),
            ));
        }
    }

    /// Decodes the instruction at `offset`: the line to show, the
    /// instruction and its operand, and where the next instruction starts.
    pub fn disassembler_instruction(&self, offset: usize) -> (d: Disassembled)
        requires
            self.wf(),
            offset < self.code@.len(),
        ensures
            d@ == disassembled_at(self.code@, self.line@, self.constants(), offset as int),
            d.offset == offset,
            offset < d.next <= offset + 3,
    {
        reveal(disassembled_at);
        let line = if offset > 0 && self.line[offset] == self.line[offset - 1] {
            None
        } else {
            Some(self.line[offset])
        };
        let instruction = self.code[offset];
        let kind = instruction_kind(instruction);
        let operand = match kind {
            InstrKind::Simple(_) => Operand::NoOperand,
            InstrKind::Unknown => Operand::NoOperand,
            InstrKind::Constant(_) => {
                if self.code.len() - offset > 1 {
                    let index = self.code[offset + 1];
                    if (index as usize) < self.constant.values.len() {
                        Operand::Constant(index, self.constant.values[index as usize].copy())
                    } else {
                        Operand::MissingConstant(index)
                    }
                } else {
                    Operand::Truncated
                }
            },
            InstrKind::Byte(_) => {
                if self.code.len() - offset > 1 {
                    Operand::Byte(self.code[offset + 1])
                } else {
                    Operand::Truncated
                }
            },
            InstrKind::Jump(_) => {
                if self.code.len() - offset > 2 {
                    let jump = decode_short(self.code[offset + 1], self.code[offset + 2]);
                    Operand::Jump(jump, offset as u128 + 3 + jump as u128)
                } else {
                    Operand::Truncated
                }
            },
        };
        let next = match kind {
            InstrKind::Constant(_) => offset as u128 + 2,
            InstrKind::Byte(_) => offset as u128 + 2,
            InstrKind::Jump(_) => offset as u128 + 3,
            _ => offset as u128 + 1,
        };
        Disassembled { offset, line, kind, operand, next }
    }

    /// The instructions of the chunk in order, as the disassembler lists
    /// them; the list stops after an instruction whose operand is cut off.
    pub fn disassembler(&self) -> (ds: Vec<Disassembled>)
        requires
            self.wf(),
        ensures
            ds@.len() > 0 ==> ds@[0].offset == 0,
            forall|i: int|
                0 <= i < ds@.len() ==> (#[trigger] ds@[i])@ == disassembled_at(
                    self.code@,
                    self.line@,
                    self.constants(),
                    ds@[i].offset as int,
                ),
            forall|i: int|
                0 <= i < ds@.len() - 1 ==> ds@[i + 1].offset == (#[trigger] ds@[i]).next,
            forall|i: int| 0 <= i < ds@.len() - 1 ==> !((#[trigger] ds@[i]).operand is Truncated),
            self.code@.len() == 0 <==> ds@.len() == 0,
            forall|i: int| 0 <= i < ds@.len() ==> (#[trigger] ds@[i]).offset < self.code@.len(),
            ds@.len() > 0 ==> (ds@.last().next >= self.code@.len() || ds@.last().operand
                is Truncated),
    {
        let mut ds: Vec<Disassembled> = Vec::new();
        let mut offset: usize = 0;
        let mut done = false;
        while !done && offset < self.code.len()
            invariant
                self.wf(),
                offset <= self.code@.len(),
                ds@.len() > 0 ==> ds@[0].offset == 0,
                ds@.len() == 0 ==> offset == 0 && !done,
                ds@.len() > 0 ==> self.code@.len() > 0,
                forall|i: int| 0 <= i < ds@.len() ==> (#[trigger] ds@[i]).offset < self.code@.len(),
                !done && ds@.len() > 0 ==> ds@.last().next == offset,
                done ==> ds@.len() > 0 && (ds@.last().next >= self.code@.len() || ds@.last().operand
                    is Truncated),
                forall|i: int|
                    0 <= i < ds@.len() ==> (#[trigger] ds@[i])@ == disassembled_at(
                        self.code@,
                        self.line@,
                        self.constants(),
                        ds@[i].offset as int,
                    ),
                forall|i: int|
                    0 <= i < ds@.len() - 1 ==> ds@[i + 1].offset == (#[trigger] ds@[i]).next,
                forall|i: int|
                    0 <= i < ds@.len() - (if done { 1int } else { 0int }) ==> !((#[trigger] ds@[i]).operand is Truncated),
            decreases self.code@.len() - offset, if done { 0int } else { 1int },
        {
            let d = self.disassembler_instruction(offset);
            let next = d.next;
            let truncated = d.operand.is_truncated();
            ds.push(d);
            if truncated || next >= self.code.len() as u128 {
                done = true;
            } else {
                offset = next as usize;
            }
        }
        ds
    }
}

/// A big-endian pair of bytes read as one number.
pub open spec fn short_of(high: u8, low: u8) -> u16 {
    (high as u16 * 256 + low as u16) as u16
}

/// Reads two bytes, the high one first, as one number.
pub fn decode_short(high: u8, low: u8) -> (r: u16)
    ensures
        r == short_of(high, low),
        r as int == high as int * 256 + low as int,
{
    (high as u16) * 256 + (low as u16)
}

/// The kinds of instruction the disassembler tells apart, with the name it
/// shows for each.
#[derive(Debug, Clone, Copy, PartialEq, Eq, Structural)]
pub enum InstrKind {
    Simple(OpCode),
    Constant(OpCode),
    Byte(OpCode),
    Jump(OpCode),
    Unknown,
}

/// How the disassembler reads the instruction with byte `b`.
pub open spec fn kind_of(b: u8) -> InstrKind {
    match byte_op(b) {
        Some(op) => match op {
            OpCode::OpC | OpCode::OpDefGlobal | OpCode::OpGetGlobal | OpCode::OpSetGlobal
            | OpCode::OpDefFixed => InstrKind::Constant(op),
            OpCode::OpSetLocal | OpCode::OpGetLocal | OpCode::OpSetLocalFixed => InstrKind::Byte(
                op,
            ),
            OpCode::OpJumpIfFalse | OpCode::OpJump | OpCode::OpLoop => InstrKind::Jump(op),
            OpCode::OpAnd => InstrKind::Unknown,
            _ => InstrKind::Simple(op),
        },
        None => InstrKind::Unknown,
    }
}

/// The number of bytes of the instruction that starts with byte `b`, as the
/// disassembler steps over it.
pub open spec fn instr_len(b: u8) -> int {
    match kind_of(b) {
        InstrKind::Constant(_) => 2,
        InstrKind::Byte(_) => 2,
        InstrKind::Jump(_) => 3,
        _ => 1,
    }
}

/// Whether the machine carries out the instruction with byte `b`.
pub open spec fn runnable(b: u8) -> bool {
    byte_op(b) matches Some(op) && op != OpCode::OpEq
}

/// From offset `i` on, `code` is a run of whole instructions that the
/// machine carries out, each constant operand naming one of `n` constants.
#[verifier::opaque]
pub open spec fn whole_from(code: Seq<u8>, i: int, n: nat) -> bool
    decreases code.len() - i,
{
    if i < 0 || i > code.len() {
        false
    } else if i == code.len() {
        true
    } else {
        let b = code[i];
        if runnable(b) && i + instr_len(b) <= code.len() && (kind_of(b) is Constant ==> code[i
            + 1] < n) {
            whole_from(code, i + instr_len(b), n)
        } else {
            false
        }
    }
}

/// Nothing, or whole instructions, follow offset `i`.
pub open spec fn whole_after(code: Seq<u8>, i: int, n: nat) -> bool {
    i == code.len() || whole_from(code, i, n)
}

/// One instruction followed by a whole run is a whole run.
pub proof fn lemma_whole_step(code: Seq<u8>, i: int, n: nat)
    requires
        0 <= i < code.len(),
        runnable(code[i]),
        i + instr_len(code[i]) <= code.len(),
        kind_of(code[i]) is Constant ==> code[i + 1] < n,
        whole_from(code, i + instr_len(code[i]), n),
    ensures
        whole_from(code, i, n),
{
    reveal_with_fuel(whole_from, 2);
}

/// A whole run starts with a whole instruction.
pub proof fn lemma_whole_unfold(code: Seq<u8>, i: int, n: nat)
    requires
        whole_from(code, i, n),
        i < code.len(),
    ensures
        0 <= i,
        runnable(code[i]),
        i + instr_len(code[i]) <= code.len(),
        kind_of(code[i]) is Constant ==> code[i + 1] < n,
        whole_from(code, i + instr_len(code[i]), n),
{
    reveal_with_fuel(whole_from, 2);
}

pub proof fn lemma_whole_end(code: Seq<u8>, n: nat)
    ensures
        whole_from(code, code.len() as int, n),
{
    reveal_with_fuel(whole_from, 1);
}

/// A whole run stays whole when the code around it is replaced by code
/// that agrees from `i` on, and when there are more constants.
pub proof fn lemma_whole_agree(c1: Seq<u8>, c2: Seq<u8>, i: int, n: nat, m: nat)
    requires
        whole_from(c1, i, n),
        c1.len() == c2.len(),
        n <= m,
        forall|j: int| i <= j < c1.len() ==> c1[j] == c2[j],
    ensures
        whole_from(c2, i, m),
    decreases c1.len() - i,
{
    lemma_whole_range(c1, i, n);
    if i == c1.len() {
        lemma_whole_end(c2, m);
    } else {
        lemma_whole_unfold(c1, i, n);
        lemma_whole_agree(c1, c2, i + instr_len(c1[i]), n, m);
        lemma_whole_step(c2, i, m);
    }
}

/// A whole run in `b` that reaches its end stays whole when `b` grows into
/// `c` by a whole run.
pub proof fn lemma_whole_extend(b: Seq<u8>, c: Seq<u8>, i: int, n: nat, m: nat)
    requires
        whole_from(b, i, n),
        b.len() <= c.len(),
        c.take(b.len() as int) == b,
        whole_from(c, b.len() as int, m),
        n <= m,
    ensures
        whole_from(c, i, m),
    decreases b.len() - i,
{
    if i < b.len() {
        lemma_whole_unfold(b, i, n);
        assert(c[i] == b[i]);
        if kind_of(b[i]) is Constant {
            assert(c[i + 1] == b[i + 1]);
        }
        lemma_whole_extend(b, c, i + instr_len(b[i]), n, m);
        lemma_whole_step(c, i, m);
    } else {
        lemma_whole_range(b, i, n);
    }
}

/// A whole run starts inside the code or at its end.
pub proof fn lemma_whole_range(b: Seq<u8>, i: int, n: nat)
    requires
        whole_from(b, i, n),
    ensures
        0 <= i <= b.len(),
{
    reveal_with_fuel(whole_from, 1);
}

/// Appending a whole run of bytes to any code leaves a whole run after the
/// old end.
pub proof fn lemma_whole_append(a: Seq<u8>, bytes: Seq<u8>, j: int, n: nat)
    requires
        whole_from(bytes, j, n),
    ensures
        whole_from(a + bytes, a.len() + j, n),
    decreases bytes.len() - j,
{
    let c = a + bytes;
    if j < bytes.len() {
        lemma_whole_unfold(bytes, j, n);
        assert(c[a.len() + j] == bytes[j]);
        if kind_of(bytes[j]) is Constant {
            assert(c[a.len() + j + 1] == bytes[j + 1]);
        }
        lemma_whole_append(a, bytes, j + instr_len(bytes[j]), n);
        lemma_whole_step(c, a.len() + j, n);
    } else {
        lemma_whole_range(bytes, j, n);
        lemma_whole_end(c, n);
    }
}

/// Growing by a whole run after a whole run is a whole run.
pub proof fn lemma_whole_after_trans(a: Seq<u8>, b: Seq<u8>, c: Seq<u8>, n: nat, m: nat)
    requires
        a.len() <= b.len(),
        b.len() <= c.len(),
        c.take(b.len() as int) == b,
        whole_after(b, a.len() as int, n),
        whole_after(c, b.len() as int, m),
        n <= m,
    ensures
        whole_after(c, a.len() as int, m),
{
    if b.len() == c.len() {
        assert(c == b) by {
            assert(c =~= c.take(b.len() as int));
        }
        if a.len() < b.len() {
            lemma_whole_agree(b, c, a.len() as int, n, m);
        }
    } else {
        if a.len() == b.len() {
        } else {
            lemma_whole_extend(b, c, a.len() as int, n, m);
        }
    }
}

/// `i` is the start of an instruction when the code is decoded from `from`.
#[verifier::opaque]
pub open spec fn starts_at(code: Seq<u8>, from: int, i: int) -> bool
    decreases i - from,
{
    if from == i {
        true
    } else if from < i && from < code.len() && from + instr_len(code[from]) <= i {
        starts_at(code, from + instr_len(code[from]), i)
    } else {
        false
    }
}

/// Where the jump instruction at `i` leads: `OpLoop` goes back, the other
/// jumps go forward, counting from just after the instruction.
pub open spec fn jump_target(code: Seq<u8>, i: int) -> int {
    let d = short_of(code[i + 1], code[i + 2]) as int;
    if code[i] == op_byte(OpCode::OpLoop) {
        i + 3 - d
    } else {
        i + 3 + d
    }
}

/// Decoding from `from`, every jump instruction leads to the start of an
/// instruction.
pub open spec fn jumps_land(code: Seq<u8>, from: int) -> bool {
    forall|i: int|
        #[trigger] starts_at(code, from, i) && from <= i < code.len() && kind_of(code[i]) is Jump
            ==> starts_at(code, from, jump_target(code, i))
}

/// Nothing, or code whose jumps land on instruction starts, follows `from`.
pub open spec fn jumps_land_after(code: Seq<u8>, from: int) -> bool {
    from == code.len() || jumps_land(code, from)
}

pub proof fn lemma_starts_refl(code: Seq<u8>, f: int)
    ensures
        starts_at(code, f, f),
{
    reveal_with_fuel(starts_at, 1);
}

/// A start other than the first one lies after a whole instruction.
pub proof fn lemma_starts_unfold(code: Seq<u8>, f: int, i: int)
    requires
        starts_at(code, f, i),
        f != i,
    ensures
        f < i,
        f < code.len(),
        f + instr_len(code[f]) <= i,
        starts_at(code, f + instr_len(code[f]), i),
{
    reveal_with_fuel(starts_at, 1);
}

/// The instruction after a start starts there.
pub proof fn lemma_starts_next(code: Seq<u8>, f: int, i: int)
    requires
        starts_at(code, f, i),
        0 <= i < code.len(),
    ensures
        starts_at(code, f, i + instr_len(code[i])),
    decreases i - f,
{
    reveal_with_fuel(starts_at, 2);
    if f != i {
        lemma_starts_unfold(code, f, i);
        lemma_starts_next(code, f + instr_len(code[f]), i);
    }
}

pub proof fn lemma_starts_trans(code: Seq<u8>, f: int, g: int, h: int)
    requires
        starts_at(code, f, g),
        starts_at(code, g, h),
    ensures
        starts_at(code, f, h),
    decreases g - f,
{
    if f != g {
        lemma_starts_unfold(code, f, g);
        lemma_starts_trans(code, f + instr_len(code[f]), g, h);
        if g != h {
            lemma_starts_unfold(code, g, h);
        }
        reveal_with_fuel(starts_at, 1);
    }
}

/// Decoding is deterministic: of two starts, the later one is a start
/// when decoding from the earlier one.
pub proof fn lemma_starts_split(code: Seq<u8>, f: int, g: int, h: int)
    requires
        starts_at(code, f, g),
        starts_at(code, f, h),
        g <= h,
    ensures
        starts_at(code, g, h),
    decreases g - f,
{
    if f != g {
        lemma_starts_unfold(code, f, g);
        lemma_starts_unfold(code, f, h);
        lemma_starts_split(code, f + instr_len(code[f]), g, h);
    }
}

/// Starts up to the end of `b` are the same in `b` and in any code that
/// begins with `b`.
pub proof fn lemma_starts_prefix(b: Seq<u8>, c: Seq<u8>, f: int, i: int)
    requires
        0 <= f,
        b.len() <= c.len(),
        c.take(b.len() as int) == b,
        i <= b.len(),
    ensures
        starts_at(b, f, i) <==> starts_at(c, f, i),
    decreases i - f,
{
    reveal_with_fuel(starts_at, 1);
    if f < i && f < b.len() {
        assert(c[f] == b[f]);
        if f + instr_len(b[f]) <= i {
            lemma_starts_prefix(b, c, f + instr_len(b[f]), i);
        }
    }
}

/// Starts from `f` on depend only on the code from `g <= f` on.
pub proof fn lemma_starts_suffix(c1: Seq<u8>, c2: Seq<u8>, g: int, f: int, i: int)
    requires
        c1.len() == c2.len(),
        0 <= g <= f,
        forall|j: int| g <= j < c1.len() ==> c1[j] == c2[j],
    ensures
        starts_at(c1, f, i) <==> starts_at(c2, f, i),
    decreases i - f,
{
    reveal_with_fuel(starts_at, 1);
    if f < i && f < c1.len() {
        assert(c1[f] == c2[f]);
        if f + instr_len(c1[f]) <= i {
            lemma_starts_suffix(c1, c2, g, f + instr_len(c1[f]), i);
        }
    }
}

/// Decoding a whole run reaches the end of the code.
pub proof fn lemma_whole_reaches_end(code: Seq<u8>, f: int, n: nat)
    requires
        whole_from(code, f, n),
    ensures
        starts_at(code, f, code.len() as int),
    decreases code.len() - f,
{
    lemma_whole_range(code, f, n);
    reveal_with_fuel(starts_at, 1);
    if f < code.len() {
        lemma_whole_unfold(code, f, n);
        lemma_whole_reaches_end(code, f + instr_len(code[f]), n);
    }
}

/// In a whole run, every start begins a whole run.
pub proof fn lemma_whole_at_start(code: Seq<u8>, f: int, i: int, n: nat)
    requires
        whole_from(code, f, n),
        starts_at(code, f, i),
    ensures
        whole_from(code, i, n),
        0 <= i <= code.len(),
    decreases i - f,
{
    if f != i {
        lemma_starts_unfold(code, f, i);
        lemma_whole_unfold(code, f, n);
        lemma_whole_at_start(code, f + instr_len(code[f]), i, n);
    }
    lemma_whole_range(code, i, n);
}

/// Code that holds one instruction from `f` on, not a jump, has no jump.
pub proof fn lemma_one_instr_jumps_land(code: Seq<u8>, f: int)
    requires
        0 <= f < code.len(),
        f + instr_len(code[f]) == code.len(),
        !(kind_of(code[f]) is Jump),
    ensures
        jumps_land(code, f),
{
    assert forall|i: int|
        #[trigger] starts_at(code, f, i) && f <= i < code.len() && kind_of(code[i]) is Jump implies starts_at(
            code,
            f,
            jump_target(code, i),
        ) by {
        if f != i {
            lemma_starts_unfold(code, f, i);
            reveal_with_fuel(starts_at, 1);
        }
    }
}

/// Jumps that land in a whole run `b`, and jumps of a whole run appended to
/// it that land, land in the whole code.
pub proof fn lemma_jumps_land_trans(a_len: int, b: Seq<u8>, c: Seq<u8>, nb: nat, nc: nat)
    requires
        0 <= a_len <= b.len() <= c.len(),
        c.take(b.len() as int) == b,
        whole_after(b, a_len, nb),
        whole_after(c, b.len() as int, nc),
        jumps_land_after(b, a_len),
        jumps_land_after(c, b.len() as int),
    ensures
        jumps_land_after(c, a_len),
{
    if a_len == b.len() {
    } else if b.len() == c.len() {
        assert(c =~= b) by {
            assert(c =~= c.take(b.len() as int));
        }
    } else {
        lemma_whole_reaches_end(b, a_len, nb);
        lemma_starts_prefix(b, c, a_len, b.len() as int);
        assert forall|i: int|
            #[trigger] starts_at(c, a_len, i) && a_len <= i < c.len() && kind_of(c[i]) is Jump implies starts_at(
                c,
                a_len,
                jump_target(c, i),
            ) by {
            if i < b.len() {
                lemma_starts_prefix(b, c, a_len, i);
                lemma_whole_at_start(b, a_len, i, nb);
                lemma_whole_unfold(b, i, nb);
                assert(c[i] == b[i] && c[i + 1] == b[i + 1] && c[i + 2] == b[i + 2]);
                assert(starts_at(b, a_len, jump_target(b, i)));
                lemma_whole_at_start(b, a_len, jump_target(b, i), nb);
                lemma_starts_prefix(b, c, a_len, jump_target(b, i));
            } else {
                lemma_starts_split(c, a_len, b.len() as int, i);
                assert(starts_at(c, b.len() as int, i));
                lemma_starts_trans(c, a_len, b.len() as int, jump_target(c, i));
            }
        }
    }
}

fn instruction_kind(b: u8) -> (k: InstrKind)
    ensures
        k == kind_of(b),
{
    match OpCode::from_byte(b) {
        Some(op) => match op {
            OpCode::OpC | OpCode::OpDefGlobal | OpCode::OpGetGlobal | OpCode::OpSetGlobal
            | OpCode::OpDefFixed => InstrKind::Constant(op),
            OpCode::OpSetLocal | OpCode::OpGetLocal | OpCode::OpSetLocalFixed => InstrKind::Byte(
                op,
            ),
            OpCode::OpJumpIfFalse | OpCode::OpJump | OpCode::OpLoop => InstrKind::Jump(op),
            OpCode::OpAnd => InstrKind::Unknown,
            _ => InstrKind::Simple(op),
        },
        None => InstrKind::Unknown,
    }
}

/// The operand of an instruction, as the disassembler shows it.
#[derive(Debug)]
pub enum Operand {
    NoOperand,
    /// A constant index and the constant.
    Constant(u8, Values),
    /// A constant index with no constant there.
    MissingConstant(u8),
    /// A stack slot.
    Byte(u8),
    /// A jump distance and the offset it leads to.
    Jump(u16, u128),
    /// The code ends before the operand does.
    Truncated,
}

impl Operand {
    pub fn is_truncated(&self) -> (b: bool)
        ensures
            b == self is Truncated,
    {
        match self {
            Operand::Truncated => true,
            _ => false,
        }
    }
}

pub enum OperandView {
    NoOperand,
    Constant(u8, ValueView),
    MissingConstant(u8),
    Byte(u8),
    Jump(u16, u128),
    Truncated,
}

impl View for Operand {
    type V = OperandView;

    open spec fn view(&self) -> OperandView {
        match self {
            Operand::NoOperand => OperandView::NoOperand,
            Operand::Constant(i, v) => OperandView::Constant(*i, v@),
            Operand::MissingConstant(i) => OperandView::MissingConstant(*i),
            Operand::Byte(b) => OperandView::Byte(*b),
            Operand::Jump(j, t) => OperandView::Jump(*j, *t),
            Operand::Truncated => OperandView::Truncated,
        }
    }
}

/// One line of the disassembly: the offset, the source line (absent when it
/// is the line of the previous byte), the instruction, its operand, and the
/// offset of the next instruction.
#[derive(Debug)]
pub struct Disassembled {
    pub offset: usize,
    pub line: Option<usize>,
    pub kind: InstrKind,
    pub operand: Operand,
    pub next: u128,
}

pub struct DisassembledView {
    pub offset: usize,
    pub line: Option<usize>,
    pub kind: InstrKind,
    pub operand: OperandView,
    pub next: u128,
}

impl View for Disassembled {
    type V = DisassembledView;

    open spec fn view(&self) -> DisassembledView {
        DisassembledView {
            offset: self.offset,
            line: self.line,
            kind: self.kind,
            operand: self.operand@,
            next: self.next,
        }
    }
}

/// The disassembly of the instruction at `offset`.
#[verifier::opaque]
pub open spec fn disassembled_at(
    code: Seq<u8>,
    lines: Seq<usize>,
    constants: Seq<ValueView>,
    offset: int,
) -> DisassembledView {
    let kind = kind_of(code[offset]);
    DisassembledView {
        offset: offset as usize,
        line: if offset > 0 && lines[offset] == lines[offset - 1] {
            None
        } else {
            Some(lines[offset])
        },
        kind,
        operand: match kind {
            InstrKind::Constant(_) => if offset + 1 < code.len() {
                let index = code[offset + 1];
                if index < constants.len() {
                    OperandView::Constant(index, constants[index as int])
                } else {
                    OperandView::MissingConstant(index)
                }
            } else {
                OperandView::Truncated
            },
            InstrKind::Byte(_) => if offset + 1 < code.len() {
                OperandView::Byte(code[offset + 1])
            } else {
                OperandView::Truncated
            },
            InstrKind::Jump(_) => if offset + 2 < code.len() {
                let jump = short_of(code[offset + 1], code[offset + 2]);
                OperandView::Jump(jump, (offset + 3 + jump) as u128)
            } else {
                OperandView::Truncated
            },
            _ => OperandView::NoOperand,
        },
        next: (offset + match kind {
            InstrKind::Constant(_) => 2int,
            InstrKind::Byte(_) => 2int,
            InstrKind::Jump(_) => 3int,
            _ => 1int,
        }) as u128,
    }
}

} // verus!
