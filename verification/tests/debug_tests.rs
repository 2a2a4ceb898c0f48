use lib::chunk_values::{Chunk, OpCode, Values};
use lib::debug::{decode_short, InstrKind, Operand};

fn op(o: OpCode) -> u8 {
    o.to_byte()
}

#[test]
fn new_chunk_is_empty() {
    let c = Chunk::new_chunk();
    assert!(c.code.is_empty());
    assert!(c.line.is_empty());
    assert!(c.constant.values.is_empty());
    assert!(c.disassembler().is_empty());
}

#[test]
fn write_and_add_constant() {
    let mut c = Chunk::new_chunk();
    c.write_chunk(op(OpCode::OpC), 4);
    assert_eq!(c.add_constant(Values::Int(3)), 0);
    assert_eq!(c.add_constant(Values::Bool(true)), 1);
    c.write_chunk(1, 4);
    assert_eq!(c.code, vec![op(OpCode::OpC), 1]);
    assert_eq!(c.line, vec![4, 4]);
    c.set_float_constant(0, 2.5f64.to_bits());
    assert_eq!(c.constant.values[0].as_float(), Some(2.5f64.to_bits()));
}

#[test]
fn disassembles_each_kind_of_instruction() {
    let mut c = Chunk::new_chunk();
    c.add_constant(Values::Int(7));
    for (b, line) in [
        (op(OpCode::OpC), 1), (0, 1),
        (op(OpCode::OpGetLocal), 1), (2, 1),
        (op(OpCode::OpJumpIfFalse), 2), (0, 2), (5, 2),
        (op(OpCode::OpAdd), 3),
        (op(OpCode::OpAnd), 3),
        (250, 3),
        (op(OpCode::OpR), 4),
    ] {
        c.write_chunk(b, line);
    }
    let ds = c.disassembler();
    let offsets: Vec<usize> = ds.iter().map(|d| d.offset).collect();
    assert_eq!(offsets, vec![0, 2, 4, 7, 8, 9, 10]);
    assert_eq!(ds[0].kind, InstrKind::Constant(OpCode::OpC));
    assert_eq!(ds[0].line, Some(1));
    assert!(matches!(ds[0].operand, Operand::Constant(0, Values::Int(7))));
    assert_eq!(ds[1].kind, InstrKind::Byte(OpCode::OpGetLocal));
    assert_eq!(ds[1].line, None);
    assert!(matches!(ds[1].operand, Operand::Byte(2)));
    assert_eq!(ds[2].kind, InstrKind::Jump(OpCode::OpJumpIfFalse));
    assert_eq!(ds[2].line, Some(2));
    assert!(matches!(ds[2].operand, Operand::Jump(5, 12)));
    assert_eq!(ds[3].kind, InstrKind::Simple(OpCode::OpAdd));
    assert!(matches!(ds[3].operand, Operand::NoOperand));
    assert_eq!(ds[4].kind, InstrKind::Unknown);
    assert_eq!(ds[5].kind, InstrKind::Unknown);
    assert_eq!(ds[6].kind, InstrKind::Simple(OpCode::OpR));
    assert_eq!(ds[6].next, 11);
}

#[test]
fn disassembly_stops_at_a_cut_off_operand() {
    let mut c = Chunk::new_chunk();
    c.write_chunk(op(OpCode::OpPop), 1);
    c.write_chunk(op(OpCode::OpJump), 1);
    c.write_chunk(0, 1);
    let ds = c.disassembler();
    assert_eq!(ds.len(), 2);
    assert!(ds[1].operand.is_truncated());
}

#[test]
fn missing_constant_is_shown() {
    let mut c = Chunk::new_chunk();
    c.write_chunk(op(OpCode::OpGetGlobal), 1);
    c.write_chunk(9, 1);
    let d = c.disassembler_instruction(0);
    assert!(matches!(d.operand, Operand::MissingConstant(9)));
    assert_eq!(d.next, 2);
}

#[test]
fn short_operands_are_big_endian() {
    assert_eq!(decode_short(0, 3), 3);
    assert_eq!(decode_short(1, 0), 256);
    assert_eq!(decode_short(0xff, 0xff), 0xffff);
}
