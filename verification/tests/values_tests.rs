use lib::chunk_values::{int_text, DisplayText, OpCode, Values};

#[test]
fn constructors_and_accessors() {
    assert_eq!(Values::int_val(7).as_int(), Some(7));
    assert_eq!(Values::bool_val(true).as_bool(), Some(true));
    assert_eq!(Values::float_val(1.5f64.to_bits()).as_float(), Some(1.5f64.to_bits()));
    assert_eq!(Values::none().as_int(), None);
    assert!(Values::int_val(1).is_int());
    assert!(!Values::int_val(1).is_bool());
    assert!(Values::bool_val(false).is_bool());
    assert!(Values::float_val(0).is_float());
    assert!(!Values::none().is_float());
}

#[test]
fn falsiness() {
    assert!(Values::bool_val(false).is_false());
    assert!(!Values::bool_val(true).is_false());
    assert!(Values::none().is_false());
    assert!(Values::int_val(0).is_false());
    assert!(!Values::int_val(3).is_false());
    assert!(Values::float_val(0.0f64.to_bits()).is_false());
    assert!(Values::float_val((-0.0f64).to_bits()).is_false());
    assert!(!Values::float_val(0.5f64.to_bits()).is_false());
    assert!(!Values::Str(String::new()).is_false());
}

#[test]
fn negation() {
    assert_eq!(Values::int_val(5).neg().as_int(), Some(-5));
    assert_eq!(Values::float_val(2.5f64.to_bits()).neg().as_float(), Some((-2.5f64).to_bits()));
    assert_eq!(Values::bool_val(true).neg().as_bool(), Some(true));
    assert!(matches!(Values::Str("a".to_string()).neg(), Values::Nil));
}

#[test]
fn negating_twice_gives_the_value_back() {
    let v = Values::float_val(3.25f64.to_bits());
    assert_eq!(v.neg().neg().as_float(), Some(3.25f64.to_bits()));
    assert_eq!(Values::int_val(-9).neg().neg().as_int(), Some(-9));
    assert!(Values::none().neg().neg().as_bool().is_none());
    assert_eq!(Values::bool_val(false).neg().neg().as_bool(), Some(false));
}

#[test]
fn integer_text() {
    assert_eq!(int_text(0), "0");
    assert_eq!(int_text(42), "42");
    assert_eq!(int_text(-42), "-42");
    assert_eq!(int_text(i64::MAX), i64::MAX.to_string());
    assert_eq!(int_text(i64::MIN), i64::MIN.to_string());
}

#[test]
fn display_text_of_values() {
    match Values::bool_val(true).display_text() {
        DisplayText::Text(t) => assert_eq!(t, "true"),
        _ => panic!("expected text"),
    }
    match Values::Str("hi".to_string()).display_text() {
        DisplayText::Text(t) => assert_eq!(t, "hi"),
        _ => panic!("expected text"),
    }
    match Values::int_val(-3).display_text() {
        DisplayText::Text(t) => assert_eq!(t, "-3"),
        _ => panic!("expected text"),
    }
    assert!(matches!(Values::float_val(7).display_text(), DisplayText::FloatBits(7)));
    assert!(matches!(Values::none().display_text(), DisplayText::Unprintable));
}

#[test]
fn opcode_bytes_round_trip() {
    let all = [
        OpCode::OpR,
        OpCode::OpC,
        OpCode::OpPop,
        OpCode::OpDefGlobal,
        OpCode::OpGetGlobal,
        OpCode::OpSetGlobal,
        OpCode::OpSetLocal,
        OpCode::OpGetLocal,
        OpCode::OpDefFixed,
        OpCode::OpSetLocalFixed,
        OpCode::OpLoop,
        OpCode::OpNegate,
        OpCode::OpSqrt,
        OpCode::OpAbs,
        OpCode::OpFloor,
        OpCode::OpCeil,
        OpCode::OpSin,
        OpCode::OpCos,
        OpCode::OpTan,
        OpCode::OpNot,
        OpCode::OpAdd,
        OpCode::OpSubtract,
        OpCode::OpMultiply,
        OpCode::OpDivide,
        OpCode::OpMod,
        OpCode::OpPow,
        OpCode::OpDivideDivide,
        OpCode::OpEqEq,
        OpCode::OpEq,
        OpCode::OpNotEq,
        OpCode::OpLt,
        OpCode::OpGt,
        OpCode::OpGte,
        OpCode::OpLte,
        OpCode::OpAnd,
        OpCode::OpOr,
        OpCode::OpPrint,
        OpCode::OpJumpIfFalse,
        OpCode::OpJump,
    ];
    for (i, op) in all.iter().enumerate() {
        assert_eq!(op.to_byte() as usize, i);
        assert_eq!(OpCode::from_byte(op.to_byte()), Some(*op));
    }
    assert_eq!(OpCode::from_byte(39), None);
    assert_eq!(OpCode::from_byte(255), None);
}
