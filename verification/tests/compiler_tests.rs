use lib::chunk_values::{Chunk, OpCode, Values};
use lib::compiler::{
    advance, check, compile, consume, error, error_at, error_at_current, get_rules, ider_eq,
    match_tokens, new_parser, parse_int, patch_jump, Compiler, Local, ParseFn, Parser, Precedence,
};
use lib::scanner::{Token, TokenType};

fn op(o: OpCode) -> u8 {
    o.to_byte()
}

fn compiled(source: &str) -> (bool, Parser) {
    let mut parser = new_parser(Chunk::new_chunk(), source);
    let ok = compile(&mut parser);
    (ok, parser)
}

fn constants(parser: &Parser) -> Vec<String> {
    parser.chunk.constant.values.iter().map(|v| format!("{:?}", v)).collect()
}

fn messages(parser: &Parser) -> Vec<String> {
    parser.errors.iter().map(|e| e.message.clone()).collect()
}

#[test]
fn compiles_a_print_of_a_sum() {
    let (ok, p) = compiled("print 1 + 2;");
    assert!(ok);
    assert_eq!(
        p.chunk.code,
        vec![op(OpCode::OpC), 0, op(OpCode::OpC), 1, op(OpCode::OpAdd), op(OpCode::OpPrint), op(OpCode::OpR)]
    );
    assert_eq!(constants(&p), vec!["Int(1)", "Int(2)"]);
    assert_eq!(p.chunk.line, vec![1; 7]);
    assert!(p.errors.is_empty());
}

#[test]
fn products_bind_tighter_than_sums() {
    let (ok, p) = compiled("print 1 + 2 * 3;");
    assert!(ok);
    assert_eq!(
        p.chunk.code,
        vec![
            op(OpCode::OpC), 0, op(OpCode::OpC), 1, op(OpCode::OpC), 2,
            op(OpCode::OpMultiply), op(OpCode::OpAdd), op(OpCode::OpPrint), op(OpCode::OpR)
        ]
    );
}

#[test]
fn grouping_overrides_precedence() {
    let (ok, p) = compiled("print (1 + 2) * 3;");
    assert!(ok);
    assert_eq!(
        p.chunk.code,
        vec![
            op(OpCode::OpC), 0, op(OpCode::OpC), 1, op(OpCode::OpAdd), op(OpCode::OpC), 2,
            op(OpCode::OpMultiply), op(OpCode::OpPrint), op(OpCode::OpR)
        ]
    );
}

#[test]
fn unary_and_comparison_operators() {
    let (ok, p) = compiled("print -1 < 2 == !false;");
    assert!(ok);
    assert_eq!(
        p.chunk.code,
        vec![
            op(OpCode::OpC), 0, op(OpCode::OpNegate), op(OpCode::OpC), 1, op(OpCode::OpLt),
            op(OpCode::OpC), 2, op(OpCode::OpNot), op(OpCode::OpEqEq), op(OpCode::OpPrint),
            op(OpCode::OpR)
        ]
    );
    assert_eq!(constants(&p), vec!["Int(1)", "Int(2)", "Bool(false)"]);
}

#[test]
fn global_declaration_names_then_value() {
    let (ok, p) = compiled("set x = 5;");
    assert!(ok);
    assert_eq!(
        p.chunk.code,
        vec![op(OpCode::OpC), 1, op(OpCode::OpDefGlobal), 0, op(OpCode::OpR)]
    );
    assert_eq!(constants(&p), vec!["Str(\"x\")", "Int(5)"]);
}

#[test]
fn global_assignment_and_read() {
    let (ok, p) = compiled("x = 3;\nprint x;");
    assert!(ok);
    assert_eq!(
        p.chunk.code,
        vec![
            op(OpCode::OpC), 1, op(OpCode::OpSetGlobal), 0, op(OpCode::OpPop),
            op(OpCode::OpGetGlobal), 2, op(OpCode::OpPrint), op(OpCode::OpR)
        ]
    );
    assert_eq!(p.chunk.line, vec![1, 1, 1, 1, 1, 2, 2, 2, 2]);
}

#[test]
fn block_locals_live_on_the_stack() {
    let (ok, p) = compiled("{ set a = 1; print a; }");
    assert!(ok);
    assert_eq!(
        p.chunk.code,
        vec![
            op(OpCode::OpC), 0, op(OpCode::OpGetLocal), 0, op(OpCode::OpPrint), op(OpCode::OpPop),
            op(OpCode::OpR)
        ]
    );
    assert_eq!(constants(&p), vec!["Int(1)"]);
    assert_eq!(p.compiler.scope_depth, 0);
    assert_eq!(p.compiler.local_count, 0);
}

#[test]
fn local_assignment_uses_the_slot() {
    let (ok, p) = compiled("{ set a = 1; a = 2; }");
    assert!(ok);
    assert_eq!(
        p.chunk.code,
        vec![
            op(OpCode::OpC), 0, op(OpCode::OpC), 1, op(OpCode::OpSetLocal), 0, op(OpCode::OpPop),
            op(OpCode::OpPop), op(OpCode::OpR)
        ]
    );
}

#[test]
fn if_jumps_over_its_branch() {
    let (ok, p) = compiled("if true print 1;");
    assert!(ok);
    assert_eq!(
        p.chunk.code,
        vec![
            op(OpCode::OpC), 0, op(OpCode::OpJumpIfFalse), 0, 3, op(OpCode::OpC), 1,
            op(OpCode::OpPrint), op(OpCode::OpR)
        ]
    );
}

#[test]
fn float_literal_is_left_for_its_text() {
    let (ok, p) = compiled("print 1.5;");
    assert!(ok);
    assert_eq!(p.float_literals.len(), 1);
    assert_eq!(p.float_literals[0].index, 0);
    assert_eq!(p.float_literals[0].text, "1.5");
    assert_eq!(constants(&p), vec!["Float(0)"]);
}

#[test]
fn string_literal_loses_its_quotes() {
    let (ok, p) = compiled("print \"hi\";");
    assert!(ok);
    assert_eq!(constants(&p), vec!["Str(\"hi\")"]);
}

#[test]
fn missing_expression_is_reported_once() {
    let (ok, p) = compiled("print ;");
    assert!(!ok);
    assert!(p.had_err);
    assert_eq!(messages(&p), vec!["Expect expression."]);
    assert_eq!(p.errors[0].token.token_type, TokenType::Tsemicolon);
    assert_eq!(p.errors[0].token.line, 1);
}

#[test]
fn missing_semicolon_is_reported_at_end() {
    let (ok, p) = compiled("print 1");
    assert!(!ok);
    assert_eq!(messages(&p), vec!["Expect ';' after value."]);
    assert_eq!(p.errors[0].token.token_type, TokenType::Teof);
}

#[test]
fn declaration_errors() {
    let (_, p) = compiled("set 1 = 2;");
    assert_eq!(messages(&p)[0], "Expect variable name.");
    let (_, p) = compiled("set x 2;");
    assert_eq!(messages(&p)[0], "Expect '=' after variable name.");
    let (_, p) = compiled("{ set a = 1; set a = 2; }");
    assert_eq!(messages(&p), vec!["Already a variable with this name in this scope."]);
    let (_, p) = compiled("{ set a = a; }");
    assert_eq!(messages(&p), vec!["Can't read local variable in its own initializer."]);
    let (_, p) = compiled("{ print 1;");
    assert_eq!(messages(&p), vec!["Expect '}' after block."]);
}

#[test]
fn invalid_assignment_target() {
    let (ok, p) = compiled("1 = 2;");
    assert!(!ok);
    assert_eq!(messages(&p)[0], "Invalid assignment target.");
}

#[test]
fn scanner_errors_become_compile_errors() {
    let (ok, p) = compiled("print @;");
    assert!(!ok);
    assert_eq!(messages(&p)[0], "Unexpected character.");
    let (ok, p) = compiled("print \"abc");
    assert!(!ok);
    assert_eq!(messages(&p)[0], "Unterminated string.");
}

#[test]
fn too_many_constants() {
    let source = "print 1;".repeat(257);
    let (ok, p) = compiled(&source);
    assert!(!ok);
    assert_eq!(messages(&p), vec!["Too many constants in one chunk."]);
    let source = "print 1;".repeat(256);
    let (ok, _) = compiled(&source);
    assert!(ok);
}

#[test]
fn oversized_integer_literal_stops_the_compiler() {
    let (_, p) = compiled("print 99999999999999999999;");
    assert!(p.fault.is_some());
}

#[test]
fn compile_appends_to_the_chunk() {
    let mut chunk = Chunk::new_chunk();
    chunk.write_chunk(op(OpCode::OpPop), 7);
    let mut parser = new_parser(chunk, "print 2;");
    assert!(compile(&mut parser));
    assert_eq!(parser.chunk.code[0], op(OpCode::OpPop));
    assert_eq!(parser.chunk.code.len(), 5);
    assert_eq!(*parser.chunk.code.last().unwrap(), op(OpCode::OpR));
}

#[test]
fn empty_program_is_a_return() {
    let (ok, p) = compiled("");
    assert!(ok);
    assert_eq!(p.chunk.code, vec![op(OpCode::OpR)]);
}

#[test]
fn parse_int_values() {
    assert_eq!(parse_int(&"123".to_string()), Some(123));
    assert_eq!(parse_int(&"0".to_string()), Some(0));
    assert_eq!(parse_int(&"9223372036854775807".to_string()), Some(i64::MAX));
    assert_eq!(parse_int(&"9223372036854775808".to_string()), None);
    assert_eq!(parse_int(&"".to_string()), None);
    assert_eq!(parse_int(&"12a".to_string()), None);
}

#[test]
fn rules_for_operators() {
    let r = get_rules(TokenType::Tplus);
    assert_eq!(r.prefix, None);
    assert_eq!(r.infix, Some(ParseFn::Binary));
    assert_eq!(r.prec, Precedence::Terms);
    let r = get_rules(TokenType::Tminus);
    assert_eq!(r.prefix, Some(ParseFn::Unary));
    assert_eq!(get_rules(TokenType::TmulOp).prec, Precedence::Factors);
    assert_eq!(get_rules(TokenType::Tlte).prec, Precedence::Comps);
    assert_eq!(get_rules(TokenType::TnotEq).prec, Precedence::Eq);
    assert_eq!(get_rules(TokenType::Tnot).prec, Precedence::Unary);
    assert_eq!(get_rules(TokenType::Tint).prefix, Some(ParseFn::IntNum));
    assert_eq!(get_rules(TokenType::Tsemicolon).prefix, None);
    assert_eq!(get_rules(TokenType::Tstop).prec, Precedence::NoPrec);
}

#[test]
fn precedence_levels_increase() {
    let all = [
        Precedence::NoPrec, Precedence::Assignment, Precedence::Eq, Precedence::Comps,
        Precedence::Terms, Precedence::Factors, Precedence::Unary, Precedence::Call,
        Precedence::Prime,
    ];
    for (i, p) in all.iter().enumerate() {
        assert_eq!(p.level() as usize, i);
    }
}

#[test]
fn new_compiler_is_empty() {
    let c = Compiler::new();
    assert!(c.locals.is_empty());
    assert_eq!(c.local_count, 0);
    assert_eq!(c.scope_depth, 0);
}

fn token(kind: TokenType, text: &str, line: usize) -> Token {
    Token { token_type: kind, start: text.to_string(), len: text.len(), line }
}

#[test]
fn identifiers_compare_by_text() {
    assert!(ider_eq(&token(TokenType::Tid, "ab", 1), &token(TokenType::Tid, "ab", 9)));
    assert!(!ider_eq(&token(TokenType::Tid, "ab", 1), &token(TokenType::Tid, "abc", 1)));
}

#[test]
fn errors_while_recovering_are_dropped() {
    let mut p = new_parser(Chunk::new_chunk(), "x");
    error_at(&mut p, token(TokenType::Tid, "x", 3), "first");
    error_at(&mut p, token(TokenType::Tid, "x", 3), "second");
    assert_eq!(messages(&p), vec!["first"]);
    assert!(p.panic_mode);
    assert!(p.had_err);
}

#[test]
fn error_reports_previous_and_current_tokens() {
    let mut p = new_parser(Chunk::new_chunk(), "a b");
    advance(&mut p);
    advance(&mut p);
    assert_eq!(p.previous.start, "a");
    assert_eq!(p.current.start, "b");
    error(&mut p, "on a");
    p.panic_mode = false;
    error_at_current(&mut p, "on b");
    assert_eq!(p.errors[0].token.start, "a");
    assert_eq!(p.errors[1].token.start, "b");
}

#[test]
fn consume_and_match() {
    let mut p = new_parser(Chunk::new_chunk(), "( )");
    advance(&mut p);
    assert!(check(&p, TokenType::Tlp));
    assert!(!match_tokens(&mut p, TokenType::Trp));
    assert!(match_tokens(&mut p, TokenType::Tlp));
    consume(&mut p, "Expect ')'.", TokenType::Trp);
    assert!(p.errors.is_empty());
    assert!(check(&p, TokenType::Teof));
    consume(&mut p, "Expect ';'.", TokenType::Tsemicolon);
    assert_eq!(messages(&p), vec!["Expect ';'."]);
}

#[test]
fn advance_skips_error_tokens() {
    let mut p = new_parser(Chunk::new_chunk(), "@ 1");
    advance(&mut p);
    assert_eq!(p.current.token_type, TokenType::Tint);
    assert_eq!(messages(&p), vec!["Unexpected character."]);
}

#[test]
fn values_in_constants_keep_their_kind() {
    let (_, p) = compiled("print true;");
    assert!(matches!(p.chunk.constant.values[0], Values::Bool(true)));
}

#[test]
fn compiled_code_is_whole_instructions() {
    let (ok, p) = compiled(
        "set x = 1; { set a = x + 2.5; a = -a; if a < 3 if true { print \"s\"; } } x = !true; print x;",
    );
    assert!(ok);
    let ds = p.chunk.disassembler();
    let mut next = 0u128;
    let mut starts = Vec::new();
    for d in &ds {
        assert_eq!(d.offset as u128, next);
        assert!(!matches!(d.kind, lib::debug::InstrKind::Unknown));
        assert!(!matches!(
            d.operand,
            lib::debug::Operand::Truncated | lib::debug::Operand::MissingConstant(_)
        ));
        starts.push(d.offset as u128);
        next = d.next;
    }
    assert_eq!(next, p.chunk.code.len() as u128);
    starts.push(next);
    let mut jumps = 0;
    for d in &ds {
        if let lib::debug::Operand::Jump(_, target) = d.operand {
            assert!(starts.contains(&target));
            jumps += 1;
        }
    }
    assert_eq!(jumps, 2);
}

#[test]
fn expression_statement_code_and_lines() {
    let (ok, p) = compiled("1 + 2 * 3;");
    assert!(ok);
    assert_eq!(
        p.chunk.code,
        vec![
            op(OpCode::OpC), 0, op(OpCode::OpC), 1, op(OpCode::OpC), 2,
            op(OpCode::OpMultiply), op(OpCode::OpAdd), op(OpCode::OpPop), op(OpCode::OpR)
        ]
    );
    assert_eq!(constants(&p), vec!["Int(1)", "Int(2)", "Int(3)"]);
    assert_eq!(p.chunk.line, vec![1; 10]);
}

#[test]
fn equal_precedence_associates_left() {
    let (ok, p) = compiled("1 - 2 - 3;");
    assert!(ok);
    assert_eq!(
        p.chunk.code,
        vec![
            op(OpCode::OpC), 0, op(OpCode::OpC), 1, op(OpCode::OpSubtract), op(OpCode::OpC), 2,
            op(OpCode::OpSubtract), op(OpCode::OpPop), op(OpCode::OpR)
        ]
    );
}

#[test]
fn assignment_to_a_global_names_it_first() {
    let (ok, p) = compiled("x = 5;");
    assert!(ok);
    assert_eq!(
        p.chunk.code,
        vec![op(OpCode::OpC), 1, op(OpCode::OpSetGlobal), 0, op(OpCode::OpPop), op(OpCode::OpR)]
    );
    assert_eq!(constants(&p), vec!["Str(\"x\")", "Int(5)"]);
}

#[test]
fn first_error_of_malformed_sources() {
    for (src, msg) in [
        ("print 1", "Expect ';' after value."),
        ("1 = 2;", "Invalid assignment target."),
        ("print ;", "Expect expression."),
        ("print 1 +;", "Expect expression."),
    ] {
        let (ok, p) = compiled(src);
        assert!(!ok);
        assert_eq!(p.errors[0].message, msg);
        assert_eq!(*p.chunk.code.last().unwrap(), op(OpCode::OpR));
    }
}

fn name_token(text: &str) -> Token {
    Token { token_type: TokenType::Tid, start: text.to_string(), len: text.len(), line: 1 }
}

#[test]
fn entering_and_leaving_a_scope_drops_nothing() {
    let mut c = Compiler::new();
    c.locals.push(Local { name: name_token("a"), depth: 0 });
    c.local_count = 1;
    c.begin_scope();
    assert_eq!(c.scope_depth, 1);
    assert_eq!(c.end_scope(), 0);
    assert_eq!(c.scope_depth, 0);
    assert_eq!(c.local_count, 1);
    assert_eq!(c.locals.len(), 1);
}

#[test]
fn leaving_a_scope_drops_its_variables() {
    let mut c = Compiler::new();
    c.begin_scope();
    c.locals.push(Local { name: name_token("a"), depth: 1 });
    c.locals.push(Local { name: name_token("b"), depth: 1 });
    c.local_count = 2;
    assert_eq!(c.end_scope(), 2);
    assert_eq!(c.local_count, 0);
    assert_eq!(c.scope_depth, 0);
}

#[test]
fn patched_jump_reaches_the_end_of_the_code() {
    let mut parser = new_parser(Chunk::new_chunk(), "");
    parser.chunk.write_chunk(op(OpCode::OpJumpIfFalse), 1);
    parser.chunk.write_chunk(0xff, 1);
    parser.chunk.write_chunk(0xff, 1);
    for _ in 0..300 {
        parser.chunk.write_chunk(op(OpCode::OpPop), 1);
    }
    patch_jump(&mut parser, 1);
    assert_eq!(parser.chunk.code.len(), 303);
    assert_eq!(parser.chunk.code[0], op(OpCode::OpJumpIfFalse));
    assert_eq!((parser.chunk.code[1], parser.chunk.code[2]), (1, 44));
    let distance = ((parser.chunk.code[1] as usize) << 8) | parser.chunk.code[2] as usize;
    assert_eq!(1 + 2 + distance, parser.chunk.code.len());
}
