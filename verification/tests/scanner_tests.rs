use lib::scanner::{Scanner, Token, TokenType};

fn tokens(source: &str) -> Vec<Token> {
    let mut sc = Scanner::new_scanner(source);
    let mut out = Vec::new();
    loop {
        let t = sc.scan_tokens();
        let end = t.token_type == TokenType::Teof;
        out.push(t);
        if end {
            break;
        }
    }
    out
}

fn kinds(source: &str) -> Vec<TokenType> {
    tokens(source).iter().map(|t| t.token_type).collect()
}

#[test]
fn scans_a_declaration() {
    let ts = tokens("set x = 1 + 2.5;");
    let ks: Vec<TokenType> = ts.iter().map(|t| t.token_type).collect();
    assert_eq!(
        ks,
        vec![
            TokenType::Tset,
            TokenType::Tid,
            TokenType::Teq,
            TokenType::Tint,
            TokenType::Tplus,
            TokenType::Tfloat,
            TokenType::Tsemicolon,
            TokenType::Teof
        ]
    );
    assert_eq!(ts[1].start, "x");
    assert_eq!(ts[3].start, "1");
    assert_eq!(ts[5].start, "2.5");
    assert_eq!(ts[5].len, 3);
    assert_eq!(ts[7].start, "");
    assert_eq!(ts[7].len, 0);
}

#[test]
fn scans_two_character_operators() {
    assert_eq!(
        kinds("== != >= <= // / = ! > < % * ^ - ( ) { }"),
        vec![
            TokenType::TeqEq,
            TokenType::TnotEq,
            TokenType::Tgte,
            TokenType::Tlte,
            TokenType::TdivdivOp,
            TokenType::TdivOp,
            TokenType::Teq,
            TokenType::Tnot,
            TokenType::Tgt,
            TokenType::Tlt,
            TokenType::TmodOp,
            TokenType::TmulOp,
            TokenType::TpowOp,
            TokenType::Tminus,
            TokenType::Tlp,
            TokenType::Trp,
            TokenType::Tlb,
            TokenType::Trb,
            TokenType::Teof
        ]
    );
}

#[test]
fn scans_keywords_and_names() {
    assert_eq!(
        kinds("true false print set if else fix and or while loop stop foo_1 _x setx"),
        vec![
            TokenType::Ttrue,
            TokenType::Tfalse,
            TokenType::Tprint,
            TokenType::Tset,
            TokenType::Tif,
            TokenType::Telse,
            TokenType::Tfix,
            TokenType::Tand,
            TokenType::Tor,
            TokenType::Twhile,
            TokenType::Tloop,
            TokenType::Tstop,
            TokenType::Tid,
            TokenType::Tid,
            TokenType::Tid,
            TokenType::Teof
        ]
    );
}

#[test]
fn skips_comments_and_counts_lines() {
    let ts = tokens("# a comment\n\n  print 1; # another\r\n\tx");
    assert_eq!(ts[0].token_type, TokenType::Tprint);
    assert_eq!(ts[0].line, 3);
    assert_eq!(ts[3].token_type, TokenType::Tid);
    assert_eq!(ts[3].line, 4);
    assert_eq!(ts[4].token_type, TokenType::Teof);
}

#[test]
fn unterminated_string_is_an_error_token() {
    let ts = tokens("\"abc\ndef");
    assert_eq!(ts[0].token_type, TokenType::Terr);
    assert_eq!(ts[0].start, "Unterminated string.");
    assert_eq!(ts[0].len, 20);
    assert_eq!(ts[0].line, 2);
    assert_eq!(ts[1].token_type, TokenType::Teof);
}

#[test]
fn unexpected_character_is_an_error_token() {
    let ts = tokens("@ 1");
    assert_eq!(ts[0].token_type, TokenType::Terr);
    assert_eq!(ts[0].start, "Unexpected character.");
    assert_eq!(ts[0].len, 21);
    assert_eq!(ts[1].token_type, TokenType::Tint);
}

#[test]
fn string_token_keeps_its_quotes_and_counts_inner_lines() {
    let ts = tokens("\"a\nb\" x");
    assert_eq!(ts[0].token_type, TokenType::Tstr);
    assert_eq!(ts[0].start, "\"a\nb\"");
    assert_eq!(ts[0].line, 2);
    assert_eq!(ts[1].line, 2);
}

#[test]
fn length_counts_utf8_bytes() {
    let ts = tokens("\"é\"");
    assert_eq!(ts[0].token_type, TokenType::Tstr);
    assert_eq!(ts[0].len, 4);
}

#[test]
fn number_needs_a_digit_after_the_point() {
    let ts = tokens("12.");
    assert_eq!(ts[0].token_type, TokenType::Tint);
    assert_eq!(ts[0].start, "12");
    assert_eq!(ts[1].token_type, TokenType::Terr);
    assert_eq!(ts[1].start, "Unexpected character.");
}

#[test]
fn end_token_repeats() {
    let mut sc = Scanner::new_scanner("  ");
    assert_eq!(sc.scan_tokens().token_type, TokenType::Teof);
    assert_eq!(sc.scan_tokens().token_type, TokenType::Teof);
    assert_eq!(sc.current, 2);
    assert_eq!(sc.line, 1);
}

#[test]
fn non_ascii_letter_is_unexpected() {
    let ts = tokens("é");
    assert_eq!(ts[0].token_type, TokenType::Terr);
    assert_eq!(ts[1].token_type, TokenType::Teof);
}

#[test]
fn scanner_progress_on_concrete_text() {
    let source = "set a = 1; # c\nprint a;";
    let mut sc = Scanner::new_scanner(source);
    let mut last = 0;
    loop {
        let t = sc.scan_tokens();
        if t.token_type == TokenType::Teof {
            assert_eq!(sc.current, source.chars().count());
            break;
        }
        assert!(sc.current > last);
        last = sc.current;
    }
}
