use vstd::prelude::*;
use vstd::utf8::encode_utf8;
use crate::text::{chars_to_string, str_chars};

verus! {

/// Turns source text into tokens, one at a time.
///
/// `start` is where the token being scanned begins, `current` the position
/// of the next unread character, both counted in characters, and `line` the
/// line on which `current` stands.
#[derive(Debug)]
pub struct Scanner {
    pub chars: Vec<char>,
    pub start: usize,
    pub current: usize,
    pub line: usize,
}

/// A token: its kind, its text (for an error token: the message), the length
/// of that text in UTF-8 bytes, and the line on which the token ends.
#[derive(Debug, Clone)]
pub struct Token {
    pub token_type: TokenType,
    pub start: String,
    pub len: usize,
    pub line: usize,
}

#[derive(Debug, PartialEq, Eq, Structural, Clone, Copy)]
pub enum TokenType {
    Tlp,
    Trp,
    Tplus,
    Tminus,
    Tsemicolon,
    Tint,
    Tfloat,
    Tstr,
    Tid,
    Teof,
    Terr,
    TdivOp,
    TmulOp,
    TmodOp,
    TpowOp,
    TdivdivOp,
    Ttrue,
    Tfalse,
    Tnot,
    TeqEq,
    Teq,
    TnotEq,
    Tgt,
    Tlt,
    Tgte,
    Tlte,
    Tprint,
    Tset,
    Tlb,
    Trb,
    Tif,
    Telse,
    Tfix,
    Tand,
    Tor,
    Twhile,
    Tloop,
    Tstop,
}

/// What a token is, for specifications.
pub struct TokenView {
    pub token_type: TokenType,
    pub text: Seq<char>,
    pub len: usize,
    pub line: usize,
}

impl View for Token {
    type V = TokenView;

    open spec fn view(&self) -> TokenView {
        TokenView {
            token_type: self.token_type,
            text: self.start@,
            len: self.len,
            line: self.line,
        }
    }
}

impl Token {
    /// A copy of the token.
    pub fn copy(&self) -> (t: Token)
        ensures
            t == *self,
    {
        Token {
            token_type: self.token_type,
            start: self.start.clone(),
            len: self.len,
            line: self.line,
        }
    }
}

// ---------------------------------------------------------------------------
// The lexical rules, as functions of the source text.
// ---------------------------------------------------------------------------

/// The character at position `i`, or `'\0'` past either end.
pub open spec fn char_at(s: Seq<char>, i: int) -> char {
    if 0 <= i < s.len() { s[i] } else { '\0' }
}

pub open spec fn is_digit(c: char) -> bool {
    '0' <= c && c <= '9'
}

pub open spec fn is_alpha(c: char) -> bool {
    ('a' <= c && c <= 'z') || ('A' <= c && c <= 'Z')
}

pub open spec fn is_ident_char(c: char) -> bool {
    is_alpha(c) || is_digit(c) || c == '_'
}

/// Blank characters that separate tokens.
pub open spec fn is_blank(c: char) -> bool {
    c == ' ' || c == '\r' || c == '\t' || c == '\n'
}

/// The end of the run of digits that starts at `i`.
pub open spec fn digits_end(s: Seq<char>, i: nat) -> nat
    decreases s.len() - i,
{
    if i < s.len() && is_digit(s[i as int]) { digits_end(s, i + 1) } else { i }
}

/// The end of the run of identifier characters that starts at `i`.
pub open spec fn ident_end(s: Seq<char>, i: nat) -> nat
    decreases s.len() - i,
{
    if i < s.len() && is_ident_char(s[i as int]) { ident_end(s, i + 1) } else { i }
}

/// The first position at or after `i` that holds `stop`, or the end of the text.
pub open spec fn find_char(s: Seq<char>, i: nat, stop: char) -> nat
    decreases s.len() - i,
{
    if i < s.len() && s[i as int] != stop { find_char(s, i + 1, stop) } else { i }
}

pub proof fn lemma_find_char_bounds(s: Seq<char>, i: nat, stop: char)
    ensures
        i <= s.len() ==> i <= find_char(s, i, stop) <= s.len(),
        i > s.len() ==> find_char(s, i, stop) == i,
        find_char(s, i, stop) < s.len() ==> s[find_char(s, i, stop) as int] == stop,
    decreases s.len() - i,
{
    if i < s.len() && s[i as int] != stop {
        lemma_find_char_bounds(s, i + 1, stop);
    }
}

pub proof fn lemma_digits_end_bounds(s: Seq<char>, i: nat)
    ensures
        i <= s.len() ==> i <= digits_end(s, i) <= s.len(),
        i > s.len() ==> digits_end(s, i) == i,
        !is_digit(char_at(s, digits_end(s, i) as int)),
    decreases s.len() - i,
{
    if i < s.len() && is_digit(s[i as int]) {
        lemma_digits_end_bounds(s, i + 1);
    }
}

pub proof fn lemma_ident_end_bounds(s: Seq<char>, i: nat)
    ensures
        i <= s.len() ==> i <= ident_end(s, i) <= s.len(),
        i > s.len() ==> ident_end(s, i) == i,
        !is_ident_char(char_at(s, ident_end(s, i) as int)),
    decreases s.len() - i,
{
    if i < s.len() && is_ident_char(s[i as int]) {
        lemma_ident_end_bounds(s, i + 1);
    }
}

/// The position of the first character at or after `i` that is neither blank
/// nor inside a comment; a comment runs from `#` to the end of its line.
pub open spec fn skip_trivia(s: Seq<char>, i: nat) -> nat
    decreases s.len() - i,
{
    if i >= s.len() {
        i
    } else if is_blank(s[i as int]) {
        skip_trivia(s, i + 1)
    } else if s[i as int] == '#' {
        proof {
            lemma_find_char_bounds(s, i + 1, '\n');
        }
        skip_trivia(s, find_char(s, i + 1, '\n'))
    } else {
        i
    }
}

pub proof fn lemma_skip_trivia_bounds(s: Seq<char>, i: nat)
    ensures
        i <= s.len() ==> i <= skip_trivia(s, i) <= s.len(),
    decreases s.len() - i,
{
    if i >= s.len() {
    } else if is_blank(s[i as int]) {
        lemma_skip_trivia_bounds(s, i + 1);
    } else if s[i as int] == '#' {
        lemma_find_char_bounds(s, i + 1, '\n');
        lemma_skip_trivia_bounds(s, find_char(s, i + 1, '\n'));
    }
}

/// The number of line breaks in `s`.
pub open spec fn newlines(s: Seq<char>) -> nat
    decreases s.len(),
{
    if s.len() == 0 {
        0
    } else {
        newlines(s.drop_last()) + if s.last() == '\n' { 1nat } else { 0nat }
    }
}

/// Whether the number that starts at `p` has a fractional part.
pub open spec fn has_fraction(s: Seq<char>, p: nat) -> bool {
    let d = digits_end(s, p + 1);
    char_at(s, d as int) == '.' && is_digit(char_at(s, d + 1int))
}

/// Whether the character at `p` is followed by `c`.
pub open spec fn next_is(s: Seq<char>, p: nat, c: char) -> bool {
    char_at(s, p + 1int) == c
}

/// The kind of a word made of identifier characters: a keyword or a name.
pub open spec fn keyword_kind(w: Seq<char>) -> TokenType {
    if w == seq!['t', 'r', 'u', 'e'] {
        TokenType::Ttrue
    } else if w == seq!['f', 'a', 'l', 's', 'e'] {
        TokenType::Tfalse
    } else if w == seq!['p', 'r', 'i', 'n', 't'] {
        TokenType::Tprint
    } else if w == seq!['s', 'e', 't'] {
        TokenType::Tset
    } else if w == seq!['i', 'f'] {
        TokenType::Tif
    } else if w == seq!['e', 'l', 's', 'e'] {
        TokenType::Telse
    } else if w == seq!['f', 'i', 'x'] {
        TokenType::Tfix
    } else if w == seq!['a', 'n', 'd'] {
        TokenType::Tand
    } else if w == seq!['o', 'r'] {
        TokenType::Tor
    } else if w == seq!['w', 'h', 'i', 'l', 'e'] {
        TokenType::Twhile
    } else if w == seq!['l', 'o', 'o', 'p'] {
        TokenType::Tloop
    } else if w == seq!['s', 't', 'o', 'p'] {
        TokenType::Tstop
    } else {
        TokenType::Tid
    }
}

/// The kind of the token that starts at `p`, the first position after blanks
/// and comments.
pub open spec fn token_kind(s: Seq<char>, p: nat) -> TokenType {
    if p >= s.len() {
        TokenType::Teof
    } else {
        let c = s[p as int];
        if c == '+' {
            TokenType::Tplus
        } else if c == ';' {
            TokenType::Tsemicolon
        } else if c == '"' {
            if find_char(s, p + 1, '"') >= s.len() { TokenType::Terr } else { TokenType::Tstr }
        } else if is_digit(c) {
            if has_fraction(s, p) { TokenType::Tfloat } else { TokenType::Tint }
        } else if is_alpha(c) || c == '_' {
            keyword_kind(s.subrange(p as int, ident_end(s, p + 1) as int))
        } else if c == '(' {
            TokenType::Tlp
        } else if c == ')' {
            TokenType::Trp
        } else if c == '-' {
            TokenType::Tminus
        } else if c == '%' {
            TokenType::TmodOp
        } else if c == '*' {
            TokenType::TmulOp
        } else if c == '^' {
            TokenType::TpowOp
        } else if c == '/' {
            if next_is(s, p, '/') { TokenType::TdivdivOp } else { TokenType::TdivOp }
        } else if c == '=' {
            if next_is(s, p, '=') { TokenType::TeqEq } else { TokenType::Teq }
        } else if c == '!' {
            if next_is(s, p, '=') { TokenType::TnotEq } else { TokenType::Tnot }
        } else if c == '>' {
            if next_is(s, p, '=') { TokenType::Tgte } else { TokenType::Tgt }
        } else if c == '<' {
            if next_is(s, p, '=') { TokenType::Tlte } else { TokenType::Tlt }
        } else if c == '}' {
            TokenType::Trb
        } else if c == '{' {
            TokenType::Tlb
        } else {
            TokenType::Terr
        }
    }
}

/// The position just after the token that starts at `p`.
pub open spec fn lexeme_end(s: Seq<char>, p: nat) -> nat {
    if p >= s.len() {
        p
    } else {
        let c = s[p as int];
        if c == '"' {
            let j = find_char(s, p + 1, '"');
            if j >= s.len() { j } else { j + 1 }
        } else if is_digit(c) {
            if has_fraction(s, p) {
                digits_end(s, digits_end(s, p + 1) + 1)
            } else {
                digits_end(s, p + 1)
            }
        } else if is_alpha(c) || c == '_' {
            ident_end(s, p + 1)
        } else if (c == '/' && next_is(s, p, '/')) || ((c == '=' || c == '!' || c == '>' || c
            == '<') && next_is(s, p, '=')) {
            p + 2
        } else {
            p + 1
        }
    }
}

/// The message of the error token that starts at `p`.
pub open spec fn error_message(s: Seq<char>, p: nat) -> Seq<char> {
    if s[p as int] == '"' {
        "Unterminated string."@
    } else {
        "Unexpected character."@
    }
}

/// The text of the token that starts at `p`: its characters, or for an error
/// token its message.
pub open spec fn token_text(s: Seq<char>, p: nat) -> Seq<char> {
    if token_kind(s, p) == TokenType::Terr {
        error_message(s, p)
    } else {
        s.subrange(p as int, lexeme_end(s, p) as int)
    }
}

/// The token that starts at `p`, with the line on which it ends.
pub open spec fn token_at(s: Seq<char>, p: nat) -> TokenView {
    let text = token_text(s, p);
    TokenView {
        token_type: token_kind(s, p),
        text,
        len: encode_utf8(text).len() as usize,
        line: (1 + newlines(s.take(lexeme_end(s, p) as int))) as usize,
    }
}

/// Scanning token by token from `from`, no error token is met before `to`.
/// A text without error tokens is one where this holds from its start to
/// its end.
pub open spec fn no_error_token(s: Seq<char>, from: nat, to: nat) -> bool
    decreases s.len() - from,
{
    if from >= to || from >= s.len() {
        true
    } else {
        let p = skip_trivia(s, from);
        proof {
            lemma_skip_trivia_bounds(s, from);
            lemma_lexeme_end_bounds(s, p);
        }
        if p >= s.len() {
            true
        } else if token_kind(s, p) == TokenType::Terr {
            false
        } else {
            no_error_token(s, lexeme_end(s, p), to)
        }
    }
}

/// Scanning token by token from `from` stops at `to` after some tokens.
pub open spec fn scan_reaches(s: Seq<char>, from: nat, to: nat) -> bool
    decreases s.len() - from,
{
    if from == to {
        from <= s.len()
    } else if from < to && from < s.len() {
        let p = skip_trivia(s, from);
        proof {
            lemma_skip_trivia_bounds(s, from);
            lemma_lexeme_end_bounds(s, p);
        }
        scan_reaches(s, lexeme_end(s, p), to)
    } else {
        false
    }
}

pub proof fn lemma_scan_reaches_bounds(s: Seq<char>, a: nat, c: nat)
    requires
        scan_reaches(s, a, c),
    ensures
        a <= c <= s.len(),
    decreases s.len() - a,
{
    if a != c {
        lemma_skip_trivia_bounds(s, a);
        lemma_lexeme_end_bounds(s, skip_trivia(s, a));
        lemma_scan_reaches_bounds(s, lexeme_end(s, skip_trivia(s, a)), c);
    }
}

/// Reading one more token that is no error token extends a scan without
/// error tokens.
pub proof fn lemma_scan_next(s: Seq<char>, a: nat, c: nat)
    requires
        scan_reaches(s, a, c),
        no_error_token(s, a, c),
        skip_trivia(s, c) < s.len() ==> token_kind(s, skip_trivia(s, c)) != TokenType::Terr,
    ensures
        scan_reaches(s, a, lexeme_end(s, skip_trivia(s, c))),
        no_error_token(s, a, lexeme_end(s, skip_trivia(s, c))),
    decreases s.len() - a,
{
    lemma_scan_reaches_bounds(s, a, c);
    lemma_skip_trivia_bounds(s, c);
    lemma_lexeme_end_bounds(s, skip_trivia(s, c));
    let e = lexeme_end(s, skip_trivia(s, c));
    if c == s.len() {
        assert(e == c);
    } else if a == c {
        lemma_skip_trivia_bounds(s, e);
        lemma_lexeme_end_bounds(s, skip_trivia(s, e));
        assert(scan_reaches(s, e, e));
        assert(no_error_token(s, e, e));
    } else {
        lemma_skip_trivia_bounds(s, a);
        let pa = skip_trivia(s, a);
        lemma_lexeme_end_bounds(s, pa);
        let ea = lexeme_end(s, pa);
        if pa >= s.len() {
            lemma_scan_reaches_bounds(s, ea, c);
            assert(false);
        }
        lemma_scan_reaches_bounds(s, ea, c);
        lemma_scan_next(s, ea, c);
    }
}

/// Scanning from `pos`, the start of the first token that is no error token.
pub open spec fn good_token_start(s: Seq<char>, pos: nat) -> nat
    decreases s.len() - pos,
{
    if pos > s.len() {
        pos
    } else {
        let p = skip_trivia(s, pos);
        proof {
            lemma_skip_trivia_bounds(s, pos);
            lemma_lexeme_end_bounds(s, p);
        }
        if token_kind(s, p) == TokenType::Terr {
            good_token_start(s, lexeme_end(s, p))
        } else {
            p
        }
    }
}

pub proof fn lemma_lexeme_end_bounds(s: Seq<char>, p: nat)
    requires
        p <= s.len(),
    ensures
        p <= lexeme_end(s, p) <= s.len(),
        p < s.len() ==> p < lexeme_end(s, p),
{
    if p < s.len() {
        lemma_find_char_bounds(s, p + 1, '"');
        lemma_digits_end_bounds(s, p + 1);
        lemma_ident_end_bounds(s, p + 1);
        if has_fraction(s, p) {
            lemma_digits_end_bounds(s, digits_end(s, p + 1) + 1);
        }
    }
}

pub proof fn lemma_newlines_push(s: Seq<char>, i: int)
    requires
        0 <= i < s.len(),
    ensures
        newlines(s.take(i + 1)) == newlines(s.take(i)) + if s[i] == '\n' { 1nat } else { 0nat },
{
    assert(s.take(i + 1).drop_last() == s.take(i));
}

pub proof fn lemma_newlines_bound(s: Seq<char>)
    ensures
        newlines(s) <= s.len(),
    decreases s.len(),
{
    if s.len() > 0 {
        lemma_newlines_bound(s.drop_last());
    }
}

// ---------------------------------------------------------------------------
// The scanner.
// ---------------------------------------------------------------------------

impl Scanner {
    /// The source text, as characters.
    pub open spec fn src(&self) -> Seq<char> {
        self.chars@
    }

    /// The positions lie within the text and `line` counts the line breaks
    /// read so far.
    pub open spec fn wf(&self) -> bool {
        &&& self.start <= self.current <= self.src().len()
        &&& self.line == 1 + newlines(self.src().take(self.current as int))
        &&& self.src().len() < usize::MAX
    }

    /// A scanner at the beginning of `source`, on line 1.
    pub fn new_scanner(source: &str) -> (sc: Scanner)
        requires
            source@.len() < usize::MAX,
        ensures
            sc.src() == source@,
            sc.start == 0,
            sc.current == 0,
            sc.line == 1,
            sc.wf(),
    {
        let chars = str_chars(source);
        let sc = Scanner { chars, start: 0, current: 0, line: 1 };
        assert(sc.src().take(0) == Seq::<char>::empty());
        sc
    }

    /// Scans the next token: skips blanks and comments, then reads the
    /// longest token that the rules allow, or reports an error token.
    /// At the end of the text it gives `Teof` each time it is called.
    pub fn scan_tokens(&mut self) -> (tok: Token)
        requires
            old(self).wf(),
        ensures
            final(self).wf(),
            final(self).src() == old(self).src(),
            final(self).start == skip_trivia(old(self).src(), old(self).current as nat),
            final(self).current == lexeme_end(final(self).src(), final(self).start as nat),
            tok.token_type == token_kind(final(self).src(), final(self).start as nat),
            tok.start@ == token_text(final(self).src(), final(self).start as nat),
            tok.len == encode_utf8(tok.start@).len() as usize,
            tok.line == final(self).line,
            tok@ == token_at(final(self).src(), final(self).start as nat),
    {
        self.unconsumable();
        self.start = self.current;
        let ghost s = self.src();
        let ghost p = self.start as nat;
        proof {
            lemma_find_char_bounds(s, p + 1, '"');
            lemma_digits_end_bounds(s, p + 1);
            lemma_ident_end_bounds(s, p + 1);
        }

        if self.is_at_end() {
            return self.generate_token(TokenType::Teof);
        }

        let c = self.advance();
        if c == '+' {
            self.generate_token(TokenType::Tplus)
        } else if c == ';' {
            self.generate_token(TokenType::Tsemicolon)
        } else if c == '"' {
            self.string_tokens()
        } else if is_ascii_digit(c) {
            self.num_tokens()
        } else if is_ascii_alpha(c) || c == '_' {
            self.identifier()
        } else if c == '(' {
            self.generate_token(TokenType::Tlp)
        } else if c == ')' {
            self.generate_token(TokenType::Trp)
        } else if c == '-' {
            self.generate_token(TokenType::Tminus)
        } else if c == '%' {
            self.generate_token(TokenType::TmodOp)
        } else if c == '*' {
            self.generate_token(TokenType::TmulOp)
        } else if c == '^' {
            self.generate_token(TokenType::TpowOp)
        } else if c == '/' {
            if self.match_tokens('/') {
                self.generate_token(TokenType::TdivdivOp)
            } else {
                self.generate_token(TokenType::TdivOp)
            }
        } else if c == '=' {
            if self.match_tokens('=') {
                self.generate_token(TokenType::TeqEq)
            } else {
                self.generate_token(TokenType::Teq)
            }
        } else if c == '!' {
            if self.match_tokens('=') {
                self.generate_token(TokenType::TnotEq)
            } else {
                self.generate_token(TokenType::Tnot)
            }
        } else if c == '>' {
            if self.match_tokens('=') {
                self.generate_token(TokenType::Tgte)
            } else {
                self.generate_token(TokenType::Tgt)
            }
        } else if c == '<' {
            if self.match_tokens('=') {
                self.generate_token(TokenType::Tlte)
            } else {
                self.generate_token(TokenType::Tlt)
            }
        } else if c == '}' {
            self.generate_token(TokenType::Trb)
        } else if c == '{' {
            self.generate_token(TokenType::Tlb)
        } else {
            self.err_token(false)
        }
    }

    fn is_at_end(&self) -> (b: bool)
        requires
            self.wf(),
        ensures
            b == (self.current == self.src().len()),
    {
        self.current == self.chars.len()
    }

    /// A token of the given kind whose text is `src[start..current]`.
    fn generate_token(&self, t_type: TokenType) -> (tok: Token)
        requires
            self.wf(),
        ensures
            tok.token_type == t_type,
            tok.start@ == self.src().subrange(self.start as int, self.current as int),
            tok.len == encode_utf8(tok.start@).len() as usize,
            tok.line == self.line,
    {
        let text = chars_to_string(&self.chars, self.start, self.current);
        let len = text.as_str().len();
        Token { token_type: t_type, start: text, len, line: self.line }
    }

    /// An error token; its text is the message for an unterminated string
    /// when `unterminated`, else the message for an unexpected character.
    fn err_token(&self, unterminated: bool) -> (tok: Token)
        ensures
            tok.token_type == TokenType::Terr,
            tok.start@ == (if unterminated {
                "Unterminated string."@
            } else {
                "Unexpected character."@
            }),
            tok.len == encode_utf8(tok.start@).len() as usize,
            tok.line == self.line,
    {
        let message = if unterminated {
            "Unterminated string."
        } else {
            "Unexpected character."
        };
        let text = message.to_owned();
        let len = text.as_str().len();
        Token { token_type: TokenType::Terr, start: text, len, line: self.line }
    }

    /// Reads one character; the line count follows it.
    fn advance(&mut self) -> (c: char)
        requires
            old(self).wf(),
            old(self).current < old(self).src().len(),
        ensures
            final(self).wf(),
            final(self).src() == old(self).src(),
            final(self).start == old(self).start,
            final(self).current == old(self).current + 1,
            c == old(self).src()[old(self).current as int],
            final(self).line == old(self).line + if c == '\n' { 1int } else { 0int },
    {
        let n = self.chars.len();
        let c = self.chars[self.current];
        proof {
            lemma_newlines_push(self.src(), self.current as int);
            lemma_newlines_bound(self.src().take(self.current + 1));
        }
        self.current = self.current + 1;
        if c == '\n' {
            self.line = self.line + 1;
        }
        c
    }

    /// The next unread character, or `'\0'` at the end.
    fn peek(&self) -> (c: char)
        requires
            self.wf(),
        ensures
            c == char_at(self.src(), self.current as int),
    {
        if self.current < self.chars.len() {
            self.chars[self.current]
        } else {
            '\0'
        }
    }

    /// The character after the next unread one, or `'\0'`.
    fn peek_next(&self) -> (c: char)
        requires
            self.wf(),
        ensures
            c == char_at(self.src(), self.current + 1),
    {
        let n = self.chars.len();
        if self.current >= n {
            return '\0';
        }
        if self.current + 1 < n {
            self.chars[self.current + 1]
        } else {
            '\0'
        }
    }

    /// Reads the next character when it is `expected`.
    fn match_tokens(&mut self, expected: char) -> (b: bool)
        requires
            old(self).wf(),
            expected != '\n',
        ensures
            final(self).wf(),
            final(self).src() == old(self).src(),
            final(self).start == old(self).start,
            final(self).line == old(self).line,
            b == (old(self).current < old(self).src().len() && char_at(
                old(self).src(),
                old(self).current as int,
            ) == expected),
            final(self).current == old(self).current + if b { 1int } else { 0int },
    {
        if self.is_at_end() {
            return false;
        }
        if self.chars[self.current] != expected {
            return false;
        }
        self.advance();
        true
    }

    /// Skips blanks and comments, counting the line breaks.
    fn unconsumable(&mut self)
        requires
            old(self).wf(),
        ensures
            final(self).wf(),
            final(self).src() == old(self).src(),
            final(self).start == old(self).start,
            final(self).current == skip_trivia(old(self).src(), old(self).current as nat),
    {
        let ghost s = self.src();
        let ghost target = skip_trivia(s, self.current as nat);
        loop
            invariant
                self.wf(),
                self.src() == s,
                self.start == old(self).start,
                old(self).current <= self.current,
                skip_trivia(s, self.current as nat) == target,
            ensures
                self.wf(),
                self.src() == s,
                self.start == old(self).start,
                self.current == target,
            decreases s.len() - self.current,
        {
            let c = self.peek();
            if c == ' ' || c == '\r' || c == '\t' || c == '\n' {
                self.advance();
            } else if c == '#' {
                let ghost stop = find_char(s, (self.current + 1) as nat, '\n');
                proof {
                    lemma_find_char_bounds(s, (self.current + 1) as nat, '\n');
                }
                while self.peek() != '\n' && !self.is_at_end()
                    invariant
                        self.wf(),
                        self.src() == s,
                        self.start == old(self).start,
                        old(self).current <= self.current <= stop,
                        find_char(s, self.current as nat, '\n') == stop,
                        skip_trivia(s, stop) == target,
                    decreases s.len() - self.current,
                {
                    proof {
                        lemma_find_char_bounds(s, (self.current + 1) as nat, '\n');
                    }
                    self.advance();
                }
            } else {
                break;
            }
        }
    }

    /// Reads the rest of a string literal, whose opening quote has been read.
    fn string_tokens(&mut self) -> (tok: Token)
        requires
            old(self).wf(),
            old(self).current == old(self).start + 1,
            old(self).src()[old(self).start as int] == '"',
        ensures
            final(self).wf(),
            final(self).src() == old(self).src(),
            final(self).start == old(self).start,
            final(self).current == lexeme_end(final(self).src(), final(self).start as nat),
            tok.token_type == token_kind(final(self).src(), final(self).start as nat),
            tok.start@ == token_text(final(self).src(), final(self).start as nat),
            tok.len == encode_utf8(tok.start@).len() as usize,
            tok.line == final(self).line,
    {
        let ghost s = self.src();
        let ghost stop = find_char(s, self.current as nat, '"');
        proof {
            lemma_find_char_bounds(s, self.current as nat, '"');
        }
        while self.peek() != '"' && !self.is_at_end()
            invariant
                self.wf(),
                self.src() == s,
                self.start == old(self).start,
                old(self).current <= self.current <= stop,
                find_char(s, self.current as nat, '"') == stop,
            decreases s.len() - self.current,
        {
            proof {
                lemma_find_char_bounds(s, (self.current + 1) as nat, '"');
            }
            self.advance();
        }
        if self.is_at_end() {
            return self.err_token(true);
        }
        self.advance();
        self.generate_token(TokenType::Tstr)
    }

    /// Reads the rest of a number whose first digit has been read.
    fn num_tokens(&mut self) -> (tok: Token)
        requires
            old(self).wf(),
            old(self).current == old(self).start + 1,
            is_digit(old(self).src()[old(self).start as int]),
        ensures
            final(self).wf(),
            final(self).src() == old(self).src(),
            final(self).start == old(self).start,
            final(self).current == lexeme_end(final(self).src(), final(self).start as nat),
            tok.token_type == token_kind(final(self).src(), final(self).start as nat),
            tok.start@ == token_text(final(self).src(), final(self).start as nat),
            tok.len == encode_utf8(tok.start@).len() as usize,
            tok.line == final(self).line,
    {
        let ghost s = self.src();
        let ghost d = digits_end(s, self.current as nat);
        proof {
            lemma_digits_end_bounds(s, self.current as nat);
        }
        while is_ascii_digit(self.peek())
            invariant
                self.wf(),
                self.src() == s,
                self.start == old(self).start,
                old(self).current <= self.current <= d,
                digits_end(s, self.current as nat) == d,
            decreases s.len() - self.current,
        {
            proof {
                lemma_digits_end_bounds(s, (self.current + 1) as nat);
            }
            self.advance();
        }
        if self.peek() == '.' && is_ascii_digit(self.peek_next()) {
            self.advance();
            let ghost e = digits_end(s, self.current as nat);
            proof {
                lemma_digits_end_bounds(s, self.current as nat);
            }
            while is_ascii_digit(self.peek())
                invariant
                    self.wf(),
                    self.src() == s,
                    self.start == old(self).start,
                    d + 1 <= self.current <= e,
                    digits_end(s, self.current as nat) == e,
                decreases s.len() - self.current,
            {
                proof {
                    lemma_digits_end_bounds(s, (self.current + 1) as nat);
                }
                self.advance();
            }
            return self.generate_token(TokenType::Tfloat);
        }
        self.generate_token(TokenType::Tint)
    }

    /// Reads the rest of a name or keyword whose first character has been read.
    fn identifier(&mut self) -> (tok: Token)
        requires
            old(self).wf(),
            old(self).current == old(self).start + 1,
            is_alpha(old(self).src()[old(self).start as int]) || old(self).src()[old(
                self,
            ).start as int] == '_',
        ensures
            final(self).wf(),
            final(self).src() == old(self).src(),
            final(self).start == old(self).start,
            final(self).current == lexeme_end(final(self).src(), final(self).start as nat),
            tok.token_type == token_kind(final(self).src(), final(self).start as nat),
            tok.start@ == token_text(final(self).src(), final(self).start as nat),
            tok.len == encode_utf8(tok.start@).len() as usize,
            tok.line == final(self).line,
    {
        let ghost s = self.src();
        let ghost e = ident_end(s, self.current as nat);
        proof {
            lemma_ident_end_bounds(s, self.current as nat);
        }
        while is_ascii_alpha(self.peek()) || is_ascii_digit(self.peek()) || self.peek() == '_'
            invariant
                self.wf(),
                self.src() == s,
                self.start == old(self).start,
                old(self).current <= self.current <= e,
                ident_end(s, self.current as nat) == e,
            decreases s.len() - self.current,
        {
            proof {
                lemma_ident_end_bounds(s, (self.current + 1) as nat);
            }
            self.advance();
        }
        let kind = keyword_of(&self.chars, self.start, self.current);
        self.generate_token(kind)
    }
}

/// Whether `c` is an ASCII digit.
pub fn is_ascii_digit(c: char) -> (b: bool)
    ensures
        b == is_digit(c),
{
    '0' <= c && c <= '9'
}

/// Whether `c` is an ASCII letter.
pub fn is_ascii_alpha(c: char) -> (b: bool)
    ensures
        b == is_alpha(c),
{
    ('a' <= c && c <= 'z') || ('A' <= c && c <= 'Z')
}

/// Whether `chars[from..to]` spells `word`.
fn spells(chars: &Vec<char>, from: usize, to: usize, word: &[char]) -> (b: bool)
    requires
        from <= to <= chars.len(),
    ensures
        b == (chars@.subrange(from as int, to as int) == word@),
{
    if to - from != word.len() {
        return false;
    }
    let mut i: usize = 0;
    while i < word.len()
        invariant
            from <= to <= chars.len(),
            to - from == word.len(),
            0 <= i <= word.len(),
            forall|k: int| 0 <= k < i ==> chars@[from + k] == word@[k],
        decreases word.len() - i,
    {
        if chars[from + i] != word[i] {
            assert(chars@.subrange(from as int, to as int)[i as int] != word@[i as int]);
            return false;
        }
        i = i + 1;
    }
    assert(chars@.subrange(from as int, to as int) =~= word@);
    true
}

/// The kind of the word `chars[from..to]`: a keyword or a name.
fn keyword_of(chars: &Vec<char>, from: usize, to: usize) -> (t: TokenType)
    requires
        from <= to <= chars.len(),
    ensures
        t == keyword_kind(chars@.subrange(from as int, to as int)),
{
    let w = Ghost(chars@.subrange(from as int, to as int));
    if spells(chars, from, to, &['t', 'r', 'u', 'e']) {
        TokenType::Ttrue
    } else if spells(chars, from, to, &['f', 'a', 'l', 's', 'e']) {
        TokenType::Tfalse
    } else if spells(chars, from, to, &['p', 'r', 'i', 'n', 't']) {
        TokenType::Tprint
    } else if spells(chars, from, to, &['s', 'e', 't']) {
        TokenType::Tset
    } else if spells(chars, from, to, &['i', 'f']) {
        TokenType::Tif
    } else if spells(chars, from, to, &['e', 'l', 's', 'e']) {
        TokenType::Telse
    } else if spells(chars, from, to, &['f', 'i', 'x']) {
        TokenType::Tfix
    } else if spells(chars, from, to, &['a', 'n', 'd']) {
        TokenType::Tand
    } else if spells(chars, from, to, &['o', 'r']) {
        TokenType::Tor
    } else if spells(chars, from, to, &['w', 'h', 'i', 'l', 'e']) {
        TokenType::Twhile
    } else if spells(chars, from, to, &['l', 'o', 'o', 'p']) {
        TokenType::Tloop
    } else if spells(chars, from, to, &['s', 't', 'o', 'p']) {
        TokenType::Tstop
    } else {
        TokenType::Tid
    }
}

} // verus!
