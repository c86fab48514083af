use vstd::prelude::*;
use crate::text::{chars_of, is_alphanumeric, is_ascii_digit, is_ascii_letter, text_of, unicode_alphanumeric};
use vstd::string::StringExecFns;
use crate::token::{option_literal_view, Diagnostic, ErrorKind, Literal, LiteralView, Token, TokenType, TokenView};

verus! {

/// End of the run of ASCII digits that starts at `i`.
pub open spec fn digits_end(src: Seq<char>, i: nat) -> nat
    decreases src.len() - i,
{
    if i < src.len() && is_ascii_digit(src[i as int]) {
        digits_end(src, i + 1)
    } else {
        i
    }
}

/// End of the run of alphanumeric characters that starts at `i`.
pub open spec fn word_end(src: Seq<char>, i: nat) -> nat
    decreases src.len() - i,
{
    if i < src.len() && unicode_alphanumeric(src[i as int]) {
        word_end(src, i + 1)
    } else {
        i
    }
}

/// The first position at or after `i` that holds `c`, or the end of the source.
pub open spec fn find_char(src: Seq<char>, i: nat, c: char) -> nat
    decreases src.len() - i,
{
    if i < src.len() && src[i as int] != c {
        find_char(src, i + 1, c)
    } else {
        i
    }
}

/// Number of newlines in `src[i..j]`.
pub open spec fn newlines(src: Seq<char>, i: int, j: int) -> nat
    decreases j - i,
{
    if j <= i {
        0
    } else {
        newlines(src, i, j - 1) + if src[j - 1] == '\n' { 1nat } else { 0nat }
    }
}

/// The value of a string of decimal digits.
pub open spec fn digits_value(s: Seq<char>) -> int
    decreases s.len(),
{
    if s.len() == 0 {
        0
    } else {
        digits_value(s.drop_last()) * 10 + (s.last() as int - '0' as int)
    }
}

/// The token kind of a word: its keyword, or `IDENTIFIER`.
pub open spec fn keyword_kind(w: Seq<char>) -> TokenType {
    if w == "and"@ { TokenType::AND }
    else if w == "class"@ { TokenType::CLASS }
    else if w == "else"@ { TokenType::ELSE }
    else if w == "false"@ { TokenType::FALSE }
    else if w == "fun"@ { TokenType::FUN }
    else if w == "for"@ { TokenType::FOR }
    else if w == "if"@ { TokenType::IF }
    else if w == "nil"@ { TokenType::NIL }
    else if w == "or"@ { TokenType::OR }
    else if w == "print"@ { TokenType::PRINT }
    else if w == "return"@ { TokenType::RETURN }
    else if w == "super"@ { TokenType::SUPER }
    else if w == "this"@ { TokenType::THIS }
    else if w == "true"@ { TokenType::TRUE }
    else if w == "var"@ { TokenType::VAR }
    else if w == "while"@ { TokenType::WHILE }
    else { TokenType::IDENTIFIER }
}

/// What one scanning step does: where it stops, the line it ends on, and the
/// token or the error it yields, if any.
pub struct Lexed {
    pub next: nat,
    pub line: nat,
    pub token: Option<TokenView>,
    pub error: Option<ErrorKind>,
}

pub open spec fn lexed_token(
    src: Seq<char>,
    start: nat,
    end: nat,
    line: nat,
    kind: TokenType,
    literal: Option<LiteralView>,
) -> Lexed {
    Lexed {
        next: end,
        line,
        token: Some(TokenView { kind, lexeme: src.subrange(start as int, end as int), literal, line: line as u32 }),
        error: None,
    }
}

pub open spec fn lexed_skip(end: nat, line: nat) -> Lexed {
    Lexed { next: end, line, token: None, error: None }
}

pub open spec fn lexed_error(end: nat, line: nat, e: ErrorKind) -> Lexed {
    Lexed { next: end, line, token: None, error: Some(e) }
}

/// A one- or two-character operator: the second form when `=` follows.
pub open spec fn lex_pair(src: Seq<char>, start: nat, line: nat, single: TokenType, double: TokenType) -> Lexed {
    if start + 1 < src.len() && src[start + 1 as int] == '=' {
        lexed_token(src, start, start + 2, line, double, None)
    } else {
        lexed_token(src, start, start + 1, line, single, None)
    }
}

pub open spec fn lex_string(src: Seq<char>, start: nat, line: nat) -> Lexed {
    let e = find_char(src, start + 1, '"');
    let l = line + newlines(src, start + 1 as int, e as int);
    if e >= src.len() {
        lexed_error(src.len(), l, ErrorKind::UnterminatedString)
    } else {
        lexed_token(src, start, e + 1, l, TokenType::STRING,
            Some(LiteralView::String(src.subrange(start + 1 as int, e as int))))
    }
}

pub open spec fn lex_number(src: Seq<char>, start: nat, line: nat) -> Lexed {
    let e = digits_end(src, start + 1);
    if e + 1 < src.len() && src[e as int] == '.' && is_ascii_digit(src[e + 1 as int]) {
        let f = digits_end(src, e + 1);
        lexed_token(src, start, f, line, TokenType::NUMBER,
            Some(LiteralView::Float(src.subrange(start as int, f as int))))
    } else {
        let v = digits_value(src.subrange(start as int, e as int));
        if v <= i32::MAX {
            lexed_token(src, start, e, line, TokenType::NUMBER, Some(LiteralView::Int(v as i32)))
        } else {
            lexed_error(e, line, ErrorKind::NumberTooLarge)
        }
    }
}

pub open spec fn lex_word(src: Seq<char>, start: nat, line: nat) -> Lexed {
    let e = word_end(src, start + 1);
    lexed_token(src, start, e, line, keyword_kind(src.subrange(start as int, e as int)), None)
}

/// One scanning step from `start`, on `line`.
pub open spec fn lex_step(src: Seq<char>, start: nat, line: nat) -> Lexed {
    let c = src[start as int];
    let p = start + 1;
    if c == '(' { lexed_token(src, start, p, line, TokenType::LEFT_PAREN, None) }
    else if c == ')' { lexed_token(src, start, p, line, TokenType::RIGHT_PAREN, None) }
    else if c == '{' { lexed_token(src, start, p, line, TokenType::LEFT_BRACE, None) }
    else if c == '}' { lexed_token(src, start, p, line, TokenType::RIGHT_BRACE, None) }
    else if c == ',' { lexed_token(src, start, p, line, TokenType::COMMA, None) }
    else if c == '.' { lexed_token(src, start, p, line, TokenType::DOT, None) }
    else if c == '-' { lexed_token(src, start, p, line, TokenType::MINUS, None) }
    else if c == '+' { lexed_token(src, start, p, line, TokenType::PLUS, None) }
    else if c == ';' { lexed_token(src, start, p, line, TokenType::SEMICOLON, None) }
    else if c == '*' { lexed_token(src, start, p, line, TokenType::STAR, None) }
    else if c == '!' { lex_pair(src, start, line, TokenType::BANG, TokenType::BANG_EQUAL) }
    else if c == '=' { lex_pair(src, start, line, TokenType::EQUAL, TokenType::EQUAL_EQUAL) }
    else if c == '<' { lex_pair(src, start, line, TokenType::LESS, TokenType::LESS_EQUAL) }
    else if c == '>' { lex_pair(src, start, line, TokenType::GREATER, TokenType::GREATER_EQUAL) }
    else if c == '/' {
        if p < src.len() && src[p as int] == '/' {
            lexed_skip(find_char(src, p + 1, '\n'), line)
        } else {
            lexed_token(src, start, p, line, TokenType::SLASH, None)
        }
    }
    else if c == ' ' || c == '\t' || c == '\r' { lexed_skip(p, line) }
    else if c == '\n' { lexed_skip(p, line + 1) }
    else if c == '"' { lex_string(src, start, line) }
    else if is_ascii_digit(c) { lex_number(src, start, line) }
    else if is_ascii_letter(c) { lex_word(src, start, line) }
    else { lexed_error(p, line, ErrorKind::UnexpectedCharacter) }
}

pub open spec fn opt_seq<T>(o: Option<T>) -> Seq<T> {
    match o {
        Some(x) => seq![x],
        None => seq![],
    }
}

pub open spec fn opt_diag(e: Option<ErrorKind>, line: nat) -> Seq<Diagnostic> {
    match e {
        Some(k) => seq![Diagnostic { line: line as u32, kind: k }],
        None => seq![],
    }
}

/// The outcome of scanning a suffix of the source.
pub struct ScanOutcome {
    pub tokens: Seq<TokenView>,
    pub errors: Seq<Diagnostic>,
    pub line: nat,
}

/// Scanning from position `pos` on line `line` to the end of the source.
pub open spec fn scan_from(src: Seq<char>, pos: nat, line: nat) -> ScanOutcome
    decreases src.len() - pos,
{
    if pos >= src.len() {
        ScanOutcome { tokens: seq![], errors: seq![], line }
    } else {
        let s = lex_step(src, pos, line);
        if s.next <= pos || s.next > src.len() {
            ScanOutcome { tokens: seq![], errors: seq![], line }
        } else {
            let rest = scan_from(src, s.next, s.line);
            ScanOutcome {
                tokens: opt_seq(s.token) + rest.tokens,
                errors: opt_diag(s.error, s.line) + rest.errors,
                line: rest.line,
            }
        }
    }
}

pub open spec fn eof_token(line: nat) -> TokenView {
    TokenView { kind: TokenType::EOF, lexeme: seq![], literal: None, line: line as u32 }
}

/// The tokens of a whole source: what scanning from its start yields, then EOF.
pub open spec fn scan(src: Seq<char>) -> Seq<TokenView> {
    let o = scan_from(src, 0, 1);
    o.tokens.push(eof_token(o.line))
}

/// A token spans a nonempty slice of the source at or after `pos`, and its lexeme is that slice.
pub open spec fn spans_slice(src: Seq<char>, pos: nat, t: TokenView) -> bool {
    exists|a: int, b: int| pos <= a < b <= src.len() && t.lexeme == src.subrange(a, b)
}

proof fn lemma_scan_from_tokens(src: Seq<char>, pos: nat, line: nat)
    ensures
        forall|i: int| 0 <= i < scan_from(src, pos, line).tokens.len() ==> {
            &&& (#[trigger] scan_from(src, pos, line).tokens[i]).kind != TokenType::EOF
            &&& spans_slice(src, pos, scan_from(src, pos, line).tokens[i])
        },
    decreases src.len() - pos,
{
    if pos < src.len() {
        let s = lex_step(src, pos, line);
        if !(s.next <= pos || s.next > src.len()) {
            lemma_scan_from_tokens(src, s.next, s.line);
            let rest = scan_from(src, s.next, s.line);
            let all = scan_from(src, pos, line).tokens;
            assert(all == opt_seq(s.token) + rest.tokens);
            assert forall|i: int| 0 <= i < all.len() implies {
                &&& (#[trigger] all[i]).kind != TokenType::EOF
                &&& spans_slice(src, pos, all[i])
            } by {
                let k = opt_seq(s.token).len() as int;
                if i < k {
                    let t = s.token->0;
                    assert(all[i] == t);
                    assert(t.lexeme == src.subrange(pos as int, s.next as int));
                    assert(t.kind != TokenType::EOF);
                } else {
                    assert(all[i] == rest.tokens[i - k]);
                    let t = rest.tokens[i - k];
                    assert(spans_slice(src, s.next, t));
                    let (a, b) = choose|a: int, b: int| s.next <= a < b <= src.len() && t.lexeme == src.subrange(a, b);
                    assert(pos <= a < b <= src.len() && t.lexeme == src.subrange(a, b));
                }
            }
        }
    }
}

/// The tokens of a source end with one EOF token, and no other token is EOF.
pub proof fn lemma_single_eof(src: Seq<char>)
    ensures
        scan(src).len() >= 1,
        scan(src).last().kind == TokenType::EOF,
        forall|i: int| 0 <= i < scan(src).len() - 1 ==> (#[trigger] scan(src)[i]).kind != TokenType::EOF,
{
    lemma_scan_from_tokens(src, 0, 1);
    let o = scan_from(src, 0, 1);
    assert forall|i: int| 0 <= i < scan(src).len() - 1 implies (#[trigger] scan(src)[i]).kind != TokenType::EOF by {
        assert(scan(src)[i] == o.tokens[i]);
    }
}

/// Every token but the closing EOF is made of a nonempty slice of the source,
/// and its lexeme is exactly that slice.
pub proof fn lemma_lexemes_are_source_slices(src: Seq<char>)
    ensures
        forall|i: int| 0 <= i < scan(src).len() - 1 ==> spans_slice(src, 0, #[trigger] scan(src)[i]),
{
    lemma_scan_from_tokens(src, 0, 1);
    let o = scan_from(src, 0, 1);
    assert forall|i: int| 0 <= i < scan(src).len() - 1 implies spans_slice(src, 0, #[trigger] scan(src)[i]) by {
        assert(scan(src)[i] == o.tokens[i]);
    }
}

pub open spec fn token_views(ts: Seq<Token>) -> Seq<TokenView> {
    ts.map_values(|t: Token| t@)
}

proof fn lemma_views_push(ts: Seq<Token>, t: Token)
    ensures
        token_views(ts.push(t)) == token_views(ts).push(t@),
{
    assert(token_views(ts.push(t)) =~= token_views(ts).push(t@));
}

/// Turns source text into tokens, reporting lexical errors as it goes.
pub struct Scanner {
    source: Vec<char>,
    tokens: Vec<Token>,
    errors: Vec<Diagnostic>,
    start: usize,
    current: usize,
    line: u32,
}

impl Scanner {
    pub closed spec fn source_chars(&self) -> Seq<char> {
        self.source@
    }

    pub closed spec fn position(&self) -> nat {
        self.current as nat
    }

    pub closed spec fn current_line(&self) -> nat {
        self.line as nat
    }

    pub closed spec fn tokens_so_far(&self) -> Seq<TokenView> {
        token_views(self.tokens@)
    }

    pub closed spec fn errors_so_far(&self) -> Seq<Diagnostic> {
        self.errors@
    }

    /// The cursor lies in the source, the line counter can still grow by the
    /// rest of the source, and the source is short enough to number its lines.
    pub closed spec fn wf(&self) -> bool {
        &&& self.current <= self.source@.len()
        &&& self.source@.len() < u32::MAX
        &&& 1 <= self.line <= self.current + 1
    }

    pub fn new(source: &str) -> (s: Scanner)
        requires
            source@.len() < u32::MAX,
        ensures
            s.wf(),
            s.source_chars() == source@,
            s.position() == 0,
            s.current_line() == 1,
            s.tokens_so_far() == Seq::<TokenView>::empty(),
            s.errors_so_far() == Seq::<Diagnostic>::empty(),
    {
        let s = Scanner {
            source: chars_of(source),
            tokens: Vec::new(),
            errors: Vec::new(),
            start: 0,
            current: 0,
            line: 1,
        };
        assert(token_views(s.tokens@) =~= Seq::<TokenView>::empty());
        s
    }

    /// The lexical errors reported so far, in order.
    pub fn errors(&self) -> (r: &Vec<Diagnostic>)
        ensures
            r@ == self.errors_so_far(),
    {
        &self.errors
    }

    fn is_at_end(&self) -> (r: bool)
        ensures
            r == (self.current >= self.source@.len()),
    {
        self.current >= self.source.len()
    }

    fn advance(&mut self) -> (c: char)
        requires
            old(self).current < old(self).source@.len(),
        ensures
            c == old(self).source@[old(self).current as int],
            final(self).current == old(self).current + 1,
            final(self).source == old(self).source,
            final(self).tokens == old(self).tokens,
            final(self).errors == old(self).errors,
            final(self).start == old(self).start,
            final(self).line == old(self).line,
    {
        let c = self.source[self.current];
        let n = self.source.len();
        assert(self.current < n);
        self.current = self.current + 1;
        c
    }

    fn peek(&self) -> (c: char)
        ensures
            self.current < self.source@.len() ==> c == self.source@[self.current as int],
            self.current >= self.source@.len() ==> c == '\0',
    {
        if self.current < self.source.len() {
            self.source[self.current]
        } else {
            '\0'
        }
    }

    fn peek_next(&self) -> (c: char)
        ensures
            self.current + 1 < self.source@.len() ==> c == self.source@[self.current + 1],
            self.current + 1 >= self.source@.len() ==> c == '\0',
    {
        if self.current < self.source.len() && self.current + 1 < self.source.len() {
            self.source[self.current + 1]
        } else {
            '\0'
        }
    }

    fn is_next_char(&mut self, expected: char) -> (r: bool)
        ensures
            r == (old(self).current < old(self).source@.len()
                && old(self).source@[old(self).current as int] == expected),
            final(self).current == if r { old(self).current + 1 } else { old(self).current as int },
            final(self).source == old(self).source,
            final(self).tokens == old(self).tokens,
            final(self).errors == old(self).errors,
            final(self).start == old(self).start,
            final(self).line == old(self).line,
    {
        if self.is_at_end() {
            return false;
        }
        if self.source[self.current] != expected {
            return false;
        }
        let n = self.source.len();
        assert(self.current < n);
        self.current = self.current + 1;
        true
    }

    fn add_token(&mut self, token_type: TokenType, literal: Option<Literal>)
        requires
            old(self).start <= old(self).current <= old(self).source@.len(),
        ensures
            token_views(final(self).tokens@) == token_views(old(self).tokens@).push(TokenView {
                kind: token_type,
                lexeme: old(self).source@.subrange(old(self).start as int, old(self).current as int),
                literal: option_literal_view(literal),
                line: old(self).line,
            }),
            final(self).current == old(self).current,
            final(self).source == old(self).source,
            final(self).errors == old(self).errors,
            final(self).start == old(self).start,
            final(self).line == old(self).line,
    {
        let lexeme = text_of(&self.source, self.start, self.current);
        let t = Token { token_type, lexeme, literal, line: self.line };
        proof {
            lemma_views_push(self.tokens@, t);
        }
        self.tokens.push(t);
    }

    fn report(&mut self, kind: ErrorKind)
        ensures
            final(self).errors@ == old(self).errors@.push(Diagnostic { line: old(self).line, kind }),
            final(self).current == old(self).current,
            final(self).source == old(self).source,
            final(self).tokens == old(self).tokens,
            final(self).start == old(self).start,
            final(self).line == old(self).line,
    {
        self.errors.push(Diagnostic { line: self.line, kind });
    }

    /// Scans the rest of the source, then appends the closing EOF token.
    pub fn scan_tokens(&mut self) -> (r: &Vec<Token>)
        requires
            old(self).wf(),
        ensures
            ({
                let o = scan_from(old(self).source_chars(), old(self).position(), old(self).current_line());
                &&& token_views(r@) == old(self).tokens_so_far() + o.tokens.push(eof_token(o.line))
                &&& final(self).errors_so_far() == old(self).errors_so_far() + o.errors
            }),
            final(self).source_chars() == old(self).source_chars(),
    {
        let ghost src = self.source@;
        let ghost o = scan_from(src, self.current as nat, self.line as nat);
        let ghost toks0 = token_views(self.tokens@);
        let ghost errs0 = self.errors@;
        while !self.is_at_end()
            invariant
                self.wf(),
                self.source@ == src,
                self.source == old(self).source,
                ({
                    let rest = scan_from(src, self.current as nat, self.line as nat);
                    &&& token_views(self.tokens@) + rest.tokens == toks0 + o.tokens
                    &&& self.errors@ + rest.errors == errs0 + o.errors
                    &&& rest.line == o.line
                }),
            decreases src.len() - self.current,
        {
            self.start = self.current;
            let ghost before = *self;
            self.scan_token();
            proof {
                let s = lex_step(src, before.current as nat, before.line as nat);
                let rest = scan_from(src, self.current as nat, self.line as nat);
                assert(scan_from(src, before.current as nat, before.line as nat).tokens == opt_seq(s.token) + rest.tokens);
                assert(token_views(self.tokens@) + rest.tokens =~= token_views(before.tokens@) + (opt_seq(s.token) + rest.tokens));
                assert(self.errors@ + rest.errors =~= before.errors@ + (opt_diag(s.error, s.line) + rest.errors));
            }
        }
        proof {
            assert(o.tokens.push(eof_token(o.line)) =~= o.tokens + seq![eof_token(o.line)]);
            assert(self.errors@ =~= self.errors@ + Seq::<Diagnostic>::empty());
            assert(token_views(self.tokens@) =~= token_views(self.tokens@) + Seq::<TokenView>::empty());
        }
        let eof = Token { token_type: TokenType::EOF, lexeme: String::new(), literal: None, line: self.line };
        proof {
            lemma_views_push(self.tokens@, eof);
            assert(eof@ == eof_token(o.line));
        }
        self.tokens.push(eof);
        proof {
            assert(toks0 + o.tokens.push(eof_token(o.line)) =~= (toks0 + o.tokens).push(eof_token(o.line)));
        }
        &self.tokens
    }

    /// Scans one lexeme starting at the cursor.
    fn scan_token(&mut self)
        requires
            old(self).wf(),
            old(self).start == old(self).current,
            old(self).current < old(self).source@.len(),
        ensures
            ({
                let s = lex_step(old(self).source@, old(self).current as nat, old(self).line as nat);
                &&& final(self).current == s.next
                &&& final(self).line == s.line
                &&& token_views(final(self).tokens@) == token_views(old(self).tokens@) + opt_seq(s.token)
                &&& final(self).errors@ == old(self).errors@ + opt_diag(s.error, s.line)
            }),
            final(self).wf(),
            final(self).current > old(self).current,
            final(self).source == old(self).source,
    {
        let ghost src = self.source@;
        let ghost toks0 = token_views(self.tokens@);
        let ghost errs0 = self.errors@;
        let c = self.advance();
        if c == '(' {
            self.add_token(TokenType::LEFT_PAREN, None);
        } else if c == ')' {
            self.add_token(TokenType::RIGHT_PAREN, None);
        } else if c == '{' {
            self.add_token(TokenType::LEFT_BRACE, None);
        } else if c == '}' {
            self.add_token(TokenType::RIGHT_BRACE, None);
        } else if c == ',' {
            self.add_token(TokenType::COMMA, None);
        } else if c == '.' {
            self.add_token(TokenType::DOT, None);
        } else if c == '-' {
            self.add_token(TokenType::MINUS, None);
        } else if c == '+' {
            self.add_token(TokenType::PLUS, None);
        } else if c == ';' {
            self.add_token(TokenType::SEMICOLON, None);
        } else if c == '*' {
            self.add_token(TokenType::STAR, None);
        } else if c == '!' {
            let token_type = if self.is_next_char('=') { TokenType::BANG_EQUAL } else { TokenType::BANG };
            self.add_token(token_type, None);
        } else if c == '=' {
            let token_type = if self.is_next_char('=') { TokenType::EQUAL_EQUAL } else { TokenType::EQUAL };
            self.add_token(token_type, None);
        } else if c == '<' {
            let token_type = if self.is_next_char('=') { TokenType::LESS_EQUAL } else { TokenType::LESS };
            self.add_token(token_type, None);
        } else if c == '>' {
            let token_type = if self.is_next_char('=') { TokenType::GREATER_EQUAL } else { TokenType::GREATER };
            self.add_token(token_type, None);
        } else if c == '/' {
            if self.is_next_char('/') {
                self.skip_comment();
            } else {
                self.add_token(TokenType::SLASH, None);
            }
        } else if c == ' ' || c == '\t' || c == '\r' {
        } else if c == '\n' {
            self.line = self.line + 1;
        } else if c == '"' {
            self.handle_string();
        } else if '0' <= c && c <= '9' {
            self.handle_number();
        } else if ('a' <= c && c <= 'z') || ('A' <= c && c <= 'Z') {
            self.handle_identifier();
        } else {
            self.report(ErrorKind::UnexpectedCharacter);
        }
        proof {
            assert(token_views(self.tokens@) =~= toks0 + opt_seq(lex_step(src, self.start as nat, old(self).line as nat).token));
            assert(self.errors@ =~= errs0 + opt_diag(
                lex_step(src, self.start as nat, old(self).line as nat).error,
                lex_step(src, self.start as nat, old(self).line as nat).line,
            ));
        }
    }

    /// Skips a line comment up to, not including, the end of its line.
    fn skip_comment(&mut self)
        requires
            old(self).current <= old(self).source@.len(),
        ensures
            final(self).current == find_char(old(self).source@, old(self).current as nat, '\n'),
            final(self).current <= final(self).source@.len(),
            final(self).current >= old(self).current,
            final(self).source == old(self).source,
            final(self).tokens == old(self).tokens,
            final(self).errors == old(self).errors,
            final(self).start == old(self).start,
            final(self).line == old(self).line,
    {
        let ghost src = self.source@;
        let ghost from = self.current as nat;
        while !self.is_at_end() && self.peek() != '\n'
            invariant
                from <= self.current <= src.len(),
                self.source@ == src,
                self.source == old(self).source,
                self.tokens == old(self).tokens,
                self.errors == old(self).errors,
                self.start == old(self).start,
                self.line == old(self).line,
                find_char(src, self.current as nat, '\n') == find_char(src, from, '\n'),
            decreases src.len() - self.current,
        {
            self.advance();
        }
    }

    fn handle_string(&mut self)
        requires
            old(self).wf(),
            old(self).current == old(self).start + 1,
            old(self).current <= old(self).source@.len(),
            old(self).line <= old(self).current,
        ensures
            ({
                let s = lex_string(old(self).source@, old(self).start as nat, old(self).line as nat);
                &&& final(self).current == s.next
                &&& final(self).line == s.line
                &&& token_views(final(self).tokens@) == token_views(old(self).tokens@) + opt_seq(s.token)
                &&& final(self).errors@ == old(self).errors@ + opt_diag(s.error, s.line)
            }),
            final(self).wf(),
            final(self).current >= old(self).current,
            final(self).source == old(self).source,
            final(self).start == old(self).start,
    {
        let ghost src = self.source@;
        let ghost from = self.current as nat;
        let ghost line0 = self.line as nat;
        let ghost toks0 = token_views(self.tokens@);
        let ghost errs0 = self.errors@;
        while !self.is_at_end() && self.peek() != '"'
            invariant
                from <= self.current <= src.len(),
                src.len() < u32::MAX,
                self.source@ == src,
                self.source == old(self).source,
                self.start + 1 == from,
                self.tokens == old(self).tokens,
                self.errors == old(self).errors,
                self.line as nat == line0 + newlines(src, from as int, self.current as int),
                1 <= self.line <= self.current,
                find_char(src, self.current as nat, '"') == find_char(src, from, '"'),
            decreases src.len() - self.current,
        {
            if self.peek() == '\n' {
                self.line = self.line + 1;
            }
            self.advance();
        }
        if self.is_at_end() {
            self.report(ErrorKind::UnterminatedString);
            proof {
                assert(self.errors@ =~= errs0 + opt_diag(Some(ErrorKind::UnterminatedString), self.line as nat));
                assert(token_views(self.tokens@) =~= toks0 + Seq::<TokenView>::empty());
            }
            return;
        }
        self.advance();
        let text = text_of(&self.source, self.start + 1, self.current - 1);
        self.add_token(TokenType::STRING, Some(Literal::String(text)));
        proof {
            assert(token_views(self.tokens@) =~= toks0 + opt_seq(lex_string(src, self.start as nat, line0).token));
            assert(self.errors@ =~= errs0 + Seq::<Diagnostic>::empty());
        }
    }

    fn handle_number(&mut self)
        requires
            old(self).wf(),
            old(self).current == old(self).start + 1,
            old(self).current <= old(self).source@.len(),
            is_ascii_digit(old(self).source@[old(self).start as int]),
        ensures
            ({
                let s = lex_number(old(self).source@, old(self).start as nat, old(self).line as nat);
                &&& final(self).current == s.next
                &&& final(self).line == s.line
                &&& token_views(final(self).tokens@) == token_views(old(self).tokens@) + opt_seq(s.token)
                &&& final(self).errors@ == old(self).errors@ + opt_diag(s.error, s.line)
            }),
            final(self).wf(),
            final(self).current >= old(self).current,
            final(self).source == old(self).source,
            final(self).start == old(self).start,
    {
        let ghost src = self.source@;
        let ghost from = self.current as nat;
        let ghost toks0 = token_views(self.tokens@);
        let ghost errs0 = self.errors@;
        while !self.is_at_end() && '0' <= self.peek() && self.peek() <= '9'
            invariant
                from <= self.current <= src.len(),
                self.source@ == src,
                self.source == old(self).source,
                self.start + 1 == from,
                self.tokens == old(self).tokens,
                self.errors == old(self).errors,
                self.line == old(self).line,
                digits_end(src, self.current as nat) == digits_end(src, from),
                forall|k: int| self.start <= k < self.current ==> is_ascii_digit(#[trigger] src[k]),
            decreases src.len() - self.current,
        {
            self.advance();
        }
        let next = self.peek_next();
        let ghost e = self.current as nat;
        if !self.is_at_end() && self.peek() == '.' && '0' <= next && next <= '9' {
            self.advance();
            let ghost mid = self.current as nat;
            while !self.is_at_end() && '0' <= self.peek() && self.peek() <= '9'
                invariant
                    mid <= self.current <= src.len(),
                    self.source@ == src,
                    self.source == old(self).source,
                self.source == old(self).source,
                    self.start + 1 < mid,
                    self.start == old(self).start,
                    self.tokens == old(self).tokens,
                    self.errors == old(self).errors,
                    self.line == old(self).line,
                    digits_end(src, self.current as nat) == digits_end(src, mid),
                decreases src.len() - self.current,
            {
                self.advance();
            }
            let text = text_of(&self.source, self.start, self.current);
            self.add_token(TokenType::NUMBER, Some(Literal::Float(text)));
            proof {
                assert(token_views(self.tokens@) =~= toks0 + opt_seq(lex_number(src, self.start as nat, self.line as nat).token));
                assert(self.errors@ =~= errs0 + Seq::<Diagnostic>::empty());
            }
        } else {
            match parse_int(&self.source, self.start, self.current) {
                Some(v) => {
                    self.add_token(TokenType::NUMBER, Some(Literal::Int(v)));
                    proof {
                        assert(token_views(self.tokens@) =~= toks0 + opt_seq(lex_number(src, self.start as nat, self.line as nat).token));
                        assert(self.errors@ =~= errs0 + Seq::<Diagnostic>::empty());
                    }
                },
                None => {
                    self.report(ErrorKind::NumberTooLarge);
                    proof {
                        assert(token_views(self.tokens@) =~= toks0 + Seq::<TokenView>::empty());
                        assert(self.errors@ =~= errs0 + opt_diag(Some(ErrorKind::NumberTooLarge), self.line as nat));
                    }
                },
            }
        }
    }

    fn handle_identifier(&mut self)
        requires
            old(self).wf(),
            old(self).current == old(self).start + 1,
            old(self).current <= old(self).source@.len(),
        ensures
            ({
                let s = lex_word(old(self).source@, old(self).start as nat, old(self).line as nat);
                &&& final(self).current == s.next
                &&& token_views(final(self).tokens@) == token_views(old(self).tokens@) + opt_seq(s.token)
            }),
            final(self).current >= old(self).current,
            final(self).current <= final(self).source@.len(),
            final(self).line == old(self).line,
            final(self).errors == old(self).errors,
            final(self).source == old(self).source,
            final(self).start == old(self).start,
    {
        let ghost src = self.source@;
        let ghost from = self.current as nat;
        let ghost toks0 = token_views(self.tokens@);
        while !self.is_at_end() && is_alphanumeric(self.peek())
            invariant
                from <= self.current <= src.len(),
                self.source@ == src,
                self.source == old(self).source,
                self.start + 1 == from,
                self.tokens == old(self).tokens,
                self.errors == old(self).errors,
                self.line == old(self).line,
                word_end(src, self.current as nat) == word_end(src, from),
            decreases src.len() - self.current,
        {
            self.advance();
        }
        let text = text_of(&self.source, self.start, self.current);
        let token_type = lookup_keyword(&text);
        self.add_token(token_type, None);
        proof {
            assert(token_views(self.tokens@) =~= toks0 + opt_seq(lex_word(src, self.start as nat, self.line as nat).token));
        }
    }
}


/// The kind of a word: its keyword's kind, or `IDENTIFIER`.
fn lookup_keyword(text: &String) -> (r: TokenType)
    ensures
        r == keyword_kind(text@),
{
    if *text == String::from_str("and") {
        TokenType::AND
    } else if *text == String::from_str("class") {
        TokenType::CLASS
    } else if *text == String::from_str("else") {
        TokenType::ELSE
    } else if *text == String::from_str("false") {
        TokenType::FALSE
    } else if *text == String::from_str("fun") {
        TokenType::FUN
    } else if *text == String::from_str("for") {
        TokenType::FOR
    } else if *text == String::from_str("if") {
        TokenType::IF
    } else if *text == String::from_str("nil") {
        TokenType::NIL
    } else if *text == String::from_str("or") {
        TokenType::OR
    } else if *text == String::from_str("print") {
        TokenType::PRINT
    } else if *text == String::from_str("return") {
        TokenType::RETURN
    } else if *text == String::from_str("super") {
        TokenType::SUPER
    } else if *text == String::from_str("this") {
        TokenType::THIS
    } else if *text == String::from_str("true") {
        TokenType::TRUE
    } else if *text == String::from_str("var") {
        TokenType::VAR
    } else if *text == String::from_str("while") {
        TokenType::WHILE
    } else {
        TokenType::IDENTIFIER
    }
}

/// The value of the decimal digits `src[from..to]`, or `None` when it exceeds `i32::MAX`.
fn parse_int(src: &Vec<char>, from: usize, to: usize) -> (r: Option<i32>)
    requires
        from <= to <= src@.len(),
        forall|k: int| from <= k < to ==> is_ascii_digit(#[trigger] src@[k]),
    ensures
        ({
            let v = digits_value(src@.subrange(from as int, to as int));
            &&& v <= i32::MAX ==> r == Some(v as i32)
            &&& v > i32::MAX ==> r is None
        }),
{
    let bound: u64 = 0x8000_0000;
    let mut v: u64 = 0;
    let mut i = from;
    while i < to
        invariant
            from <= i <= to <= src@.len(),
            bound == 0x8000_0000,
            forall|k: int| from <= k < to ==> is_ascii_digit(#[trigger] src@[k]),
            ({
                let d = digits_value(src@.subrange(from as int, i as int));
                &&& d >= 0
                &&& (v < bound && v == d) || (v == bound && d >= bound)
            }),
        decreases to - i,
    {
        let ghost prev = digits_value(src@.subrange(from as int, i as int));
        let c = src[i];
        let digit: u64 = (c as u32 - '0' as u32) as u64;
        assert(src@.subrange(from as int, i + 1).drop_last() =~= src@.subrange(from as int, i as int));
        let ghost next = digits_value(src@.subrange(from as int, i + 1));
        assert(next == prev * 10 + digit);
        if v < bound {
            assert(v * 10 + digit < 0x1_0000_0000_0000) by (nonlinear_arith)
                requires v < bound, bound == 0x8000_0000, digit < 10;
            let w = v * 10 + digit;
            v = if w < bound { w } else { bound };
        } else {
            assert(prev * 10 + digit >= bound) by (nonlinear_arith)
                requires prev >= bound, bound > 0, digit >= 0;
        }
        assert(next >= 0) by (nonlinear_arith)
            requires next == prev * 10 + digit, prev >= 0, digit >= 0;
        i = i + 1;
    }
    if v < bound {
        Some(v as i32)
    } else {
        None
    }
}

} // verus!
