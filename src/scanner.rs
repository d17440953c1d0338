use vstd::prelude::*;
use crate::report::{DiagView, Diagnostic};
use crate::text::{append_bytes, subrange_bytes, text, text_bytes, SPACE, TAB, NEWLINE, CARRIAGE_RETURN, QUOTE, LEFT_PAREN_BYTE, RIGHT_PAREN_BYTE, STAR_BYTE, PLUS_BYTE, COMMA_BYTE, MINUS_BYTE, DOT_BYTE, SLASH_BYTE, ZERO, NINE, SEMICOLON_BYTE, LESS_BYTE, EQUAL_BYTE, GREATER_BYTE, BANG_BYTE, UPPER_A, UPPER_Z, UNDERSCORE, LOWER_A, LOWER_Z, LEFT_BRACE_BYTE, RIGHT_BRACE_BYTE};
use crate::token::{keyword_kind, try_get_keyword, Token, TokenType, TokenView};

verus! {

pub open spec fn is_digit(c: u8) -> bool {
    ZERO <= c <= NINE
}

pub open spec fn is_alpha(c: u8) -> bool {
    (LOWER_A <= c <= LOWER_Z) || (UPPER_A <= c <= UPPER_Z) || c == UNDERSCORE
}

pub open spec fn is_alnum(c: u8) -> bool {
    is_alpha(c) || is_digit(c)
}

/// The end of the run of digits that starts at `i`.
pub open spec fn digits_end(s: Seq<u8>, i: int) -> int
    decreases s.len() - i,
{
    if 0 <= i < s.len() && is_digit(s[i]) {
        digits_end(s, i + 1)
    } else {
        i
    }
}

/// The end of the run of letters, digits and underscores that starts at `i`.
pub open spec fn word_end(s: Seq<u8>, i: int) -> int
    decreases s.len() - i,
{
    if 0 <= i < s.len() && is_alnum(s[i]) {
        word_end(s, i + 1)
    } else {
        i
    }
}

/// The position of the first newline at or after `i`, or the end of input.
pub open spec fn line_end(s: Seq<u8>, i: int) -> int
    decreases s.len() - i,
{
    if 0 <= i < s.len() && s[i] != NEWLINE {
        line_end(s, i + 1)
    } else {
        i
    }
}

/// The position of the first double quote at or after `i`, or the end of input.
pub open spec fn string_end(s: Seq<u8>, i: int) -> int
    decreases s.len() - i,
{
    if 0 <= i < s.len() && s[i] != QUOTE {
        string_end(s, i + 1)
    } else {
        i
    }
}

/// The number of newlines in `s[i..j]`.
pub open spec fn newlines(s: Seq<u8>, i: int, j: int) -> nat
    decreases j - i,
{
    if j <= i {
        0
    } else {
        newlines(s, i, j - 1) + if s[j - 1] == NEWLINE { 1nat } else { 0nat }
    }
}

/// The end of the number literal that starts at `i`: digits, then a dot
/// and digits only when a digit follows the dot.
pub open spec fn number_end(s: Seq<u8>, i: int) -> int {
    let e = digits_end(s, i);
    if e + 1 < s.len() && s[e] == DOT_BYTE && is_digit(s[e + 1]) {
        digits_end(s, e + 1)
    } else {
        e
    }
}

pub open spec fn strip_leading_zeros(s: Seq<u8>) -> Seq<u8>
    decreases s.len(),
{
    if s.len() > 1 && s[0] == ZERO {
        strip_leading_zeros(s.drop_first())
    } else {
        s
    }
}

pub open spec fn strip_trailing_zeros(s: Seq<u8>) -> Seq<u8>
    decreases s.len(),
{
    if s.len() > 0 && s.last() == ZERO {
        strip_trailing_zeros(s.drop_last())
    } else {
        s
    }
}

/// The canonical rendering of a number literal: the integer part without
/// leading zeros, then the fraction without trailing zeros, or `.0` when
/// the value is integral.
pub open spec fn number_literal_text(lexeme: Seq<u8>) -> Seq<u8> {
    let e = digits_end(lexeme, 0);
    let whole = strip_leading_zeros(lexeme.subrange(0, e));
    let fraction = if e < lexeme.len() {
        strip_trailing_zeros(lexeme.subrange(e + 1, lexeme.len() as int))
    } else {
        Seq::empty()
    };
    if fraction.len() == 0 {
        whole + text(".0")
    } else {
        whole + seq![DOT_BYTE] + fraction
    }
}

/// The UTF-8 encoding of the character whose code is the byte `c`.
pub open spec fn byte_as_char_text(c: u8) -> Seq<u8> {
    if c < 128 {
        seq![c]
    } else {
        seq![(192 + c / 64) as u8, (128 + c % 64) as u8]
    }
}

/// The effect of scanning one lexeme: where scanning resumes, the line
/// reached, and the token or the diagnostic it produced, if any.
pub struct Step {
    pub next: int,
    pub line: nat,
    pub token: Option<TokenView>,
    pub diag: Option<DiagView>,
}

pub open spec fn token_step(s: Seq<u8>, i: int, e: int, kind: TokenType, line: nat) -> Step {
    Step {
        next: e,
        line,
        token: Some(TokenView { kind, lexeme: s.subrange(i, e), literal: text("null"), line }),
        diag: None,
    }
}

pub open spec fn skip_step(next: int, line: nat) -> Step {
    Step { next, line, token: None, diag: None }
}

/// A one- or two-character operator: the two-character form when `second` follows.
pub open spec fn pair_step(
    s: Seq<u8>,
    i: int,
    line: nat,
    second: u8,
    long: TokenType,
    short: TokenType,
) -> Step {
    if i + 1 < s.len() && s[i + 1] == second {
        token_step(s, i, i + 2, long, line)
    } else {
        token_step(s, i, i + 1, short, line)
    }
}

/// A string literal whose opening quote is at `i`.
pub open spec fn string_step(s: Seq<u8>, i: int, line: nat) -> Step {
    let e = string_end(s, i + 1);
    let l = line + newlines(s, i + 1, e);
    if e >= s.len() {
        Step {
            next: e,
            line: l,
            token: None,
            diag: Some(DiagView { line: l, context: text("Unterminated string."), message: Seq::empty() }),
        }
    } else {
        Step {
            next: e + 1,
            line: l,
            token: Some(
                TokenView {
                    kind: TokenType::STRING,
                    lexeme: s.subrange(i, e + 1),
                    literal: s.subrange(i + 1, e),
                    line: l,
                },
            ),
            diag: None,
        }
    }
}

/// A number literal that starts at `i`.
pub open spec fn number_step(s: Seq<u8>, i: int, line: nat) -> Step {
    let e = number_end(s, i);
    Step {
        next: e,
        line,
        token: Some(
            TokenView {
                kind: TokenType::NUMBER,
                lexeme: s.subrange(i, e),
                literal: number_literal_text(s.subrange(i, e)),
                line,
            },
        ),
        diag: None,
    }
}

/// An identifier or a reserved word that starts at `i`.
pub open spec fn word_step(s: Seq<u8>, i: int, line: nat) -> Step {
    let e = word_end(s, i + 1);
    let w = s.subrange(i, e);
    Step {
        next: e,
        line,
        token: Some(
            match keyword_kind(w) {
                Some(k) => TokenView { kind: k, lexeme: w, literal: text("null"), line },
                None => TokenView { kind: TokenType::IDENTIFIER, lexeme: w, literal: w, line },
            },
        ),
        diag: None,
    }
}

/// Scanning the lexeme that starts at `i`, on line `line`.
pub open spec fn scan_step(s: Seq<u8>, i: int, line: nat) -> Step {
    let c = s[i];
    if c == LEFT_PAREN_BYTE {
        token_step(s, i, i + 1, TokenType::LEFT_PAREN, line)
    } else if c == RIGHT_PAREN_BYTE {
        token_step(s, i, i + 1, TokenType::RIGHT_PAREN, line)
    } else if c == LEFT_BRACE_BYTE {
        token_step(s, i, i + 1, TokenType::LEFT_BRACE, line)
    } else if c == RIGHT_BRACE_BYTE {
        token_step(s, i, i + 1, TokenType::RIGHT_BRACE, line)
    } else if c == COMMA_BYTE {
        token_step(s, i, i + 1, TokenType::COMMA, line)
    } else if c == DOT_BYTE {
        token_step(s, i, i + 1, TokenType::DOT, line)
    } else if c == MINUS_BYTE {
        token_step(s, i, i + 1, TokenType::MINUS, line)
    } else if c == PLUS_BYTE {
        token_step(s, i, i + 1, TokenType::PLUS, line)
    } else if c == SEMICOLON_BYTE {
        token_step(s, i, i + 1, TokenType::SEMICOLON, line)
    } else if c == STAR_BYTE {
        token_step(s, i, i + 1, TokenType::STAR, line)
    } else if c == BANG_BYTE {
        pair_step(s, i, line, EQUAL_BYTE, TokenType::BANG_EQUAL, TokenType::BANG)
    } else if c == EQUAL_BYTE {
        pair_step(s, i, line, EQUAL_BYTE, TokenType::EQUAL_EQUAL, TokenType::EQUAL)
    } else if c == LESS_BYTE {
        pair_step(s, i, line, EQUAL_BYTE, TokenType::LESS_EQUAL, TokenType::LESS)
    } else if c == GREATER_BYTE {
        pair_step(s, i, line, EQUAL_BYTE, TokenType::GREATER_EQUAL, TokenType::GREATER)
    } else if c == SLASH_BYTE {
        if i + 1 < s.len() && s[i + 1] == SLASH_BYTE {
            skip_step(line_end(s, i + 2), line)
        } else {
            token_step(s, i, i + 1, TokenType::SLASH, line)
        }
    } else if c == SPACE || c == TAB || c == CARRIAGE_RETURN {
        skip_step(i + 1, line)
    } else if c == NEWLINE {
        skip_step(i + 1, line + 1)
    } else if c == QUOTE {
        string_step(s, i, line)
    } else if is_digit(c) {
        number_step(s, i, line)
    } else if is_alpha(c) {
        word_step(s, i, line)
    } else {
        Step {
            next: i + 1,
            line,
            token: None,
            diag: Some(
                DiagView { line, context: text("Unexpected character: "), message: byte_as_char_text(c) },
            ),
        }
    }
}

pub open spec fn opt_seq<A>(o: Option<A>) -> Seq<A> {
    match o {
        Some(a) => seq![a],
        None => Seq::empty(),
    }
}

/// What scanning from position `i` on line `line` produces: the tokens,
/// the diagnostics, and the line reached at the end of input.
pub open spec fn scan_from(s: Seq<u8>, i: int, line: nat) -> (Seq<TokenView>, Seq<DiagView>, nat)
    decreases s.len() - i,
{
    if i < 0 || i >= s.len() {
        (Seq::empty(), Seq::empty(), line)
    } else {
        let st = scan_step(s, i, line);
        if st.next <= i || st.next > s.len() {
            (Seq::empty(), Seq::empty(), line)
        } else {
            let rest = scan_from(s, st.next, st.line);
            (opt_seq(st.token) + rest.0, opt_seq(st.diag) + rest.1, rest.2)
        }
    }
}

/// The end-of-input token.
pub open spec fn eof_token(line: nat) -> TokenView {
    TokenView { kind: TokenType::EOF, lexeme: Seq::empty(), literal: text("null"), line }
}

/// The tokens of `s`, ending with the end-of-input token.
pub open spec fn scan_tokens_of(s: Seq<u8>) -> Seq<TokenView> {
    let r = scan_from(s, 0, 1);
    r.0.push(eof_token(r.2))
}

/// The lexical errors of `s`, in source order.
pub open spec fn scan_errors_of(s: Seq<u8>) -> Seq<DiagView> {
    scan_from(s, 0, 1).1
}

pub open spec fn tokens_view(v: Seq<Token>) -> Seq<TokenView> {
    v.map_values(|t: Token| t@)
}

pub open spec fn diags_view(v: Seq<Diagnostic>) -> Seq<DiagView> {
    v.map_values(|d: Diagnostic| d@)
}

} // verus!

verus! {

pub fn is_digit_byte(c: u8) -> (r: bool)
    ensures
        r == is_digit(c),
{
    ZERO <= c && c <= NINE
}

pub fn is_alpha_byte(c: u8) -> (r: bool)
    ensures
        r == is_alpha(c),
{
    (LOWER_A <= c && c <= LOWER_Z) || (UPPER_A <= c && c <= UPPER_Z) || c == UNDERSCORE
}

pub fn is_alnum_byte(c: u8) -> (r: bool)
    ensures
        r == is_alnum(c),
{
    is_alpha_byte(c) || is_digit_byte(c)
}

/// The canonical rendering of the number literal `lexeme`.
pub fn canonical_number(lexeme: &[u8]) -> (r: Vec<u8>)
    requires
        lexeme@.len() < usize::MAX,
    ensures
        r@ == number_literal_text(lexeme@),
{
    let n = lexeme.len();
    let mut e: usize = 0;
    while e < n && is_digit_byte(lexeme[e])
        invariant
            0 <= e <= n == lexeme@.len(),
            digits_end(lexeme@, 0) == digits_end(lexeme@, e as int),
        decreases n - e,
    {
        e += 1;
    }
    let ghost s = lexeme@;
    let mut lead: usize = 0;
    while lead + 1 < e && lexeme[lead] == ZERO
        invariant
            0 <= lead <= e <= n == s.len(),
            s == lexeme@,
            lead < e || e == 0,
            strip_leading_zeros(s.subrange(0, e as int)) == strip_leading_zeros(
                s.subrange(lead as int, e as int),
            ),
        decreases e - lead,
    {
        assert(s.subrange(lead as int, e as int).drop_first() =~= s.subrange(lead + 1, e as int));
        lead += 1;
    }
    let mut out = subrange_bytes(lexeme, lead, e);
    proof {
        assert(strip_leading_zeros(s.subrange(lead as int, e as int)) == s.subrange(
            lead as int,
            e as int,
        ));
    }
    let mut last: usize = n;
    if e < n {
        while last > e + 1 && lexeme[last - 1] == ZERO
            invariant
                e + 1 <= last <= n == s.len(),
                s == lexeme@,
                e < n,
                strip_trailing_zeros(s.subrange(e + 1, n as int)) == strip_trailing_zeros(
                    s.subrange(e + 1, last as int),
                ),
            decreases last,
        {
            assert(s.subrange(e + 1, last as int).drop_last() =~= s.subrange(
                e + 1,
                last - 1,
            ));
            last -= 1;
        }
        assert(strip_trailing_zeros(s.subrange(e + 1, last as int)) == s.subrange(
            e + 1,
            last as int,
        ));
    }
    if e < n && last > e + 1 {
        out.push(DOT_BYTE);
        let fraction = subrange_bytes(lexeme, e + 1, last);
        append_bytes(&mut out, fraction.as_slice());
    } else {
        let tail = text_bytes(".0");
        append_bytes(&mut out, tail.as_slice());
    }
    proof {
        assert(out@ =~= number_literal_text(s));
    }
    out
}

/// The UTF-8 encoding of the character whose code is the byte `c`.
pub fn byte_as_char(c: u8) -> (r: Vec<u8>)
    ensures
        r@ == byte_as_char_text(c),
{
    let mut out: Vec<u8> = Vec::new();
    if c < 128 {
        out.push(c);
    } else {
        out.push(192 + c / 64);
        out.push(128 + c % 64);
    }
    assert(out@ =~= byte_as_char_text(c));
    out
}

/// The output of scanning: the tokens, ending with the end-of-input token,
/// and the lexical errors met on the way.
pub struct ScanOutput {
    pub tokens: Vec<Token>,
    pub errors: Vec<Diagnostic>,
}

/// A single left-to-right pass over source bytes that produces tokens and
/// collects lexical errors; an error does not stop the scan.
pub struct Scanner {
    start: usize,
    current: usize,
    line: usize,
    source: Vec<u8>,
    tokens: Vec<Token>,
    errors: Vec<Diagnostic>,
}

/// `new` differs from `old` by the effect `st` of scanning one lexeme.
pub closed spec fn took(old: Scanner, new: Scanner, st: Step) -> bool {
    &&& new.source@ == old.source@
    &&& new.current == st.next
    &&& new.line == st.line
    &&& tokens_view(new.tokens@) == tokens_view(old.tokens@) + opt_seq(st.token)
    &&& diags_view(new.errors@) == diags_view(old.errors@) + opt_seq(st.diag)
}

impl Scanner {
    pub closed spec fn wf(&self) -> bool {
        &&& self.current <= self.source@.len()
        &&& self.source@.len() < usize::MAX
        &&& 1 <= self.line <= self.current + 1
        &&& self.start <= self.current
    }

    pub closed spec fn source_view(&self) -> Seq<u8> {
        self.source@
    }

    pub closed spec fn position(&self) -> int {
        self.current as int
    }

    pub closed spec fn line_view(&self) -> nat {
        self.line as nat
    }

    pub closed spec fn tokens_so_far(&self) -> Seq<TokenView> {
        tokens_view(self.tokens@)
    }

    pub closed spec fn errors_so_far(&self) -> Seq<DiagView> {
        diags_view(self.errors@)
    }

    spec fn frame(&self, other: &Scanner) -> bool {
        &&& self.source@ == other.source@
        &&& self.tokens@ == other.tokens@
        &&& self.errors@ == other.errors@
        &&& self.start == other.start
    }

    pub fn new(source: &[u8]) -> (r: Scanner)
        requires
            source@.len() < usize::MAX,
        ensures
            r.wf(),
            r.source_view() == source@,
            r.position() == 0,
            r.line_view() == 1,
            r.tokens_so_far() == Seq::<TokenView>::empty(),
            r.errors_so_far() == Seq::<DiagView>::empty(),
    {
        let mut copy: Vec<u8> = Vec::new();
        append_bytes(&mut copy, source);
        let r = Scanner {
            source: copy,
            tokens: Vec::new(),
            errors: Vec::new(),
            start: 0,
            current: 0,
            line: 1,
        };
        assert(tokens_view(r.tokens@) =~= Seq::<TokenView>::empty());
        assert(diags_view(r.errors@) =~= Seq::<DiagView>::empty());
        r
    }

    fn is_at_end(&self) -> (r: bool)
        ensures
            r == (self.current >= self.source@.len()),
    {
        self.current >= self.source.len()
    }

    /// Scans the whole remaining input, then appends the end-of-input token.
    pub fn scan_tokens(&mut self)
        requires
            old(self).wf(),
        ensures
            final(self).wf(),
            final(self).source_view() == old(self).source_view(),
            final(self).tokens_so_far() == old(self).tokens_so_far() + scan_from(
                old(self).source_view(),
                old(self).position(),
                old(self).line_view(),
            ).0.push(
                eof_token(
                    scan_from(old(self).source_view(), old(self).position(), old(self).line_view()).2,
                ),
            ),
            final(self).errors_so_far() == old(self).errors_so_far() + scan_from(
                old(self).source_view(),
                old(self).position(),
                old(self).line_view(),
            ).1,
    {
        let ghost s = self.source@;
        let ghost r0 = scan_from(s, self.current as int, self.line as nat);
        let ghost t0 = tokens_view(self.tokens@);
        let ghost d0 = diags_view(self.errors@);
        while !self.is_at_end()
            invariant
                self.wf(),
                self.source@ == s,
                t0 + r0.0 == tokens_view(self.tokens@) + scan_from(
                    s,
                    self.current as int,
                    self.line as nat,
                ).0,
                d0 + r0.1 == diags_view(self.errors@) + scan_from(
                    s,
                    self.current as int,
                    self.line as nat,
                ).1,
                r0.2 == scan_from(s, self.current as int, self.line as nat).2,
            decreases s.len() - self.current,
        {
            self.start = self.current;
            let ghost before = *self;
            self.scan_token();
            proof {
                let st = scan_step(s, before.current as int, before.line as nat);
                let rest = scan_from(s, st.next, st.line);
                assert(tokens_view(self.tokens@) + rest.0 =~= tokens_view(before.tokens@) + (
                opt_seq(st.token) + rest.0));
                assert(diags_view(self.errors@) + rest.1 =~= diags_view(before.errors@) + (
                opt_seq(st.diag) + rest.1));
            }
        }
        proof {
            assert(tokens_view(self.tokens@) =~= tokens_view(self.tokens@) + Seq::empty());
            assert(diags_view(self.errors@) =~= diags_view(self.errors@) + Seq::empty());
        }
        let ghost before = self.tokens@;
        self.tokens.push(
            Token { token_type: TokenType::EOF, lexeme: Vec::new(), literal: text_bytes("null"), line: self.line },
        );
        proof {
            assert(self.tokens@.last()@ =~= eof_token(r0.2));
            assert(tokens_view(self.tokens@) =~= tokens_view(before).push(eof_token(r0.2)));
            assert(t0 + r0.0.push(eof_token(r0.2)) =~= (t0 + r0.0).push(eof_token(r0.2)));
        }
    }

    /// The tokens and errors produced so far.
    pub fn into_output(self) -> (r: ScanOutput)
        ensures
            tokens_view(r.tokens@) == self.tokens_so_far(),
            diags_view(r.errors@) == self.errors_so_far(),
    {
        ScanOutput { tokens: self.tokens, errors: self.errors }
    }

    fn advance(&mut self) -> (c: u8)
        requires
            old(self).current < old(self).source@.len() < usize::MAX,
        ensures
            c == old(self).source@[old(self).current as int],
            final(self).current == old(self).current + 1,
            final(self).line == old(self).line,
            final(self).frame(old(self)),
    {
        let c = self.source[self.current];
        self.current += 1;
        c
    }

    fn add_token(&mut self, token_type: TokenType)
        requires
            old(self).start <= old(self).current <= old(self).source@.len(),
        ensures
            final(self).current == old(self).current,
            final(self).line == old(self).line,
            final(self).start == old(self).start,
            final(self).source@ == old(self).source@,
            final(self).errors@ == old(self).errors@,
            tokens_view(final(self).tokens@) == tokens_view(old(self).tokens@).push(
                TokenView {
                    kind: token_type,
                    lexeme: old(self).source@.subrange(old(self).start as int, old(self).current as int),
                    literal: text("null"),
                    line: old(self).line as nat,
                },
            ),
    {
        self.add_token_with_literal(token_type, text_bytes("null"))
    }

    fn add_token_with_literal(&mut self, token_type: TokenType, literal: Vec<u8>)
        requires
            old(self).start <= old(self).current <= old(self).source@.len(),
        ensures
            final(self).current == old(self).current,
            final(self).line == old(self).line,
            final(self).start == old(self).start,
            final(self).source@ == old(self).source@,
            final(self).errors@ == old(self).errors@,
            tokens_view(final(self).tokens@) == tokens_view(old(self).tokens@).push(
                TokenView {
                    kind: token_type,
                    lexeme: old(self).source@.subrange(old(self).start as int, old(self).current as int),
                    literal: literal@,
                    line: old(self).line as nat,
                },
            ),
    {
        let text = subrange_bytes(self.source.as_slice(), self.start, self.current);
        let ghost before = self.tokens@;
        self.tokens.push(Token { token_type, lexeme: text, literal, line: self.line });
        assert(tokens_view(self.tokens@) =~= tokens_view(before).push(self.tokens@.last()@));
    }

    fn report(&mut self, context: Vec<u8>, message: Vec<u8>)
        ensures
            final(self).current == old(self).current,
            final(self).line == old(self).line,
            final(self).start == old(self).start,
            final(self).source@ == old(self).source@,
            final(self).tokens@ == old(self).tokens@,
            diags_view(final(self).errors@) == diags_view(old(self).errors@).push(
                DiagView { line: old(self).line as nat, context: context@, message: message@ },
            ),
    {
        let ghost before = self.errors@;
        self.errors.push(Diagnostic { line: self.line, context, message });
        assert(diags_view(self.errors@) =~= diags_view(before).push(self.errors@.last()@));
    }

    fn next_match(&mut self, expected: u8) -> (r: bool)
        requires
            old(self).source@.len() < usize::MAX,
        ensures
            r == (old(self).current < old(self).source@.len() && old(self).source@[old(
                self,
            ).current as int] == expected),
            final(self).current == old(self).current + if r { 1int } else { 0int },
            final(self).line == old(self).line,
            final(self).frame(old(self)),
    {
        if self.is_at_end() {
            return false;
        }
        if self.source[self.current] != expected {
            return false;
        }
        self.current += 1;
        true
    }

    fn peek(&self) -> (r: u8)
        ensures
            r == if self.current < self.source@.len() {
                self.source@[self.current as int]
            } else {
                0u8
            },
    {
        if self.is_at_end() {
            return 0;
        }
        self.source[self.current]
    }

    fn peek_next(&self) -> (r: u8)
        requires
            self.current < usize::MAX,
        ensures
            r == if self.current + 1 < self.source@.len() {
                self.source@[self.current + 1]
            } else {
                0u8
            },
    {
        if self.current + 1 >= self.source.len() {
            return 0;
        }
        self.source[self.current + 1]
    }

    fn add_string(&mut self)
        requires
            old(self).wf(),
            old(self).current == old(self).start + 1,
            old(self).source@[old(self).start as int] == QUOTE,
        ensures
            final(self).wf(),
            final(self).start == old(self).start,
            final(self).current > old(self).start,
            took(*old(self), *final(self), string_step(old(self).source@, old(self).start as int, old(self).line as nat)),
    {
        let ghost s = self.source@;
        let ghost i = self.start as int;
        let ghost l0 = self.line as nat;
        while self.peek() != QUOTE && !self.is_at_end()
            invariant
                self.wf(),
                self.source@ == s,
                self.start == i,
                i < self.current,
                self.tokens@ == old(self).tokens@,
                self.errors@ == old(self).errors@,
                self.line == l0 + newlines(s, i + 1, self.current as int),
                string_end(s, i + 1) == string_end(s, self.current as int),
            decreases s.len() - self.current,
        {
            if self.peek() == NEWLINE {
                self.line += 1;
            }
            self.advance();
        }
        if self.is_at_end() {
            self.report(text_bytes("Unterminated string."), Vec::new());
            proof {
                assert(diags_view(self.errors@) =~= diags_view(old(self).errors@) + opt_seq(
                    string_step(s, i, l0).diag,
                ));
                assert(tokens_view(self.tokens@) =~= tokens_view(old(self).tokens@) + Seq::empty());
            }
            return;
        }
        self.advance();
        let literal = subrange_bytes(self.source.as_slice(), self.start + 1, self.current - 1);
        self.add_token_with_literal(TokenType::STRING, literal);
        proof {
            assert(tokens_view(self.tokens@) =~= tokens_view(old(self).tokens@) + opt_seq(
                string_step(s, i, l0).token,
            ));
            assert(diags_view(self.errors@) =~= diags_view(old(self).errors@) + Seq::empty());
        }
    }

    fn add_number(&mut self)
        requires
            old(self).wf(),
            old(self).current == old(self).start + 1,
            is_digit(old(self).source@[old(self).start as int]),
        ensures
            final(self).wf(),
            final(self).start == old(self).start,
            final(self).current > old(self).start,
            took(*old(self), *final(self), number_step(old(self).source@, old(self).start as int, old(self).line as nat)),
    {
        let ghost s = self.source@;
        let ghost i = self.start as int;
        while is_digit_byte(self.peek())
            invariant
                self.wf(),
                self.frame(old(self)),
                self.source@ == s,
                self.line == old(self).line,
                i < self.current,
                digits_end(s, i) == digits_end(s, self.current as int),
            decreases s.len() - self.current,
        {
            self.advance();
        }
        if self.peek() == DOT_BYTE && is_digit_byte(self.peek_next()) {
            let ghost e = self.current as int;
            self.advance();
            while is_digit_byte(self.peek())
                invariant
                    self.wf(),
                    self.frame(old(self)),
                    self.source@ == s,
                self.source@ == s,
                    self.line == old(self).line,
                    i < self.current,
                    e + 1 <= self.current,
                    digits_end(s, e + 1) == digits_end(s, self.current as int),
                decreases s.len() - self.current,
            {
                self.advance();
            }
        }
        let lexeme = subrange_bytes(self.source.as_slice(), self.start, self.current);
        let literal = canonical_number(lexeme.as_slice());
        self.add_token_with_literal(TokenType::NUMBER, literal);
        proof {
            assert(tokens_view(self.tokens@) =~= tokens_view(old(self).tokens@) + opt_seq(
                number_step(s, i, old(self).line as nat).token,
            ));
            assert(diags_view(self.errors@) =~= diags_view(old(self).errors@) + Seq::empty());
        }
    }

    fn add_identifier_or_reserved_words(&mut self)
        requires
            old(self).wf(),
            old(self).current == old(self).start + 1,
            is_alpha(old(self).source@[old(self).start as int]),
        ensures
            final(self).wf(),
            final(self).start == old(self).start,
            final(self).current > old(self).start,
            took(*old(self), *final(self), word_step(old(self).source@, old(self).start as int, old(self).line as nat)),
    {
        let ghost s = self.source@;
        let ghost i = self.start as int;
        while is_alnum_byte(self.peek())
            invariant
                self.wf(),
                self.frame(old(self)),
                self.source@ == s,
                self.line == old(self).line,
                i < self.current,
                word_end(s, i + 1) == word_end(s, self.current as int),
            decreases s.len() - self.current,
        {
            self.advance();
        }
        let word = subrange_bytes(self.source.as_slice(), self.start, self.current);
        match try_get_keyword(word.as_slice()) {
            None => self.add_token_with_literal(TokenType::IDENTIFIER, word),
            Some(token) => self.add_token(token),
        }
        proof {
            assert(tokens_view(self.tokens@) =~= tokens_view(old(self).tokens@) + opt_seq(
                word_step(s, i, old(self).line as nat).token,
            ));
            assert(diags_view(self.errors@) =~= diags_view(old(self).errors@) + Seq::empty());
        }
    }

    fn simple(&mut self, token_type: TokenType)
        requires
            old(self).wf(),
            old(self).current == old(self).start + 1,
        ensures
            final(self).wf(),
            final(self).start == old(self).start,
            took(
                *old(self),
                *final(self),
                token_step(old(self).source@, old(self).start as int, old(self).current as int, token_type, old(self).line as nat),
            ),
    {
        self.add_token(token_type);
        assert(diags_view(self.errors@) =~= diags_view(old(self).errors@) + Seq::empty());
        assert(tokens_view(self.tokens@) =~= tokens_view(old(self).tokens@) + opt_seq(
            token_step(self.source@, self.start as int, self.current as int, token_type, self.line as nat).token,
        ));
    }

    fn pair(&mut self, second: u8, long: TokenType, short: TokenType)
        requires
            old(self).wf(),
            old(self).current == old(self).start + 1,
        ensures
            final(self).wf(),
            final(self).start == old(self).start,
            took(
                *old(self),
                *final(self),
                pair_step(old(self).source@, old(self).start as int, old(self).line as nat, second, long, short),
            ),
    {
        let token_type = if self.next_match(second) {
            long
        } else {
            short
        };
        self.add_token(token_type);
        assert(diags_view(self.errors@) =~= diags_view(old(self).errors@) + Seq::empty());
        assert(tokens_view(self.tokens@) =~= tokens_view(old(self).tokens@) + opt_seq(
            pair_step(self.source@, self.start as int, self.line as nat, second, long, short).token,
        ));
    }

    /// Scans the lexeme that starts at the current position.
    fn scan_token(&mut self)
        requires
            old(self).wf(),
            old(self).current < old(self).source@.len(),
            old(self).start == old(self).current,
        ensures
            final(self).wf(),
            old(self).current < final(self).current,
            took(*old(self), *final(self), scan_step(old(self).source@, old(self).current as int, old(self).line as nat)),
    {
        let ghost s = self.source@;
        let ghost i = self.current as int;
        let ghost l = self.line as nat;
        let c = self.advance();
        if c == LEFT_PAREN_BYTE {
            self.simple(TokenType::LEFT_PAREN);
            assert(took(*old(self), *self, scan_step(s, i, l)));
        } else if c == RIGHT_PAREN_BYTE {
            self.simple(TokenType::RIGHT_PAREN);
            assert(took(*old(self), *self, scan_step(s, i, l)));
        } else if c == LEFT_BRACE_BYTE {
            self.simple(TokenType::LEFT_BRACE);
            assert(took(*old(self), *self, scan_step(s, i, l)));
        } else if c == RIGHT_BRACE_BYTE {
            self.simple(TokenType::RIGHT_BRACE);
            assert(took(*old(self), *self, scan_step(s, i, l)));
        } else if c == COMMA_BYTE {
            self.simple(TokenType::COMMA);
            assert(took(*old(self), *self, scan_step(s, i, l)));
        } else if c == DOT_BYTE {
            self.simple(TokenType::DOT);
            assert(took(*old(self), *self, scan_step(s, i, l)));
        } else if c == MINUS_BYTE {
            self.simple(TokenType::MINUS);
            assert(took(*old(self), *self, scan_step(s, i, l)));
        } else if c == PLUS_BYTE {
            self.simple(TokenType::PLUS);
            assert(took(*old(self), *self, scan_step(s, i, l)));
        } else if c == SEMICOLON_BYTE {
            self.simple(TokenType::SEMICOLON);
            assert(took(*old(self), *self, scan_step(s, i, l)));
        } else if c == STAR_BYTE {
            self.simple(TokenType::STAR);
            assert(took(*old(self), *self, scan_step(s, i, l)));
        } else if c == BANG_BYTE {
            self.pair(EQUAL_BYTE, TokenType::BANG_EQUAL, TokenType::BANG);
            assert(took(*old(self), *self, scan_step(s, i, l)));
        } else if c == EQUAL_BYTE {
            self.pair(EQUAL_BYTE, TokenType::EQUAL_EQUAL, TokenType::EQUAL);
            assert(took(*old(self), *self, scan_step(s, i, l)));
        } else if c == LESS_BYTE {
            self.pair(EQUAL_BYTE, TokenType::LESS_EQUAL, TokenType::LESS);
            assert(took(*old(self), *self, scan_step(s, i, l)));
        } else if c == GREATER_BYTE {
            self.pair(EQUAL_BYTE, TokenType::GREATER_EQUAL, TokenType::GREATER);
            assert(took(*old(self), *self, scan_step(s, i, l)));
        } else if c == SLASH_BYTE {
            if self.next_match(SLASH_BYTE) {
                while !self.is_at_end() && self.peek() != NEWLINE
                    invariant
                        self.wf(),
                        self.frame(old(self)),
                        self.source@ == s,
                    self.source@ == s,
                self.source@ == s,
                        self.line == old(self).line,
                        i + 2 <= self.current,
                        line_end(s, i + 2) == line_end(s, self.current as int),
                    decreases s.len() - self.current,
                {
                    self.advance();
                }
                proof {
                    assert(tokens_view(self.tokens@) =~= tokens_view(old(self).tokens@) + Seq::empty());
                    assert(diags_view(self.errors@) =~= diags_view(old(self).errors@) + Seq::empty());
                }
                assert(took(*old(self), *self, scan_step(s, i, l)));
            } else {
                self.add_token(TokenType::SLASH);
                assert(diags_view(self.errors@) =~= diags_view(old(self).errors@) + Seq::empty());
                assert(tokens_view(self.tokens@) =~= tokens_view(old(self).tokens@) + opt_seq(scan_step(s, i, l).token));
                assert(took(*old(self), *self, scan_step(s, i, l)));
            }
        } else if c == SPACE || c == TAB || c == CARRIAGE_RETURN {
            assert(tokens_view(self.tokens@) =~= tokens_view(old(self).tokens@) + Seq::empty());
            assert(diags_view(self.errors@) =~= diags_view(old(self).errors@) + Seq::empty());
            assert(took(*old(self), *self, scan_step(s, i, l)));
        } else if c == NEWLINE {
            self.line += 1;
            assert(tokens_view(self.tokens@) =~= tokens_view(old(self).tokens@) + Seq::empty());
            assert(diags_view(self.errors@) =~= diags_view(old(self).errors@) + Seq::empty());
            assert(took(*old(self), *self, scan_step(s, i, l)));
        } else if c == QUOTE {
            self.add_string();
            assert(took(*old(self), *self, scan_step(s, i, l)));
        } else if is_digit_byte(c) {
            self.add_number();
            assert(took(*old(self), *self, scan_step(s, i, l)));
        } else if is_alpha_byte(c) {
            self.add_identifier_or_reserved_words();
            assert(took(*old(self), *self, scan_step(s, i, l)));
        } else {
            self.report(text_bytes("Unexpected character: "), byte_as_char(c));
            assert(tokens_view(self.tokens@) =~= tokens_view(old(self).tokens@) + Seq::empty());
            assert(diags_view(self.errors@) =~= diags_view(old(self).errors@) + opt_seq(scan_step(s, i, l).diag));
            assert(took(*old(self), *self, scan_step(s, i, l)));
        }
    }
}

} // verus!

verus! {

/// Scans `source` into tokens, ending with the end-of-input token, and
/// collects the lexical errors met on the way.
pub fn scan(source: &[u8]) -> (r: ScanOutput)
    requires
        source@.len() < usize::MAX,
    ensures
        tokens_view(r.tokens@) == scan_tokens_of(source@),
        diags_view(r.errors@) == scan_errors_of(source@),
{
    let mut scanner = Scanner::new(source);
    scanner.scan_tokens();
    proof {
        let r = scan_from(source@, 0, 1);
        assert(Seq::<TokenView>::empty() + r.0.push(eof_token(r.2)) =~= r.0.push(eof_token(r.2)));
        assert(Seq::<DiagView>::empty() + r.1 =~= r.1);
    }
    scanner.into_output()
}

} // verus!

verus! {

/// The kind of a one-character punctuation token.
pub open spec fn punctuation_kind(c: u8) -> Option<TokenType> {
    if c == LEFT_PAREN_BYTE {
        Some(TokenType::LEFT_PAREN)
    } else if c == RIGHT_PAREN_BYTE {
        Some(TokenType::RIGHT_PAREN)
    } else if c == LEFT_BRACE_BYTE {
        Some(TokenType::LEFT_BRACE)
    } else if c == RIGHT_BRACE_BYTE {
        Some(TokenType::RIGHT_BRACE)
    } else if c == COMMA_BYTE {
        Some(TokenType::COMMA)
    } else if c == DOT_BYTE {
        Some(TokenType::DOT)
    } else if c == MINUS_BYTE {
        Some(TokenType::MINUS)
    } else if c == PLUS_BYTE {
        Some(TokenType::PLUS)
    } else if c == SEMICOLON_BYTE {
        Some(TokenType::SEMICOLON)
    } else if c == STAR_BYTE {
        Some(TokenType::STAR)
    } else if c == SLASH_BYTE {
        Some(TokenType::SLASH)
    } else if c == BANG_BYTE {
        Some(TokenType::BANG)
    } else if c == EQUAL_BYTE {
        Some(TokenType::EQUAL)
    } else if c == LESS_BYTE {
        Some(TokenType::LESS)
    } else if c == GREATER_BYTE {
        Some(TokenType::GREATER)
    } else {
        None
    }
}

/// Punctuation that never joins a neighbour into a longer token.
pub open spec fn is_standalone_punctuation(c: u8) -> bool {
    punctuation_kind(c) is Some && c != SLASH_BYTE && c != BANG_BYTE && c != EQUAL_BYTE && c
        != LESS_BYTE && c != GREATER_BYTE
}

pub open spec fn punctuation_token(c: u8) -> TokenView {
    TokenView { kind: punctuation_kind(c)->0, lexeme: seq![c], literal: text("null"), line: 1 }
}

proof fn lemma_punctuation_from(s: Seq<u8>, i: int)
    requires
        0 <= i <= s.len(),
        forall|k: int| 0 <= k < s.len() ==> is_standalone_punctuation(#[trigger] s[k]),
    ensures
        scan_from(s, i, 1) == (
            Seq::new((s.len() - i) as nat, |k: int| punctuation_token(s[i + k])),
            Seq::<DiagView>::empty(),
            1nat,
        ),
    decreases s.len() - i,
{
    if i < s.len() {
        lemma_punctuation_from(s, i + 1);
        let st = scan_step(s, i, 1);
        assert(s.subrange(i, i + 1) =~= seq![s[i]]);
        assert(st.token == Some(punctuation_token(s[i])));
        assert(opt_seq(st.token) + Seq::new((s.len() - (i + 1)) as nat, |k: int| punctuation_token(s[i + 1 + k])) =~= Seq::new(
            (s.len() - i) as nat,
            |k: int| punctuation_token(s[i + k]),
        ));
        assert(opt_seq(st.diag) + Seq::<DiagView>::empty() =~= Seq::<DiagView>::empty());
    } else {
        assert(Seq::new((s.len() - i) as nat, |k: int| punctuation_token(s[i + k])) =~= Seq::<TokenView>::empty());
    }
}

/// A run of punctuation characters that never combine scans into exactly
/// one token of the matching kind per character, then the end-of-input
/// token, with no error.
pub proof fn lemma_punctuation_run(s: Seq<u8>)
    requires
        forall|k: int| 0 <= k < s.len() ==> is_standalone_punctuation(#[trigger] s[k]),
    ensures
        scan_tokens_of(s) == Seq::new(s.len(), |k: int| punctuation_token(s[k])).push(eof_token(1)),
        scan_errors_of(s).len() == 0,
{
    lemma_punctuation_from(s, 0);
    assert(Seq::new((s.len() - 0) as nat, |k: int| punctuation_token(s[0 + k])) =~= Seq::new(
        s.len(),
        |k: int| punctuation_token(s[k]),
    ));
}

/// Any one punctuation character on its own scans into one token of the
/// matching kind, then the end-of-input token, with no error.
pub proof fn lemma_single_punctuation(c: u8)
    requires
        punctuation_kind(c) is Some,
    ensures
        scan_tokens_of(seq![c]) == seq![punctuation_token(c), eof_token(1)],
        scan_errors_of(seq![c]).len() == 0,
{
    let s = seq![c];
    let st = scan_step(s, 0, 1);
    assert(s.subrange(0, 1) =~= seq![c]);
    assert(st.next == 1 && st.line == 1);
    assert(st.token == Some(punctuation_token(c)));
    assert(scan_from(s, 1, 1) == (Seq::<TokenView>::empty(), Seq::<DiagView>::empty(), 1nat));
    assert(scan_from(s, 0, 1).0 =~= seq![punctuation_token(c)]);
    assert(seq![punctuation_token(c)].push(eof_token(1)) =~= seq![punctuation_token(c), eof_token(1)]);
}

pub open spec fn all_digits(s: Seq<u8>) -> bool {
    s.len() > 0 && forall|k: int| 0 <= k < s.len() ==> is_digit(#[trigger] s[k])
}

proof fn lemma_digits_end(s: Seq<u8>, i: int, j: int)
    requires
        0 <= i <= j <= s.len(),
        forall|k: int| i <= k < j ==> is_digit(#[trigger] s[k]),
        j == s.len() || !is_digit(s[j]),
    ensures
        digits_end(s, i) == j,
    decreases j - i,
{
    if i < j {
        lemma_digits_end(s, i + 1, j);
    }
}

/// A well-formed number literal (digits, then optionally a dot and digits)
/// scans into one NUMBER token whose literal is its canonical rendering:
/// the integer part without leading zeros, then the fraction without
/// trailing zeros, or `.0` when the fraction is absent or all zeros.
pub proof fn lemma_number_literal(whole: Seq<u8>, fraction: Seq<u8>)
    requires
        all_digits(whole),
        fraction.len() == 0 || all_digits(fraction),
    ensures
        ({
            let n = if fraction.len() == 0 { whole } else { whole + seq![DOT_BYTE] + fraction };
            let f = strip_trailing_zeros(fraction);
            &&& scan_tokens_of(n) == seq![
                TokenView { kind: TokenType::NUMBER, lexeme: n, literal: number_literal_text(n), line: 1 },
                eof_token(1),
            ]
            &&& scan_errors_of(n).len() == 0
            &&& number_literal_text(n) == if f.len() == 0 {
                strip_leading_zeros(whole) + text(".0")
            } else {
                strip_leading_zeros(whole) + seq![DOT_BYTE] + f
            }
        }),
{
    let n = if fraction.len() == 0 { whole } else { whole + seq![DOT_BYTE] + fraction };
    let w = whole.len() as int;
    assert forall|k: int| 0 <= k < w implies is_digit(#[trigger] n[k]) by {
        assert(n[k] == whole[k]);
    }
    lemma_digits_end(n, 0, w);
    lemma_digits_end(n, 1, w);
    if fraction.len() > 0 {
        assert(n[w] == DOT_BYTE);
        assert forall|k: int| w + 1 <= k < n.len() implies is_digit(#[trigger] n[k]) by {
            assert(n[k] == fraction[k - w - 1]);
        }
        assert(is_digit(n[w + 1])) by {
            assert(n[w + 1] == fraction[0]);
        }
        lemma_digits_end(n, w + 1, n.len() as int);
        assert(n.subrange(w + 1, n.len() as int) =~= fraction);
    }
    assert(n.subrange(0, w) =~= whole);
    assert(number_end(n, 0) == n.len());
    assert(n.subrange(0, n.len() as int) =~= n);
    let st = scan_step(n, 0, 1);
    assert(st.next == n.len());
    assert(scan_from(n, n.len() as int, 1) == (Seq::<TokenView>::empty(), Seq::<DiagView>::empty(), 1nat));
    assert(scan_from(n, 0, 1).0 =~= opt_seq(st.token));
    assert(scan_from(n, 0, 1).1 =~= Seq::<DiagView>::empty());
    assert(opt_seq(st.token).push(eof_token(1)) =~= seq![
        TokenView { kind: TokenType::NUMBER, lexeme: n, literal: number_literal_text(n), line: 1 },
        eof_token(1),
    ]);
}

} // verus!

verus! {

/// Scanning never produces more tokens than there are bytes.
pub proof fn lemma_scan_count(s: Seq<u8>, i: int, line: nat)
    requires
        0 <= i <= s.len(),
    ensures
        scan_from(s, i, line).0.len() <= s.len() - i,
    decreases s.len() - i,
{
    if i < s.len() {
        let st = scan_step(s, i, line);
        if st.next > i && st.next <= s.len() {
            lemma_scan_count(s, st.next, st.line);
        }
    }
}

} // verus!
