//! The scanner: a single-pass character-index state machine that turns
//! source text into a token sequence closed by one end-of-file sentinel.
//!
//! The executable [`Scanner`] is verified against a recursive specification,
//! [`scan_from`], which walks the character sequence one lexeme at a time:
//! [`scan_step`] says what one dispatch on the current character produces.
//!
//! Failure policy: the scan aborts on the first lexical error and returns
//! it; no partial token sequence is produced on failure.

use crate::error::LoxErrors;
use crate::error::LoxErrorView;
use crate::literal::is_digit_char;
use crate::literal::normal_decimal;
use crate::literal::normal_number_string;
use crate::literal::LiteralValue;
use crate::literal::LiteralView;
use crate::token::token_views;
use crate::token::Token;
use crate::token::TokenType;
use crate::token::TokenView;
use vstd::prelude::*;
use vstd::string::StrSliceExecFns;
use vstd::string::StringExecFns;

verus! {

broadcast use crate::token::lemma_token_views_push;

/// Whether `c` may begin an identifier: a letter or an underscore.
pub open spec fn is_alpha_char(c: char) -> bool {
    ('A' <= c && c <= 'Z') || ('a' <= c && c <= 'z') || c == '_'
}

/// Whether `c` may continue an identifier.
pub open spec fn is_alphanumeric_char(c: char) -> bool {
    is_alpha_char(c) || is_digit_char(c)
}

/// The first position at or after `i` holding a non-digit, or the length.
pub open spec fn digit_run_end(src: Seq<char>, i: int) -> int
    decreases src.len() - i,
{
    if 0 <= i < src.len() && is_digit_char(src[i]) {
        digit_run_end(src, i + 1)
    } else {
        i
    }
}

/// The first position at or after `i` that cannot continue an identifier.
pub open spec fn ident_run_end(src: Seq<char>, i: int) -> int
    decreases src.len() - i,
{
    if 0 <= i < src.len() && is_alphanumeric_char(src[i]) {
        ident_run_end(src, i + 1)
    } else {
        i
    }
}

/// The first position at or after `i` holding a newline, or the length:
/// where a line comment beginning before `i` stops consuming.
pub open spec fn comment_end(src: Seq<char>, i: int) -> int
    decreases src.len() - i,
{
    if 0 <= i < src.len() && src[i] != '\n' {
        comment_end(src, i + 1)
    } else {
        i
    }
}

/// The first position at or after `i` holding a closing quote, or the
/// length: the end of a string literal's body.
pub open spec fn string_body_end(src: Seq<char>, i: int) -> int
    decreases src.len() - i,
{
    if 0 <= i < src.len() && src[i] != '"' {
        string_body_end(src, i + 1)
    } else {
        i
    }
}

/// Counting newlines over `[a, b + 1)` adds the character at `b` to the
/// count over `[a, b)`.
proof fn lemma_newline_count_extend(src: Seq<char>, a: int, b: int)
    requires
        a <= b,
    ensures
        newline_count(src, a, b + 1) == newline_count(src, a, b) + (if src[b] == '\n' {
            1int
        } else {
            0int
        }),
    decreases b - a,
{
    if a < b {
        lemma_newline_count_extend(src, a + 1, b);
        assert(newline_count(src, a, b + 1) == (if src[a] == '\n' {
            1int
        } else {
            0int
        }) + newline_count(src, a + 1, b + 1));
    } else {
        assert(newline_count(src, a + 1, b + 1) == 0);
        assert(newline_count(src, a, b + 1) == (if src[a] == '\n' {
            1int
        } else {
            0int
        }) + newline_count(src, a + 1, b + 1));
        assert(newline_count(src, a, b) == 0);
    }
}

/// How many newline characters `src` holds in the range `[a, b)`.
pub open spec fn newline_count(src: Seq<char>, a: int, b: int) -> int
    decreases b - a,
{
    if a < b {
        (if src[a] == '\n' {
            1int
        } else {
            0int
        }) + newline_count(src, a + 1, b)
    } else {
        0
    }
}

/// The reserved spelling table: which token kind a keyword spelling
/// selects, `None` for every other spelling.
pub open spec fn keyword_kind(s: Seq<char>) -> Option<TokenType> {
    if s == "and"@ {
        Some(TokenType::And)
    } else if s == "class"@ {
        Some(TokenType::Class)
    } else if s == "else"@ {
        Some(TokenType::Else)
    } else if s == "false"@ {
        Some(TokenType::False)
    } else if s == "for"@ {
        Some(TokenType::For)
    } else if s == "fun"@ {
        Some(TokenType::Fun)
    } else if s == "if"@ {
        Some(TokenType::If)
    } else if s == "nil"@ {
        Some(TokenType::Nil)
    } else if s == "or"@ {
        Some(TokenType::Or)
    } else if s == "print"@ {
        Some(TokenType::Print)
    } else if s == "return"@ {
        Some(TokenType::Return)
    } else if s == "super"@ {
        Some(TokenType::Super)
    } else if s == "this"@ {
        Some(TokenType::This)
    } else if s == "true"@ {
        Some(TokenType::True)
    } else if s == "var"@ {
        Some(TokenType::Var)
    } else if s == "while"@ {
        Some(TokenType::While)
    } else {
        None
    }
}

/// The end-of-file sentinel token at line `line`.
pub open spec fn eof_token_view(line: int) -> TokenView {
    TokenView { kind: TokenType::Eof, text: Seq::empty(), literal: LiteralView::Null, line }
}

/// What one dispatch of the scanner does at position `i` on line `line`:
/// emit a token and move on, move on silently, or fail.
pub enum ScanStep {
    Emit { token: TokenView, next: int, line: int },
    Skip { next: int, line: int },
    Fail { err: LoxErrorView },
}

/// A token of `n` characters starting at `i`, carrying no literal payload.
pub open spec fn emit_simple(
    src: Seq<char>,
    i: int,
    line: int,
    kind: TokenType,
    n: int,
) -> ScanStep {
    ScanStep::Emit {
        token: TokenView {
            kind,
            text: src.subrange(i, i + n),
            literal: LiteralView::Null,
            line,
        },
        next: i + n,
        line,
    }
}

/// One dispatch of the scanner on the character at `i`, for `0 <= i <
/// src.len()`: the per-character case analysis of the lexical grammar.
pub open spec fn scan_step(src: Seq<char>, i: int, line: int) -> ScanStep {
    let c = src[i];
    if c == '(' {
        emit_simple(src, i, line, TokenType::LeftParen, 1)
    } else if c == ')' {
        emit_simple(src, i, line, TokenType::RightParen, 1)
    } else if c == '{' {
        emit_simple(src, i, line, TokenType::LeftBrace, 1)
    } else if c == '}' {
        emit_simple(src, i, line, TokenType::RightBrace, 1)
    } else if c == ',' {
        emit_simple(src, i, line, TokenType::Comma, 1)
    } else if c == '.' {
        emit_simple(src, i, line, TokenType::Dot, 1)
    } else if c == '-' {
        emit_simple(src, i, line, TokenType::Minus, 1)
    } else if c == '+' {
        emit_simple(src, i, line, TokenType::Plus, 1)
    } else if c == ';' {
        emit_simple(src, i, line, TokenType::Semicolon, 1)
    } else if c == '*' {
        emit_simple(src, i, line, TokenType::Star, 1)
    } else if c == '!' {
        if i + 1 < src.len() && src[i + 1] == '=' {
            emit_simple(src, i, line, TokenType::BangEqual, 2)
        } else {
            emit_simple(src, i, line, TokenType::Bang, 1)
        }
    } else if c == '=' {
        if i + 1 < src.len() && src[i + 1] == '=' {
            emit_simple(src, i, line, TokenType::EqualEqual, 2)
        } else {
            emit_simple(src, i, line, TokenType::Equal, 1)
        }
    } else if c == '<' {
        if i + 1 < src.len() && src[i + 1] == '=' {
            emit_simple(src, i, line, TokenType::LessEqual, 2)
        } else {
            emit_simple(src, i, line, TokenType::Less, 1)
        }
    } else if c == '>' {
        if i + 1 < src.len() && src[i + 1] == '=' {
            emit_simple(src, i, line, TokenType::GreaterEqual, 2)
        } else {
            emit_simple(src, i, line, TokenType::Greater, 1)
        }
    } else if c == '/' {
        if i + 1 < src.len() && src[i + 1] == '/' {
            ScanStep::Skip { next: comment_end(src, i + 2), line }
        } else {
            emit_simple(src, i, line, TokenType::Slash, 1)
        }
    } else if c == ' ' || c == '\r' || c == '\t' {
        ScanStep::Skip { next: i + 1, line }
    } else if c == '\n' {
        ScanStep::Skip { next: i + 1, line: line + 1 }
    } else if c == '"' {
        let e = string_body_end(src, i + 1);
        if e >= src.len() {
            ScanStep::Fail { err: LoxErrorView::UnterminatedString(line) }
        } else {
            let l2 = line + newline_count(src, i + 1, e);
            ScanStep::Emit {
                token: TokenView {
                    kind: TokenType::Str,
                    text: src.subrange(i, e + 1),
                    literal: LiteralView::Str(src.subrange(i + 1, e)),
                    line: l2,
                },
                next: e + 1,
                line: l2,
            }
        }
    } else if is_digit_char(c) {
        let d1 = digit_run_end(src, i + 1);
        let has_frac = d1 < src.len() && src[d1] == '.' && d1 + 1 < src.len() && is_digit_char(
            src[d1 + 1],
        );
        let end = if has_frac {
            digit_run_end(src, d1 + 1)
        } else {
            d1
        };
        let numeral = if has_frac {
            normal_decimal(src.subrange(i, d1), src.subrange(d1 + 1, end))
        } else {
            normal_decimal(src.subrange(i, d1), Seq::empty())
        };
        ScanStep::Emit {
            token: TokenView {
                kind: TokenType::Number,
                text: numeral,
                literal: LiteralView::Number(numeral),
                line,
            },
            next: end,
            line,
        }
    } else if is_alpha_char(c) {
        let e = ident_run_end(src, i + 1);
        let spelling = src.subrange(i, e);
        let kind = match keyword_kind(spelling) {
            Some(k) => k,
            None => TokenType::Identifier,
        };
        ScanStep::Emit {
            token: TokenView { kind, text: spelling, literal: LiteralView::Null, line },
            next: e,
            line,
        }
    } else {
        ScanStep::Fail { err: LoxErrorView::InvalidCharacter(c) }
    }
}

proof fn lemma_digit_run_end_bounds(src: Seq<char>, i: int)
    ensures
        i <= digit_run_end(src, i),
        i <= src.len() ==> digit_run_end(src, i) <= src.len(),
    decreases src.len() - i,
{
    if 0 <= i < src.len() && is_digit_char(src[i]) {
        lemma_digit_run_end_bounds(src, i + 1);
    }
}

proof fn lemma_ident_run_end_bounds(src: Seq<char>, i: int)
    ensures
        i <= ident_run_end(src, i),
        i <= src.len() ==> ident_run_end(src, i) <= src.len(),
    decreases src.len() - i,
{
    if 0 <= i < src.len() && is_alphanumeric_char(src[i]) {
        lemma_ident_run_end_bounds(src, i + 1);
    }
}

proof fn lemma_comment_end_bounds(src: Seq<char>, i: int)
    ensures
        i <= comment_end(src, i),
        i <= src.len() ==> comment_end(src, i) <= src.len(),
    decreases src.len() - i,
{
    if 0 <= i < src.len() && src[i] != '\n' {
        lemma_comment_end_bounds(src, i + 1);
    }
}

proof fn lemma_string_body_end_bounds(src: Seq<char>, i: int)
    ensures
        i <= string_body_end(src, i),
        i <= src.len() ==> string_body_end(src, i) <= src.len(),
    decreases src.len() - i,
{
    if 0 <= i < src.len() && src[i] != '"' {
        lemma_string_body_end_bounds(src, i + 1);
    }
}

/// The full scan of `src` from position `i` on line `line`: the token
/// sequence the scanner produces from there, closed by the end-of-file
/// sentinel, or the first failure.
pub open spec fn scan_from(src: Seq<char>, i: int, line: int) -> Result<
    Seq<TokenView>,
    LoxErrorView,
>
    decreases src.len() - i
        via scan_from_decreases
{
    if i >= src.len() {
        Ok(seq![eof_token_view(line)])
    } else {
        match scan_step(src, i, line) {
            ScanStep::Emit { token, next, line: l2 } => match scan_from(src, next, l2) {
                Ok(rest) => Ok(seq![token] + rest),
                Err(e) => Err(e),
            },
            ScanStep::Skip { next, line: l2 } => scan_from(src, next, l2),
            ScanStep::Fail { err } => Err(err),
        }
    }
}

#[via_fn]
proof fn scan_from_decreases(src: Seq<char>, i: int, line: int) {
    if i < src.len() {
        lemma_digit_run_end_bounds(src, i + 1);
        lemma_digit_run_end_bounds(src, digit_run_end(src, i + 1) + 1);
        lemma_ident_run_end_bounds(src, i + 1);
        lemma_comment_end_bounds(src, i + 2);
        lemma_string_body_end_bounds(src, i + 1);
    }
}

/// Combines already-emitted tokens with the outcome of the rest of a scan.
pub open spec fn scan_concat(
    prefix: Seq<TokenView>,
    rest: Result<Seq<TokenView>, LoxErrorView>,
) -> Result<Seq<TokenView>, LoxErrorView> {
    match rest {
        Ok(ts) => Ok(prefix + ts),
        Err(e) => Err(e),
    }
}

/// A well-formed token sequence: at least one token, the last one the
/// end-of-file sentinel, and the sentinel nowhere else.
pub open spec fn wf_token_seq(ts: Seq<TokenView>) -> bool {
    &&& ts.len() >= 1
    &&& ts[ts.len() - 1].kind == TokenType::Eof
    &&& forall|k: int| 0 <= k < ts.len() - 1 ==> (#[trigger] ts[k]).kind != TokenType::Eof
}

/// Every successful scan yields a well-formed token sequence: exactly one
/// end-of-file sentinel, standing at the end.
pub proof fn lemma_scan_from_wf(src: Seq<char>, i: int, line: int)
    ensures
        scan_from(src, i, line) matches Ok(ts) ==> wf_token_seq(ts),
    decreases src.len() - i,
{
    if i < src.len() {
        lemma_digit_run_end_bounds(src, i + 1);
        lemma_digit_run_end_bounds(src, digit_run_end(src, i + 1) + 1);
        lemma_ident_run_end_bounds(src, i + 1);
        lemma_comment_end_bounds(src, i + 2);
        lemma_string_body_end_bounds(src, i + 1);
    }
    if i >= src.len() {
    } else {
        match scan_step(src, i, line) {
            ScanStep::Emit { token, next, line: l2 } => {
                lemma_scan_from_wf(src, next, l2);
                assert(token.kind != TokenType::Eof);
                if let Ok(rest) = scan_from(src, next, l2) {
                    let ts = seq![token] + rest;
                    assert(ts[ts.len() - 1] == rest[rest.len() - 1]);
                    assert(forall|k: int|
                        1 <= k < ts.len() - 1 ==> ts[k] == rest[k - 1]);
                }
            },
            ScanStep::Skip { next, line: l2 } => {
                lemma_scan_from_wf(src, next, l2);
            },
            ScanStep::Fail { .. } => {},
        }
    }
}

/// Newlines counted over adjacent ranges add up.
proof fn lemma_newline_count_split(src: Seq<char>, a: int, b: int, c: int)
    requires
        a <= b <= c,
    ensures
        newline_count(src, a, c) == newline_count(src, a, b) + newline_count(src, b, c),
    decreases b - a,
{
    if a < b {
        lemma_newline_count_split(src, a + 1, b, c);
    }
}

/// A line comment's body holds no newline: the count over it is zero.
proof fn lemma_comment_newlines(src: Seq<char>, j: int)
    ensures
        newline_count(src, j, comment_end(src, j)) == 0,
    decreases src.len() - j,
{
    if 0 <= j < src.len() && src[j] != '\n' {
        lemma_comment_newlines(src, j + 1);
    }
}

/// Whether the source from `i` on holds nothing but whitespace and line
/// comments.
pub open spec fn trivia_from(src: Seq<char>, i: int) -> bool
    decreases src.len() - i
        via trivia_from_decreases
{
    if i >= src.len() {
        true
    } else if src[i] == ' ' || src[i] == '\r' || src[i] == '\t' || src[i] == '\n' {
        trivia_from(src, i + 1)
    } else if src[i] == '/' && i + 1 < src.len() && src[i + 1] == '/' {
        trivia_from(src, comment_end(src, i + 2))
    } else {
        false
    }
}

#[via_fn]
proof fn trivia_from_decreases(src: Seq<char>, i: int) {
    lemma_comment_end_bounds(src, i + 2);
}

/// Scanning source text that holds only whitespace and comments yields
/// exactly one token, the end-of-file sentinel, at the line the newlines
/// have reached.
pub proof fn lemma_scan_trivia(src: Seq<char>, i: int, line: int)
    requires
        0 <= i,
        trivia_from(src, i),
    ensures
        scan_from(src, i, line) == Ok::<Seq<TokenView>, LoxErrorView>(
            seq![eof_token_view(line + newline_count(src, i, src.len() as int))],
        ),
    decreases src.len() - i,
{
    if i >= src.len() {
        assert(newline_count(src, i, src.len() as int) == 0);
    } else if src[i] == ' ' || src[i] == '\r' || src[i] == '\t' {
        lemma_scan_trivia(src, i + 1, line);
    } else if src[i] == '\n' {
        lemma_scan_trivia(src, i + 1, line + 1);
    } else {
        let ce = comment_end(src, i + 2);
        lemma_comment_end_bounds(src, i + 2);
        lemma_scan_trivia(src, ce, line);
        lemma_comment_newlines(src, i + 2);
        lemma_newline_count_split(src, i, i + 2, src.len() as int);
        lemma_newline_count_split(src, i + 2, ce, src.len() as int);
        assert(newline_count(src, i + 1, i + 2) == 0) by {
            assert(newline_count(src, i + 2, i + 2) == 0);
        }
        assert(newline_count(src, i, i + 2) == 0);
    }
}

/// A scan that reaches an opening quote with no closing quote anywhere
/// after it fails with the unterminated-string error, carrying the line
/// on which the string began.
pub proof fn lemma_unterminated_string(src: Seq<char>, i: int, line: int)
    requires
        0 <= i < src.len(),
        src[i] == '"',
        string_body_end(src, i + 1) >= src.len(),
    ensures
        scan_from(src, i, line) == Err::<Seq<TokenView>, LoxErrorView>(
            LoxErrorView::UnterminatedString(line),
        ),
{
}

/// Compares two string slices character by character.
fn str_content_eq(a: &str, b: &str) -> (r: bool)
    ensures
        r == (a@ == b@),
{
    let la = a.unicode_len();
    let lb = b.unicode_len();
    if la != lb {
        return false;
    }
    let mut i: usize = 0;
    while i < la
        invariant
            0 <= i <= la,
            la == a@.len(),
            la == b@.len(),
            forall|j: int| 0 <= j < i ==> a@[j] == b@[j],
        decreases la - i,
    {
        if a.get_char(i) != b.get_char(i) {
            return false;
        }
        i = i + 1;
    }
    proof {
        assert(a@ =~= b@);
    }
    true
}

/// Looks a spelling up in the reserved keyword table.
fn keyword(spelling: &str) -> (r: Option<TokenType>)
    ensures
        r == keyword_kind(spelling@),
{
    if str_content_eq(spelling, "and") {
        Some(TokenType::And)
    } else if str_content_eq(spelling, "class") {
        Some(TokenType::Class)
    } else if str_content_eq(spelling, "else") {
        Some(TokenType::Else)
    } else if str_content_eq(spelling, "false") {
        Some(TokenType::False)
    } else if str_content_eq(spelling, "for") {
        Some(TokenType::For)
    } else if str_content_eq(spelling, "fun") {
        Some(TokenType::Fun)
    } else if str_content_eq(spelling, "if") {
        Some(TokenType::If)
    } else if str_content_eq(spelling, "nil") {
        Some(TokenType::Nil)
    } else if str_content_eq(spelling, "or") {
        Some(TokenType::Or)
    } else if str_content_eq(spelling, "print") {
        Some(TokenType::Print)
    } else if str_content_eq(spelling, "return") {
        Some(TokenType::Return)
    } else if str_content_eq(spelling, "super") {
        Some(TokenType::Super)
    } else if str_content_eq(spelling, "this") {
        Some(TokenType::This)
    } else if str_content_eq(spelling, "true") {
        Some(TokenType::True)
    } else if str_content_eq(spelling, "var") {
        Some(TokenType::Var)
    } else if str_content_eq(spelling, "while") {
        Some(TokenType::While)
    } else {
        None
    }
}

/// The scanner object: the source characters, the cursor state of the
/// single-pass scan, and the tokens emitted so far.
pub struct Scanner {
    pub source: String,
    start: usize,
    current: usize,
    line: usize,
    tokens: Vec<Token>,
}

impl Scanner {
    /// The characters of the source text.
    pub closed spec fn spec_source(self) -> Seq<char> {
        self.source@
    }

    /// Beginning of the current lexeme.
    pub closed spec fn spec_start(self) -> int {
        self.start as int
    }

    /// The read cursor: the next character to consume.
    pub closed spec fn spec_current(self) -> int {
        self.current as int
    }

    /// The 1-based line the cursor stands on.
    pub closed spec fn spec_line(self) -> int {
        self.line as int
    }

    /// The tokens emitted so far.
    pub closed spec fn spec_tokens(self) -> Seq<Token> {
        self.tokens@
    }

    /// The cursor state every scanning method maintains.
    pub closed spec fn wf(self) -> bool {
        &&& self.source@.len() < usize::MAX
        &&& self.start <= self.current <= self.source@.len()
        &&& 1 <= self.line <= self.current + 1
    }

    /// Sets up a scan positioned at the first character, on line 1, with
    /// no tokens emitted yet.
    pub fn new(source: String) -> (r: Self)
        requires
            source@.len() < usize::MAX,
        ensures
            r.wf(),
            r.spec_source() == source@,
            r.spec_start() == 0,
            r.spec_current() == 0,
            r.spec_line() == 1,
            r.spec_tokens() == Seq::<Token>::empty(),
    {
        let r = Scanner { source, tokens: Vec::<Token>::new(), start: 0, current: 0, line: 1 };
        proof {
            assert(r.spec_tokens() =~= Seq::<Token>::empty());
        }
        r
    }

    /// Whether the cursor has consumed the whole source.
    pub fn is_at_end(&self) -> (r: bool)
        ensures
            r == (self.spec_current() >= self.spec_source().len()),
    {
        self.current >= self.source.as_str().unicode_len()
    }

    fn is_digit(&self, character: char) -> (r: bool)
        ensures
            r == is_digit_char(character),
    {
        (character as u32) >= ('0' as u32) && (character as u32) <= ('9' as u32)
    }

    fn is_alpha(&self, character: char) -> (r: bool)
        ensures
            r == is_alpha_char(character),
    {
        ((character as u32) >= ('A' as u32) && (character as u32) <= ('Z' as u32)) || ((
        character as u32) >= ('a' as u32) && (character as u32) <= ('z' as u32)) || character
            == '_'
    }

    fn is_alphanumic(&self, character: char) -> (r: bool)
        ensures
            r == is_alphanumeric_char(character),
    {
        self.is_alpha(character) || self.is_digit(character)
    }

    /// The current character, or the null character at the end.
    fn peek(&self) -> (r: char)
        requires
            self.wf(),
        ensures
            r == if self.spec_current() < self.source@.len() {
                self.source@[self.spec_current()]
            } else {
                '\0'
            },
    {
        if self.is_at_end() {
            return '\0';
        }
        self.source.as_str().get_char(self.current)
    }

    /// The character after the current one, or the null character when
    /// fewer than two characters remain.
    pub fn peek_next(&self) -> (r: char)
        requires
            self.wf(),
        ensures
            r == if self.spec_current() + 1 < self.spec_source().len() {
                self.spec_source()[self.spec_current() + 1]
            } else {
                '\0'
            },
    {
        if self.current + 1 >= self.source.as_str().unicode_len() {
            return '\0';
        }
        self.source.as_str().get_char(self.current + 1)
    }

    /// Consumes the current character and returns it.
    pub fn advance(&mut self) -> (r: char)
        requires
            old(self).wf(),
            old(self).spec_current() < old(self).spec_source().len(),
        ensures
            final(self).wf(),
            r == old(self).spec_source()[old(self).spec_current()],
            final(self).spec_current() == old(self).spec_current() + 1,
            final(self).spec_source() == old(self).spec_source(),
            final(self).spec_start() == old(self).spec_start(),
            final(self).spec_line() == old(self).spec_line(),
            final(self).spec_tokens() == old(self).spec_tokens(),
    {
        let res = self.source.as_str().get_char(self.current);
        self.current = self.current + 1;
        res
    }

    /// Consumes the current character exactly when it equals
    /// `expected_char`.
    pub fn match_next(&mut self, expected_char: char) -> (r: bool)
        requires
            old(self).wf(),
        ensures
            final(self).wf(),
            final(self).spec_source() == old(self).spec_source(),
            final(self).spec_start() == old(self).spec_start(),
            final(self).spec_line() == old(self).spec_line(),
            final(self).spec_tokens() == old(self).spec_tokens(),
            if old(self).spec_current() < old(self).spec_source().len() && old(self).spec_source()[old(
                self,
            ).spec_current()] == expected_char {
                r && final(self).spec_current() == old(self).spec_current() + 1
            } else {
                !r && final(self).spec_current() == old(self).spec_current()
            },
    {
        if self.is_at_end() {
            return false;
        }
        if self.source.as_str().get_char(self.current) == expected_char {
            self.current = self.current + 1;
            return true;
        }
        false
    }

    /// The characters of `string_to_work` between the two indices, as an
    /// owned string.
    pub fn substring(&self, string_to_work: &str, start_index: usize, end_index: usize) -> (r:
        String)
        requires
            start_index <= end_index <= string_to_work@.len(),
        ensures
            r@ == string_to_work@.subrange(start_index as int, end_index as int),
    {
        string_to_work.substring_char(start_index, end_index).to_owned()
    }

    /// Emits a token spanning the current lexeme with the given payload.
    pub fn add_token_priv(&mut self, token_type: TokenType, literal: LiteralValue)
        requires
            old(self).wf(),
        ensures
            final(self).wf(),
            final(self).spec_source() == old(self).spec_source(),
            final(self).spec_start() == old(self).spec_start(),
            final(self).spec_current() == old(self).spec_current(),
            final(self).spec_line() == old(self).spec_line(),
            token_views(final(self).spec_tokens()) == token_views(old(self).spec_tokens()).push(
                TokenView {
                    kind: token_type,
                    text: old(self).spec_source().subrange(
                        old(self).spec_start(),
                        old(self).spec_current(),
                    ),
                    literal: literal@,
                    line: old(self).spec_line(),
                },
            ),
    {
        let text = self.substring(self.source.as_str(), self.start, self.current);
        let line = self.line;
        self.tokens.push(Token::new(token_type, text, literal, line));
    }

    /// Emits a token spanning the current lexeme with no literal payload.
    pub fn add_token(&mut self, token_type: TokenType)
        requires
            old(self).wf(),
        ensures
            final(self).wf(),
            final(self).spec_source() == old(self).spec_source(),
            final(self).spec_start() == old(self).spec_start(),
            final(self).spec_current() == old(self).spec_current(),
            final(self).spec_line() == old(self).spec_line(),
            token_views(final(self).spec_tokens()) == token_views(old(self).spec_tokens()).push(
                TokenView {
                    kind: token_type,
                    text: old(self).spec_source().subrange(
                        old(self).spec_start(),
                        old(self).spec_current(),
                    ),
                    literal: LiteralView::Null,
                    line: old(self).spec_line(),
                },
            ),
    {
        self.add_token_priv(token_type, LiteralValue::Null);
    }

    /// Emits a string token spanning the current lexeme, whose payload is
    /// the given content between the quotes.
    pub fn add_token_string(&mut self, token_type: TokenType, literal: String) -> (r: Result<
        (),
        LoxErrors,
    >)
        requires
            old(self).wf(),
        ensures
            final(self).wf(),
            r is Ok,
            final(self).spec_source() == old(self).spec_source(),
            final(self).spec_start() == old(self).spec_start(),
            final(self).spec_current() == old(self).spec_current(),
            final(self).spec_line() == old(self).spec_line(),
            token_views(final(self).spec_tokens()) == token_views(old(self).spec_tokens()).push(
                TokenView {
                    kind: token_type,
                    text: old(self).spec_source().subrange(
                        old(self).spec_start(),
                        old(self).spec_current(),
                    ),
                    literal: LiteralView::Str(literal@),
                    line: old(self).spec_line(),
                },
            ),
    {
        self.add_token_priv(token_type, LiteralValue::Str(literal));
        Ok(())
    }

    /// Emits a number token whose text and payload are the given
    /// normalized numeral.
    pub fn add_token_number(&mut self, token_type: TokenType, literal: String) -> (r: Result<
        (),
        LoxErrors,
    >)
        requires
            old(self).wf(),
        ensures
            final(self).wf(),
            r is Ok,
            final(self).spec_source() == old(self).spec_source(),
            final(self).spec_start() == old(self).spec_start(),
            final(self).spec_current() == old(self).spec_current(),
            final(self).spec_line() == old(self).spec_line(),
            token_views(final(self).spec_tokens()) == token_views(old(self).spec_tokens()).push(
                TokenView {
                    kind: token_type,
                    text: literal@,
                    literal: LiteralView::Number(literal@),
                    line: old(self).spec_line(),
                },
            ),
    {
        let text = literal.clone();
        let line = self.line;
        self.tokens.push(Token::new(token_type, text, LiteralValue::Number(literal), line));
        Ok(())
    }

    /// Scans the rest of a number lexeme whose first digit was just
    /// consumed: a maximal digit run, then at most one decimal point that
    /// is followed by a further digit run, emitted as one number token.
    fn number(&mut self) -> (r: Result<(), LoxErrors>)
        requires
            old(self).wf(),
            old(self).spec_start() < old(self).spec_source().len(),
            old(self).spec_current() == old(self).spec_start() + 1,
        ensures
            final(self).wf(),
            r is Ok,
            final(self).spec_source() == old(self).spec_source(),
            final(self).spec_start() == old(self).spec_start(),
            final(self).spec_line() == old(self).spec_line(),
            ({
                let src = old(self).spec_source();
                let i = old(self).spec_start();
                let d1 = digit_run_end(src, i + 1);
                let has_frac = d1 < src.len() && src[d1] == '.' && d1 + 1 < src.len()
                    && is_digit_char(src[d1 + 1]);
                let end = if has_frac {
                    digit_run_end(src, d1 + 1)
                } else {
                    d1
                };
                let numeral = if has_frac {
                    normal_decimal(src.subrange(i, d1), src.subrange(d1 + 1, end))
                } else {
                    normal_decimal(src.subrange(i, d1), Seq::empty())
                };
                &&& final(self).spec_current() == end
                &&& token_views(final(self).spec_tokens()) == token_views(
                    old(self).spec_tokens(),
                ).push(
                    TokenView {
                        kind: TokenType::Number,
                        text: numeral,
                        literal: LiteralView::Number(numeral),
                        line: old(self).spec_line(),
                    },
                )
            }),
    {
        let ghost src = self.spec_source();
        let ghost c0 = self.spec_current();
        while self.is_digit(self.peek())
            invariant
                self.wf(),
                self.spec_source() == src,
                c0 <= self.spec_current() <= src.len(),
                digit_run_end(src, c0) == digit_run_end(src, self.spec_current()),
                self.spec_start() == old(self).spec_start(),
                self.spec_start() < self.spec_current(),
                self.spec_line() == old(self).spec_line(),
                self.spec_tokens() == old(self).spec_tokens(),
            decreases src.len() - self.spec_current(),
        {
            self.advance();
        }
        let d1pos = self.current;
        let ghost d1 = digit_run_end(src, c0);
        proof {
            assert(d1pos as int == d1);
        }
        let has_frac = self.peek() == '.' && self.is_digit(self.peek_next());
        if has_frac {
            self.advance();
            while self.is_digit(self.peek())
                invariant
                    self.wf(),
                    self.spec_source() == src,
                    d1 + 1 <= self.spec_current() <= src.len(),
                    digit_run_end(src, d1 + 1) == digit_run_end(src, self.spec_current()),
                    self.spec_start() == old(self).spec_start(),
                    self.spec_start() < self.spec_current(),
                    self.spec_line() == old(self).spec_line(),
                    self.spec_tokens() == old(self).spec_tokens(),
                decreases src.len() - self.spec_current(),
            {
                self.advance();
            }
        }
        let whole = self.substring(self.source.as_str(), self.start, d1pos);
        let frac = if has_frac {
            self.substring(self.source.as_str(), d1pos + 1, self.current)
        } else {
            self.substring(self.source.as_str(), d1pos, d1pos)
        };
        let numeral = normal_number_string(whole.as_str(), frac.as_str());
        proof {
            if !(d1 < src.len() && src[d1] == '.' && d1 + 1 < src.len() && is_digit_char(
                src[d1 + 1],
            )) {
                assert(src.subrange(d1, d1) =~= Seq::<char>::empty());
            }
        }
        self.add_token_number(TokenType::Number, numeral)
    }

    /// Scans the rest of an identifier lexeme whose first character was
    /// just consumed, and emits either the keyword token its spelling
    /// selects or an identifier token.
    pub fn identifier(&mut self) -> (r: Result<(), LoxErrors>)
        requires
            old(self).wf(),
            old(self).spec_start() < old(self).spec_source().len(),
            old(self).spec_current() == old(self).spec_start() + 1,
        ensures
            final(self).wf(),
            r is Ok,
            final(self).spec_source() == old(self).spec_source(),
            final(self).spec_start() == old(self).spec_start(),
            final(self).spec_line() == old(self).spec_line(),
            ({
                let src = old(self).spec_source();
                let i = old(self).spec_start();
                let e = ident_run_end(src, i + 1);
                let spelling = src.subrange(i, e);
                let kind = match keyword_kind(spelling) {
                    Some(k) => k,
                    None => TokenType::Identifier,
                };
                &&& final(self).spec_current() == e
                &&& token_views(final(self).spec_tokens()) == token_views(
                    old(self).spec_tokens(),
                ).push(
                    TokenView {
                        kind,
                        text: spelling,
                        literal: LiteralView::Null,
                        line: old(self).spec_line(),
                    },
                )
            }),
    {
        let ghost src = self.spec_source();
        let ghost c0 = self.spec_current();
        while self.is_alphanumic(self.peek())
            invariant
                self.wf(),
                self.spec_source() == src,
                c0 <= self.spec_current() <= src.len(),
                ident_run_end(src, c0) == ident_run_end(src, self.spec_current()),
                self.spec_start() == old(self).spec_start(),
                self.spec_start() < self.spec_current(),
                self.spec_line() == old(self).spec_line(),
                self.spec_tokens() == old(self).spec_tokens(),
            decreases src.len() - self.spec_current(),
        {
            self.advance();
        }
        let value = self.substring(self.source.as_str(), self.start, self.current);
        let special_type = keyword(value.as_str());
        if let Some(val) = special_type {
            self.add_token(val);
        } else {
            self.add_token(TokenType::Identifier);
        }
        Ok(())
    }

    /// Scans the rest of a string literal whose opening quote was just
    /// consumed: its body runs to the closing quote, embedded newlines
    /// advance the line counter, and a source that ends first fails with
    /// the unterminated-string error carrying the line the string began on.
    pub fn string(&mut self) -> (r: Result<(), LoxErrors>)
        requires
            old(self).wf(),
            old(self).spec_start() < old(self).spec_source().len(),
            old(self).spec_current() == old(self).spec_start() + 1,
        ensures
            final(self).wf(),
            final(self).spec_source() == old(self).spec_source(),
            final(self).spec_start() == old(self).spec_start(),
            ({
                let src = old(self).spec_source();
                let i = old(self).spec_start();
                let e = string_body_end(src, i + 1);
                if e >= src.len() {
                    &&& r matches Err(err) && err@ == LoxErrorView::UnterminatedString(
                        old(self).spec_line(),
                    )
                    &&& final(self).spec_tokens() == old(self).spec_tokens()
                } else {
                    let l2 = old(self).spec_line() + newline_count(src, i + 1, e);
                    &&& r is Ok
                    &&& final(self).spec_current() == e + 1
                    &&& final(self).spec_line() == l2
                    &&& token_views(final(self).spec_tokens()) == token_views(
                        old(self).spec_tokens(),
                    ).push(
                        TokenView {
                            kind: TokenType::Str,
                            text: src.subrange(i, e + 1),
                            literal: LiteralView::Str(src.subrange(i + 1, e)),
                            line: l2,
                        },
                    )
                }
            }),
    {
        let start_line = self.line;
        let ghost src = self.spec_source();
        let ghost c0 = self.spec_current();
        while self.peek() != '"' && !self.is_at_end()
            invariant
                self.wf(),
                self.spec_source() == src,
                c0 <= self.spec_current() <= src.len(),
                string_body_end(src, c0) == string_body_end(src, self.spec_current()),
                self.spec_line() == old(self).spec_line() + newline_count(
                    src,
                    c0,
                    self.spec_current(),
                ),
                start_line as int == old(self).spec_line(),
                self.spec_start() == old(self).spec_start(),
                self.spec_start() < self.spec_current(),
                self.spec_tokens() == old(self).spec_tokens(),
            decreases src.len() - self.spec_current(),
        {
            let consumed = self.advance();
            if consumed == '\n' {
                self.line = self.line + 1;
            }
            proof {
                lemma_newline_count_extend(src, c0, self.spec_current() - 1);
            }
        }
        if self.is_at_end() {
            return Err(LoxErrors::UnterminatedString { line: start_line });
        }
        self.advance();
        let value = self.substring(self.source.as_str(), self.start + 1, self.current - 1);
        self.add_token_string(TokenType::Str, value)
    }

    /// Dispatches on one character: emits the token it begins, skips it as
    /// whitespace or a comment, or fails on an invalid character.
    pub fn scan_token(&mut self) -> (r: Result<(), LoxErrors>)
        requires
            old(self).wf(),
            old(self).spec_current() < old(self).spec_source().len(),
            old(self).spec_start() == old(self).spec_current(),
        ensures
            final(self).wf(),
            final(self).spec_source() == old(self).spec_source(),
            match scan_step(
                old(self).spec_source(),
                old(self).spec_current(),
                old(self).spec_line(),
            ) {
                ScanStep::Emit { token, next, line } => {
                    &&& r is Ok
                    &&& final(self).spec_current() == next
                    &&& final(self).spec_line() == line
                    &&& token_views(final(self).spec_tokens()) == token_views(
                        old(self).spec_tokens(),
                    ).push(token)
                },
                ScanStep::Skip { next, line } => {
                    &&& r is Ok
                    &&& final(self).spec_current() == next
                    &&& final(self).spec_line() == line
                    &&& final(self).spec_tokens() == old(self).spec_tokens()
                },
                ScanStep::Fail { err } => r matches Err(e) && e@ == err,
            },
    {
        let ghost src = self.spec_source();
        let character = self.advance();
        match character {
            '(' => self.add_token(TokenType::LeftParen),
            ')' => self.add_token(TokenType::RightParen),
            '{' => self.add_token(TokenType::LeftBrace),
            '}' => self.add_token(TokenType::RightBrace),
            ',' => self.add_token(TokenType::Comma),
            '.' => self.add_token(TokenType::Dot),
            '-' => self.add_token(TokenType::Minus),
            '+' => self.add_token(TokenType::Plus),
            ';' => self.add_token(TokenType::Semicolon),
            '*' => self.add_token(TokenType::Star),
            '!' => {
                if self.match_next('=') {
                    self.add_token(TokenType::BangEqual)
                } else {
                    self.add_token(TokenType::Bang)
                }
            },
            '=' => {
                if self.match_next('=') {
                    self.add_token(TokenType::EqualEqual)
                } else {
                    self.add_token(TokenType::Equal)
                }
            },
            '<' => {
                if self.match_next('=') {
                    self.add_token(TokenType::LessEqual)
                } else {
                    self.add_token(TokenType::Less)
                }
            },
            '>' => {
                if self.match_next('=') {
                    self.add_token(TokenType::GreaterEqual)
                } else {
                    self.add_token(TokenType::Greater)
                }
            },
            '/' => {
                if self.match_next('/') {
                    let ghost c2 = self.spec_current();
                    while self.peek() != '\n' && !self.is_at_end()
                        invariant
                            self.wf(),
                            self.spec_source() == src,
                            c2 <= self.spec_current() <= src.len(),
                            comment_end(src, c2) == comment_end(src, self.spec_current()),
                            self.spec_start() == old(self).spec_start(),
                            self.spec_line() == old(self).spec_line(),
                            self.spec_tokens() == old(self).spec_tokens(),
                        decreases src.len() - self.spec_current(),
                    {
                        self.advance();
                    }
                } else {
                    self.add_token(TokenType::Slash);
                }
            },
            ' ' | '\r' | '\t' => {},
            '\n' => {
                self.line = self.line + 1;
            },
            '"' => {
                return self.string();
            },
            _ => {
                if self.is_digit(character) {
                    return self.number();
                } else if self.is_alpha(character) {
                    return self.identifier();
                }
                return Err(LoxErrors::InvalidCharacter(character));
            },
        }
        Ok(())
    }

    /// Scans the whole remaining source: one [`scan_token`] dispatch per
    /// lexeme, closed by the end-of-file sentinel. The result is exactly
    /// what [`scan_from`] says of the source from the current cursor.
    ///
    /// [`scan_token`]: Scanner::scan_token
    #[verifier::loop_isolation(false)]
    pub fn scan_tokens(&mut self) -> (r: Result<Vec<Token>, LoxErrors>)
        requires
            old(self).wf(),
        ensures
            final(self).wf(),
            final(self).spec_source() == old(self).spec_source(),
            match scan_from(
                old(self).spec_source(),
                old(self).spec_current(),
                old(self).spec_line(),
            ) {
                Ok(ts) => r matches Ok(v) && token_views(v@) == token_views(
                    old(self).spec_tokens(),
                ) + ts,
                Err(e) => r matches Err(err) && err@ == e,
            },
    {
        let ghost src = self.spec_source();
        let ghost goal = scan_concat(
            token_views(old(self).spec_tokens()),
            scan_from(src, old(self).spec_current(), old(self).spec_line()),
        );
        while !self.is_at_end()
            invariant
                self.wf(),
                self.spec_source() == src,
                scan_concat(
                    token_views(self.spec_tokens()),
                    scan_from(src, self.spec_current(), self.spec_line()),
                ) == goal,
            decreases src.len() - self.spec_current(),
        {
            self.start = self.current;
            let ghost cur = self.spec_current();
            let ghost line = self.spec_line();
            let ghost pre = token_views(self.spec_tokens());
            let step_result = self.scan_token();
            proof {
                lemma_digit_run_end_bounds(src, cur + 1);
                lemma_digit_run_end_bounds(src, digit_run_end(src, cur + 1) + 1);
                lemma_ident_run_end_bounds(src, cur + 1);
                lemma_comment_end_bounds(src, cur + 2);
                lemma_string_body_end_bounds(src, cur + 1);
                match scan_step(src, cur, line) {
                    ScanStep::Emit { token, next, line: l2 } => {
                        match scan_from(src, next, l2) {
                            Ok(rest) => {
                                assert(pre + (seq![token] + rest) =~= pre.push(token) + rest);
                            },
                            Err(_) => {},
                        }
                    },
                    ScanStep::Skip { .. } => {},
                    ScanStep::Fail { .. } => {},
                }
            }
            if let Err(e) = step_result {
                return Err(e);
            }
        }
        let ghost pre = token_views(self.spec_tokens());
        let ghost exit_line = self.spec_line();
        let line = self.line;
        self.tokens.push(Token::new(TokenType::Eof, String::new(), LiteralValue::Null, line));
        let result = self.tokens.clone();
        proof {
            assert(token_views(self.spec_tokens()) == pre.push(eof_token_view(exit_line)));
            assert(forall|k: int|
                0 <= k < result@.len() ==> (#[trigger] result@[k])@ == self.spec_tokens()[k]@);
            assert(token_views(result@) =~= token_views(self.spec_tokens()));
            assert(pre.push(eof_token_view(exit_line)) =~= pre + seq![eof_token_view(exit_line)]);
        }
        Ok(result)
    }
}

} // verus!
