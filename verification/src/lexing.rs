//! Lexical analysis: turning a source string into an Eof-terminated
//! sequence of tokens, or the first lexing error.
//!
//! The scanner works over the source's grapheme clusters (user-perceived
//! characters), never raw bytes, so multi-byte characters inside string
//! literals or comments are never split. Its behaviour is specified by
//! `spec_scan`, a recursive function over the sequence of grapheme
//! clusters.

use vstd::prelude::*;
use vstd::string::StrSliceExecFns;
use vstd::string::StringExecFns;

use unicode_segmentation::UnicodeSegmentation;

use crate::num::parse_bits;

verus! {

/// The classification of a token. `Comment`, `Whitespace` and `NewLine` are
/// internal: the scanner filters them out before returning. `Eof` ends
/// every successful scan, exactly once, in last position.
#[derive(Debug, Clone, Copy, PartialEq, Eq, Structural)]
pub enum TokenKind {
    // Single-character tokens
    Comma,
    Dot,
    LeftBrace,
    LeftParen,
    Minus,
    Plus,
    RightBrace,
    RightParen,
    Semicolon,
    Slash,
    Star,
    // Operators
    Bang,
    BangEqual,
    Equal,
    EqualEqual,
    Greater,
    GreaterEqual,
    Less,
    LessEqual,
    // Literals
    Identifier,
    Number,
    String,
    // Keywords
    And,
    Class,
    Else,
    False,
    For,
    Fun,
    If,
    Nil,
    Or,
    Print,
    Return,
    Super,
    This,
    True,
    Var,
    While,
    // Misc and whitespace
    Comment,
    Eof,
    NewLine,
    Whitespace,
}

/// A literal carried by a token or computed by the evaluator. The
/// language's `nil` is the absence of a `LiteralValue` (an `Option` around
/// it), never a variant here. Numbers are IEEE-754 binary64 values carried
/// as their bit patterns (see the `num` module).
#[derive(Debug)]
pub enum LiteralValue {
    Bool(bool),
    Number(u64),
    String(String),
}

/// The mathematical value of a `LiteralValue`.
pub enum LiteralView {
    Bool(bool),
    Number(u64),
    String(Seq<char>),
}

impl View for LiteralValue {
    type V = LiteralView;

    open spec fn view(&self) -> LiteralView {
        match self {
            LiteralValue::Bool(b) => LiteralView::Bool(*b),
            LiteralValue::Number(n) => LiteralView::Number(*n),
            LiteralValue::String(s) => LiteralView::String(s@),
        }
    }
}

impl DeepView for LiteralValue {
    type V = LiteralView;

    open spec fn deep_view(&self) -> LiteralView {
        self@
    }
}

impl Clone for LiteralValue {
    fn clone(&self) -> (r: LiteralValue)
        ensures
            r@ == self@,
    {
        match self {
            LiteralValue::Bool(b) => LiteralValue::Bool(*b),
            LiteralValue::Number(n) => LiteralValue::Number(*n),
            LiteralValue::String(s) => LiteralValue::String(s.clone()),
        }
    }
}

/// A span of source lines: `line_begin == line_end` for single-line
/// tokens, `line_begin < line_end` for string literals that span lines.
#[derive(Debug, Clone, Copy)]
pub struct Loc {
    pub line_begin: usize,
    pub line_end: usize,
}

/// A `Loc` with unbounded line numbers, for specifications.
pub struct LocView {
    pub line_begin: int,
    pub line_end: int,
}

impl View for Loc {
    type V = LocView;

    open spec fn view(&self) -> LocView {
        LocView { line_begin: self.line_begin as int, line_end: self.line_end as int }
    }
}

impl Loc {
    /// A location never ends before it begins.
    pub open spec fn wf(self) -> bool {
        self.line_begin <= self.line_end
    }

    pub fn is_single(&self) -> (r: bool)
        ensures
            r == (self.line_begin == self.line_end),
    {
        self.line_begin == self.line_end
    }

    /// How many lines past its first line the location extends.
    pub fn offset(&self) -> (r: usize)
        requires
            self.wf(),
        ensures
            r == self.line_end - self.line_begin,
    {
        self.line_end - self.line_begin
    }

    pub fn single(number: usize) -> (r: Loc)
        ensures
            r.line_begin == number,
            r.line_end == number,
            r.wf(),
    {
        Loc { line_begin: number, line_end: number }
    }
}

/// A classified, located unit of source text. `lexeme` is the exact source
/// substring the token was scanned from; `literal` is populated only for
/// `Number`, `String`, `True` and `False` tokens.
#[derive(Debug)]
pub struct Token {
    pub kind: TokenKind,
    pub lexeme: String,
    pub literal: Option<LiteralValue>,
    pub loc: Loc,
}

/// The mathematical content of a `Token`.
pub struct TokenView {
    pub kind: TokenKind,
    pub lexeme: Seq<char>,
    pub literal: Option<LiteralView>,
    pub loc: LocView,
}

impl View for Token {
    type V = TokenView;

    open spec fn view(&self) -> TokenView {
        TokenView {
            kind: self.kind,
            lexeme: self.lexeme@,
            literal: match self.literal {
                Option::None => Option::None,
                Option::Some(v) => Option::Some(v@),
            },
            loc: self.loc@,
        }
    }
}

impl DeepView for Token {
    type V = TokenView;

    open spec fn deep_view(&self) -> TokenView {
        self@
    }
}

impl Clone for Token {
    fn clone(&self) -> (r: Token)
        ensures
            r@ == self@,
    {
        Token {
            kind: self.kind,
            lexeme: self.lexeme.clone(),
            literal: match &self.literal {
                Option::None => Option::None,
                Option::Some(v) => Option::Some(v.clone()),
            },
            loc: self.loc,
        }
    }
}

/// Why a scan failed.
#[derive(Debug, Clone, Copy, PartialEq, Eq, Structural)]
pub enum LexingErrorKind {
    /// A grapheme cluster that starts no token.
    UnknownChar,
    /// End of input inside a string literal.
    UnterminatedString,
    /// A second decimal point inside one number literal.
    MalformedNumber,
}

/// A lexing error: the first malformed piece of source text aborts the
/// whole scan. `lexeme` holds the offending text as far as it was read.
#[derive(Debug)]
pub struct LexingError {
    pub kind: LexingErrorKind,
    pub lexeme: String,
    pub line: usize,
}

/// The mathematical content of a `LexingError`.
pub struct LexingErrorView {
    pub kind: LexingErrorKind,
    pub lexeme: Seq<char>,
    pub line: int,
}

impl View for LexingError {
    type V = LexingErrorView;

    open spec fn view(&self) -> LexingErrorView {
        LexingErrorView { kind: self.kind, lexeme: self.lexeme@, line: self.line as int }
    }
}

/// What unicode_segmentation's extended grapheme cluster segmentation
/// yields for this text.
pub uninterp spec fn graphemes_of(s: Seq<char>) -> Seq<Seq<char>>;

/// Relies on unicode_segmentation::UnicodeSegmentation::graphemes with
/// extended clusters: the clusters are consecutive nonempty substrings of
/// the text whose concatenation is the whole text.
#[verifier::external_body]
fn split_graphemes(s: &str) -> (r: Vec<String>)
    ensures
        r.deep_view() == graphemes_of(s@),
        r.deep_view().flatten() == s@,
        forall|k: int| 0 <= k < r.deep_view().len() ==> (#[trigger] r.deep_view()[k]).len() > 0,
{
    s.graphemes(true).map(|g| g.to_string()).collect()
}

/// A sequence of nonempty pieces has no more pieces than its flattening
/// has elements.
proof fn lemma_flatten_len_ge_count(gs: Seq<Seq<char>>)
    requires
        forall|k: int| 0 <= k < gs.len() ==> (#[trigger] gs[k]).len() > 0,
    ensures
        gs.flatten().len() >= gs.len(),
    decreases gs.len(),
{
    if gs.len() > 0 {
        lemma_flatten_len_ge_count(gs.drop_first());
        assert(gs.flatten() == gs.first() + gs.drop_first().flatten());
    }
}

/// The grapheme cluster is the single character `c`.
pub open spec fn is_g(g: Seq<char>, c: char) -> bool {
    g.len() == 1 && g[0] == c
}

/// The grapheme cluster is a single decimal digit.
pub open spec fn is_digit_g(g: Seq<char>) -> bool {
    g.len() == 1 && '0' <= g[0] <= '9'
}

/// The grapheme cluster is a single letter or underscore.
pub open spec fn is_ident_start_g(g: Seq<char>) -> bool {
    g.len() == 1 && (g[0] == '_' || ('a' <= g[0] <= 'z') || ('A' <= g[0] <= 'Z'))
}

/// The grapheme cluster may continue an identifier.
pub open spec fn is_ident_trailing_g(g: Seq<char>) -> bool {
    is_digit_g(g) || is_ident_start_g(g)
}

/// The keyword kind for this identifier text, if it is a keyword.
pub open spec fn spec_keyword_kind(s: Seq<char>) -> Option<TokenKind> {
    if s == "and"@ {
        Option::Some(TokenKind::And)
    } else if s == "class"@ {
        Option::Some(TokenKind::Class)
    } else if s == "else"@ {
        Option::Some(TokenKind::Else)
    } else if s == "false"@ {
        Option::Some(TokenKind::False)
    } else if s == "for"@ {
        Option::Some(TokenKind::For)
    } else if s == "fun"@ {
        Option::Some(TokenKind::Fun)
    } else if s == "if"@ {
        Option::Some(TokenKind::If)
    } else if s == "nil"@ {
        Option::Some(TokenKind::Nil)
    } else if s == "or"@ {
        Option::Some(TokenKind::Or)
    } else if s == "print"@ {
        Option::Some(TokenKind::Print)
    } else if s == "return"@ {
        Option::Some(TokenKind::Return)
    } else if s == "super"@ {
        Option::Some(TokenKind::Super)
    } else if s == "this"@ {
        Option::Some(TokenKind::This)
    } else if s == "true"@ {
        Option::Some(TokenKind::True)
    } else if s == "var"@ {
        Option::Some(TokenKind::Var)
    } else if s == "while"@ {
        Option::Some(TokenKind::While)
    } else {
        Option::None
    }
}

/// Character-by-character equality of two text slices.
fn str_eq(a: &str, b: &str) -> (r: bool)
    ensures
        r == (a@ == b@),
{
    let n = a.unicode_len();
    if n != b.unicode_len() {
        return false;
    }
    let mut k: usize = 0;
    while k < n
        invariant
            0 <= k <= n,
            n == a@.len(),
            n == b@.len(),
            forall|m: int| 0 <= m < k ==> a@[m] == b@[m],
        decreases n - k,
    {
        if a.get_char(k) != b.get_char(k) {
            return false;
        }
        k = k + 1;
    }
    proof {
        assert(a@ =~= b@);
    }
    true
}

/// A token of `kind` whose lexeme is `lexeme`, on the single line `line`.
pub open spec fn single_tok(kind: TokenKind, lexeme: Seq<char>, line: int) -> TokenView {
    TokenView {
        kind,
        lexeme,
        literal: Option::None,
        loc: LocView { line_begin: line, line_end: line },
    }
}

/// The token an identifier or keyword text makes: its kind comes from the
/// keyword table, and `true`/`false` carry their boolean value.
pub open spec fn ident_token(text: Seq<char>, line: int) -> TokenView {
    match spec_keyword_kind(text) {
        Option::Some(kind) => TokenView {
            kind,
            lexeme: text,
            literal: if kind == TokenKind::True {
                Option::Some(LiteralView::Bool(true))
            } else if kind == TokenKind::False {
                Option::Some(LiteralView::Bool(false))
            } else {
                Option::None
            },
            loc: LocView { line_begin: line, line_end: line },
        },
        Option::None => single_tok(TokenKind::Identifier, text, line),
    }
}

/// The token a number text makes: its literal is the binary64 value of the
/// text.
pub open spec fn number_token(text: Seq<char>, line: int) -> TokenView {
    TokenView {
        kind: TokenKind::Number,
        lexeme: text,
        literal: Option::Some(LiteralView::Number(parse_bits(text))),
        loc: LocView { line_begin: line, line_end: line },
    }
}

/// The token a string literal makes: the lexeme is the quoted raw source
/// text, the literal the content with each escaped quote replaced by a
/// quote.
pub open spec fn string_token(raw: Seq<char>, cooked: Seq<char>, line_begin: int, line_end: int) -> TokenView {
    TokenView {
        kind: TokenKind::String,
        lexeme: "\""@ + raw + "\""@,
        literal: Option::Some(LiteralView::String(cooked)),
        loc: LocView { line_begin, line_end },
    }
}

/// The Eof token that ends every successful scan.
pub open spec fn eof_token(line: int) -> TokenView {
    single_tok(TokenKind::Eof, "\0"@, line)
}

/// One scanning step: an identifier or keyword, accumulating trailing
/// identifier graphemes onto `acc`.
pub open spec fn spec_ident(gs: Seq<Seq<char>>, i: int, line: int, acc: Seq<char>) -> Result<
    (TokenView, int, int),
    LexingErrorView,
>
    decreases gs.len() - i,
{
    if i < gs.len() && is_ident_trailing_g(gs[i]) {
        spec_ident(gs, i + 1, line, acc + gs[i])
    } else {
        Result::Ok((ident_token(acc, line), i, line))
    }
}

/// One scanning step: a number literal, accumulating digits and at most
/// one decimal point onto `acc`. A second point is a lexing error.
pub open spec fn spec_number(
    gs: Seq<Seq<char>>,
    i: int,
    line: int,
    acc: Seq<char>,
    has_point: bool,
) -> Result<(TokenView, int, int), LexingErrorView>
    decreases gs.len() - i,
{
    if i < gs.len() && is_digit_g(gs[i]) {
        spec_number(gs, i + 1, line, acc + gs[i], has_point)
    } else if i < gs.len() && is_g(gs[i], '.') {
        if has_point {
            Result::Err(LexingErrorView { kind: LexingErrorKind::MalformedNumber, lexeme: acc, line })
        } else {
            spec_number(gs, i + 1, line, acc + gs[i], true)
        }
    } else {
        Result::Ok((number_token(acc, line), i, line))
    }
}

/// One scanning step: the inside of a string literal, after its opening
/// quote. `raw` accumulates the source text as written, `cooked` the
/// literal value (an escaped quote becomes a quote). Newlines are kept and
/// counted. End of input before the closing quote is a lexing error.
pub open spec fn spec_string(
    gs: Seq<Seq<char>>,
    i: int,
    line_begin: int,
    line_cur: int,
    raw: Seq<char>,
    cooked: Seq<char>,
) -> Result<(TokenView, int, int), LexingErrorView>
    decreases gs.len() - i,
{
    if i >= gs.len() {
        Result::Err(LexingErrorView {
            kind: LexingErrorKind::UnterminatedString,
            lexeme: "\""@ + raw,
            line: line_cur,
        })
    } else if is_g(gs[i], '"') {
        Result::Ok((string_token(raw, cooked, line_begin, line_cur), i + 1, line_cur))
    } else if is_g(gs[i], '\\') && i + 1 < gs.len() && is_g(gs[i + 1], '"') {
        spec_string(gs, i + 2, line_begin, line_cur, raw + gs[i] + gs[i + 1], cooked + gs[i + 1])
    } else if is_g(gs[i], '\n') {
        spec_string(gs, i + 1, line_begin, line_cur + 1, raw + gs[i], cooked + gs[i])
    } else {
        spec_string(gs, i + 1, line_begin, line_cur, raw + gs[i], cooked + gs[i])
    }
}

/// One token scanned at position `i` on line `line`: the token, the
/// position after it, and the line after it.
pub open spec fn spec_token(gs: Seq<Seq<char>>, i: int, line: int) -> Result<
    (TokenView, int, int),
    LexingErrorView,
>
    recommends
        0 <= i < gs.len(),
{
    let g = gs[i];
    if is_g(g, '"') {
        spec_string(gs, i + 1, line, line, Seq::empty(), Seq::empty())
    } else if is_digit_g(g) {
        spec_number(gs, i + 1, line, g, false)
    } else if is_g(g, '.') {
        if i + 1 < gs.len() && is_digit_g(gs[i + 1]) {
            spec_number(gs, i + 1, line, g, true)
        } else {
            Result::Ok((single_tok(TokenKind::Dot, g, line), i + 1, line))
        }
    } else if is_ident_start_g(g) {
        spec_ident(gs, i + 1, line, g)
    } else if is_g(g, ' ') || is_g(g, '\t') || is_g(g, '\r') {
        Result::Ok((single_tok(TokenKind::Whitespace, g, line), i + 1, line))
    } else if is_g(g, '(') {
        Result::Ok((single_tok(TokenKind::LeftParen, g, line), i + 1, line))
    } else if is_g(g, ')') {
        Result::Ok((single_tok(TokenKind::RightParen, g, line), i + 1, line))
    } else if is_g(g, '{') {
        Result::Ok((single_tok(TokenKind::LeftBrace, g, line), i + 1, line))
    } else if is_g(g, '}') {
        Result::Ok((single_tok(TokenKind::RightBrace, g, line), i + 1, line))
    } else if is_g(g, ',') {
        Result::Ok((single_tok(TokenKind::Comma, g, line), i + 1, line))
    } else if is_g(g, '-') {
        Result::Ok((single_tok(TokenKind::Minus, g, line), i + 1, line))
    } else if is_g(g, '+') {
        Result::Ok((single_tok(TokenKind::Plus, g, line), i + 1, line))
    } else if is_g(g, ';') {
        Result::Ok((single_tok(TokenKind::Semicolon, g, line), i + 1, line))
    } else if is_g(g, '*') {
        Result::Ok((single_tok(TokenKind::Star, g, line), i + 1, line))
    } else if is_g(g, '\n') {
        Result::Ok((single_tok(TokenKind::NewLine, g, line), i + 1, line + 1))
    } else if is_g(g, '!') {
        if i + 1 < gs.len() && is_g(gs[i + 1], '=') {
            Result::Ok((single_tok(TokenKind::BangEqual, g + gs[i + 1], line), i + 2, line))
        } else {
            Result::Ok((single_tok(TokenKind::Bang, g, line), i + 1, line))
        }
    } else if is_g(g, '=') {
        if i + 1 < gs.len() && is_g(gs[i + 1], '=') {
            Result::Ok((single_tok(TokenKind::EqualEqual, g + gs[i + 1], line), i + 2, line))
        } else {
            Result::Ok((single_tok(TokenKind::Equal, g, line), i + 1, line))
        }
    } else if is_g(g, '<') {
        if i + 1 < gs.len() && is_g(gs[i + 1], '=') {
            Result::Ok((single_tok(TokenKind::LessEqual, g + gs[i + 1], line), i + 2, line))
        } else {
            Result::Ok((single_tok(TokenKind::Less, g, line), i + 1, line))
        }
    } else if is_g(g, '>') {
        if i + 1 < gs.len() && is_g(gs[i + 1], '=') {
            Result::Ok((single_tok(TokenKind::GreaterEqual, g + gs[i + 1], line), i + 2, line))
        } else {
            Result::Ok((single_tok(TokenKind::Greater, g, line), i + 1, line))
        }
    } else if is_g(g, '/') {
        if i + 1 < gs.len() && is_g(gs[i + 1], '/') {
            Result::Ok((single_tok(TokenKind::Comment, g + gs[i + 1], line), i + 2, line))
        } else {
            Result::Ok((single_tok(TokenKind::Slash, g, line), i + 1, line))
        }
    } else {
        Result::Err(LexingErrorView { kind: LexingErrorKind::UnknownChar, lexeme: g, line })
    }
}

/// The position of the next newline grapheme at or after `i`, or the end:
/// how far a line comment reaches.
pub open spec fn spec_skip_line(gs: Seq<Seq<char>>, i: int) -> int
    decreases gs.len() - i,
{
    if i >= gs.len() || is_g(gs[i], '\n') {
        i
    } else {
        spec_skip_line(gs, i + 1)
    }
}

/// `j` where a step from `i` to `j` stays inside `len` and makes progress,
/// else the harmless `i + 1`. Every scanning and parsing step does make
/// progress (see the bounds lemmas), so this is the identity on the
/// positions that actually occur; it keeps the recursive definitions
/// well-founded.
pub open spec fn clamp_step(len: int, i: int, j: int) -> int {
    if i < j && j <= len {
        j
    } else if i + 1 < len {
        i + 1
    } else {
        len
    }
}

/// These token kinds survive into the scanner's output.
pub open spec fn is_emitted(kind: TokenKind) -> bool {
    !(kind == TokenKind::Whitespace || kind == TokenKind::Comment || kind == TokenKind::NewLine)
}

/// The whole scan from position `i` on line `line`: the emitted tokens,
/// ending with exactly one Eof token, or the first lexing error. Comments
/// discard the remainder of their line.
pub open spec fn spec_scan(gs: Seq<Seq<char>>, i: int, line: int) -> Result<
    Seq<TokenView>,
    LexingErrorView,
>
    decreases gs.len() - i,
{
    if i >= gs.len() {
        Result::Ok(seq![eof_token(line)])
    } else {
        match spec_token(gs, i, line) {
            Result::Err(e) => Result::Err(e),
            Result::Ok((t, j, line2)) => {
                let j2 = if t.kind == TokenKind::Comment {
                    spec_skip_line(gs, j)
                } else {
                    j
                };
                match spec_scan(gs, clamp_step(gs.len() as int, i, j2), line2) {
                    Result::Err(e) => Result::Err(e),
                    Result::Ok(rest) => Result::Ok(
                        if is_emitted(t.kind) {
                            seq![t] + rest
                        } else {
                            rest
                        },
                    ),
                }
            }
        }
    }
}

/// An identifier step stays inside the input, keeps its line, and emits no
/// Eof.
pub proof fn lemma_ident_bounds(gs: Seq<Seq<char>>, i: int, line: int, acc: Seq<char>)
    requires
        0 <= i <= gs.len(),
    ensures
        spec_ident(gs, i, line, acc) matches Result::Ok((t, j, l)) ==> i <= j <= gs.len() && l
            == line && t.kind != TokenKind::Eof,
    decreases gs.len() - i,
{
    if i < gs.len() && is_ident_trailing_g(gs[i]) {
        lemma_ident_bounds(gs, i + 1, line, acc + gs[i]);
    }
}

/// A number step stays inside the input, keeps its line, and emits no Eof.
pub proof fn lemma_number_bounds(gs: Seq<Seq<char>>, i: int, line: int, acc: Seq<char>, has_point: bool)
    requires
        0 <= i <= gs.len(),
    ensures
        spec_number(gs, i, line, acc, has_point) matches Result::Ok((t, j, l)) ==> i <= j
            <= gs.len() && l == line && t.kind != TokenKind::Eof,
    decreases gs.len() - i,
{
    if i < gs.len() && is_digit_g(gs[i]) {
        lemma_number_bounds(gs, i + 1, line, acc + gs[i], has_point);
    } else if i < gs.len() && is_g(gs[i], '.') && !has_point {
        lemma_number_bounds(gs, i + 1, line, acc + gs[i], true);
    }
}

/// A string step stays inside the input, moves its line forward by at most
/// one per grapheme consumed, and emits no Eof.
pub proof fn lemma_string_bounds(
    gs: Seq<Seq<char>>,
    i: int,
    line_begin: int,
    line_cur: int,
    raw: Seq<char>,
    cooked: Seq<char>,
)
    requires
        0 <= i <= gs.len(),
    ensures
        spec_string(gs, i, line_begin, line_cur, raw, cooked) matches Result::Ok((t, j, l)) ==> i
            < j <= gs.len() && line_cur <= l <= line_cur + (j - i) && t.kind != TokenKind::Eof,
    decreases gs.len() - i,
{
    if i >= gs.len() {
    } else if is_g(gs[i], '"') {
    } else if is_g(gs[i], '\\') && i + 1 < gs.len() && is_g(gs[i + 1], '"') {
        lemma_string_bounds(gs, i + 2, line_begin, line_cur, raw + gs[i] + gs[i + 1], cooked + gs[i + 1]);
    } else if is_g(gs[i], '\n') {
        lemma_string_bounds(gs, i + 1, line_begin, line_cur + 1, raw + gs[i], cooked + gs[i]);
    } else {
        lemma_string_bounds(gs, i + 1, line_begin, line_cur, raw + gs[i], cooked + gs[i]);
    }
}

/// A successful token step consumes at least one grapheme, stays inside
/// the input, moves its line forward by at most one per grapheme consumed,
/// and emits no Eof.
pub proof fn lemma_token_bounds(gs: Seq<Seq<char>>, i: int, line: int)
    requires
        0 <= i < gs.len(),
    ensures
        spec_token(gs, i, line) matches Result::Ok((t, j, l)) ==> i < j <= gs.len() && line <= l
            <= line + (j - i) && t.kind != TokenKind::Eof,
{
    let g = gs[i];
    if is_g(g, '"') {
        lemma_string_bounds(gs, i + 1, line, line, Seq::empty(), Seq::empty());
    } else if is_digit_g(g) {
        lemma_number_bounds(gs, i + 1, line, g, false);
    } else if is_g(g, '.') {
        if i + 1 < gs.len() && is_digit_g(gs[i + 1]) {
            lemma_number_bounds(gs, i + 1, line, g, true);
        }
    } else if is_ident_start_g(g) {
        lemma_ident_bounds(gs, i + 1, line, g);
    }
}

/// The skipped stretch of a comment stays inside the input.
pub proof fn lemma_skip_line_bounds(gs: Seq<Seq<char>>, i: int)
    requires
        0 <= i <= gs.len(),
    ensures
        i <= spec_skip_line(gs, i) <= gs.len(),
    decreases gs.len() - i,
{
    if i < gs.len() && !is_g(gs[i], '\n') {
        lemma_skip_line_bounds(gs, i + 1);
    }
}

/// Scanning an identifier depends only on the graphemes it reads: moved to
/// another position, another line and another input that holds the same
/// graphemes and then ends, it gives the same text back.
proof fn lemma_ident_shift(
    gs: Seq<Seq<char>>,
    i: int,
    line: int,
    acc: Seq<char>,
    gs2: Seq<Seq<char>>,
    i2: int,
    line2: int,
)
    requires
        0 <= i <= gs.len(),
        0 <= i2 <= gs2.len(),
        spec_ident(gs, i, line, acc) matches Result::Ok((t, j, l)) && gs2.len() - i2 == j - i,
        forall|m: int| i2 <= m < gs2.len() ==> #[trigger] gs2[m] == gs[i + (m - i2)],
    ensures
        ({
            let (t, j, l) = spec_ident(gs, i, line, acc)->Ok_0;
            let r2 = spec_ident(gs2, i2, line2, acc);
            &&& r2 is Ok
            &&& r2->Ok_0.0.kind == t.kind
            &&& r2->Ok_0.0.lexeme == t.lexeme
            &&& r2->Ok_0.0.literal == t.literal
            &&& r2->Ok_0.1 == i2 + (j - i)
            &&& r2->Ok_0.2 == line2
        }),
    decreases gs.len() - i,
{
    lemma_ident_bounds(gs, i, line, acc);
    if i < gs.len() && is_ident_trailing_g(gs[i]) {
        lemma_ident_bounds(gs, i + 1, line, acc + gs[i]);
        assert(gs2[i2] == gs[i]);
        lemma_ident_shift(gs, i + 1, line, acc + gs[i], gs2, i2 + 1, line2);
    }
}

/// Scanning a number depends only on the graphemes it reads: moved to
/// another position, another line and another input that holds the same
/// graphemes and then ends, it gives the same text back.
proof fn lemma_number_shift(
    gs: Seq<Seq<char>>,
    i: int,
    line: int,
    acc: Seq<char>,
    has_point: bool,
    gs2: Seq<Seq<char>>,
    i2: int,
    line2: int,
)
    requires
        0 <= i <= gs.len(),
        0 <= i2 <= gs2.len(),
        spec_number(gs, i, line, acc, has_point) matches Result::Ok((t, j, l)) && gs2.len() - i2
            == j - i,
        forall|m: int| i2 <= m < gs2.len() ==> #[trigger] gs2[m] == gs[i + (m - i2)],
    ensures
        ({
            let (t, j, l) = spec_number(gs, i, line, acc, has_point)->Ok_0;
            let r2 = spec_number(gs2, i2, line2, acc, has_point);
            &&& r2 is Ok
            &&& r2->Ok_0.0.kind == t.kind
            &&& r2->Ok_0.0.lexeme == t.lexeme
            &&& r2->Ok_0.0.literal == t.literal
            &&& r2->Ok_0.1 == i2 + (j - i)
            &&& r2->Ok_0.2 == line2
        }),
    decreases gs.len() - i,
{
    lemma_number_bounds(gs, i, line, acc, has_point);
    if i < gs.len() && is_digit_g(gs[i]) {
        lemma_number_bounds(gs, i + 1, line, acc + gs[i], has_point);
        assert(gs2[i2] == gs[i]);
        lemma_number_shift(gs, i + 1, line, acc + gs[i], has_point, gs2, i2 + 1, line2);
    } else if i < gs.len() && is_g(gs[i], '.') && !has_point {
        lemma_number_bounds(gs, i + 1, line, acc + gs[i], true);
        assert(gs2[i2] == gs[i]);
        lemma_number_shift(gs, i + 1, line, acc + gs[i], true, gs2, i2 + 1, line2);
    }
}

/// Scanning a string literal depends only on the graphemes it reads: moved
/// to another position and other lines, over the same graphemes, it gives
/// the same lexeme and literal back.
proof fn lemma_string_shift(
    gs: Seq<Seq<char>>,
    i: int,
    line_begin: int,
    line_cur: int,
    raw: Seq<char>,
    cooked: Seq<char>,
    gs2: Seq<Seq<char>>,
    i2: int,
    lb2: int,
    lc2: int,
)
    requires
        0 <= i <= gs.len(),
        0 <= i2 <= gs2.len(),
        spec_string(gs, i, line_begin, line_cur, raw, cooked) matches Result::Ok((t, j, l))
            && gs2.len() - i2 >= j - i,
        forall|m: int|
            i2 <= m < i2 + (j_of_string(gs, i, line_begin, line_cur, raw, cooked) - i)
                ==> #[trigger] gs2[m] == gs[i + (m - i2)],
    ensures
        ({
            let (t, j, l) = spec_string(gs, i, line_begin, line_cur, raw, cooked)->Ok_0;
            spec_string(gs2, i2, lb2, lc2, raw, cooked) matches Result::Ok((t2, j2, l2))
                && t2.kind == t.kind && t2.lexeme == t.lexeme && t2.literal == t.literal && j2 == i2
                + (j - i) && l2 == lc2 + (l - line_cur)
        }),
    decreases gs.len() - i,
{
    lemma_string_bounds(gs, i, line_begin, line_cur, raw, cooked);
    if i >= gs.len() {
    } else if is_g(gs[i], '"') {
        assert(gs2[i2] == gs[i]);
    } else if is_g(gs[i], '\\') && i + 1 < gs.len() && is_g(gs[i + 1], '"') {
        lemma_string_bounds(gs, i + 2, line_begin, line_cur, raw + gs[i] + gs[i + 1], cooked + gs[i + 1]);
        assert(gs2[i2] == gs[i]);
        assert(gs2[i2 + 1] == gs[i + 1]);
        lemma_string_shift(
            gs,
            i + 2,
            line_begin,
            line_cur,
            raw + gs[i] + gs[i + 1],
            cooked + gs[i + 1],
            gs2,
            i2 + 2,
            lb2,
            lc2,
        );
    } else if is_g(gs[i], '\n') {
        lemma_string_bounds(gs, i + 1, line_begin, line_cur + 1, raw + gs[i], cooked + gs[i]);
        assert(gs2[i2] == gs[i]);
        lemma_string_shift(
            gs,
            i + 1,
            line_begin,
            line_cur + 1,
            raw + gs[i],
            cooked + gs[i],
            gs2,
            i2 + 1,
            lb2,
            lc2 + 1,
        );
    } else {
        lemma_string_bounds(gs, i + 1, line_begin, line_cur, raw + gs[i], cooked + gs[i]);
        assert(gs2[i2] == gs[i]);
        lemma_string_shift(
            gs,
            i + 1,
            line_begin,
            line_cur,
            raw + gs[i],
            cooked + gs[i],
            gs2,
            i2 + 1,
            lb2,
            lc2,
        );
    }
}

/// The position after a successfully scanned string literal.
pub open spec fn j_of_string(
    gs: Seq<Seq<char>>,
    i: int,
    line_begin: int,
    line_cur: int,
    raw: Seq<char>,
    cooked: Seq<char>,
) -> int {
    match spec_string(gs, i, line_begin, line_cur, raw, cooked) {
        Result::Ok((t, j, l)) => j,
        Result::Err(_) => i,
    }
}

/// Law: scanning is idempotent on lexemes. Every token the scanner emits,
/// other than the Eof token that closes the stream, scans back to itself:
/// scanning exactly the grapheme clusters the token was read from, as a
/// fresh input, yields one token of the same kind, the same lexeme and the
/// same literal value, followed by the closing Eof token.
#[verifier::rlimit(100)]
pub proof fn lemma_rescan_token(gs: Seq<Seq<char>>, i: int, line: int)
    requires
        0 <= i < gs.len(),
        spec_token(gs, i, line) matches Result::Ok((t, j, l)) && is_emitted(t.kind),
    ensures
        ({
            let (t, j, l) = spec_token(gs, i, line)->Ok_0;
            let rescan = spec_scan(gs.subrange(i, j), 0, 1);
            &&& rescan is Ok
            &&& rescan->Ok_0.len() == 2
            &&& rescan->Ok_0[0].kind == t.kind
            &&& rescan->Ok_0[0].lexeme == t.lexeme
            &&& rescan->Ok_0[0].literal == t.literal
            &&& rescan->Ok_0[1].kind == TokenKind::Eof
        }),
{
    let (t, j, l) = spec_token(gs, i, line)->Ok_0;
    lemma_token_bounds(gs, i, line);
    let sub = gs.subrange(i, j);
    let g = gs[i];
    assert(sub[0] == g);
    assert(forall|k: int| 0 <= k < j - i ==> sub[k] == gs[i + k]);
    if is_g(g, '"') {
        lemma_string_bounds(gs, i + 1, line, line, Seq::empty(), Seq::empty());
        lemma_string_shift(gs, i + 1, line, line, Seq::empty(), Seq::empty(), sub, 1, 1, 1);
        assert(spec_token(sub, 0, 1) == spec_string(sub, 1, 1, 1, Seq::empty(), Seq::empty()));
        assert(spec_token(sub, 0, 1) is Ok);
        assert(spec_token(sub, 0, 1)->Ok_0.0.kind == t.kind);
        assert(spec_token(sub, 0, 1)->Ok_0.0.lexeme == t.lexeme);
        assert(spec_token(sub, 0, 1)->Ok_0.0.literal == t.literal);
        assert(0 < spec_token(sub, 0, 1)->Ok_0.1);
        assert(spec_token(sub, 0, 1)->Ok_0.1 == sub.len());
    } else if is_digit_g(g) {
        lemma_number_shift(gs, i + 1, line, g, false, sub, 1, 1);
        assert(spec_token(sub, 0, 1) == spec_number(sub, 1, 1, sub[0], false));
        assert(spec_token(sub, 0, 1) is Ok);
        assert(spec_token(sub, 0, 1)->Ok_0.0.kind == t.kind);
        assert(spec_token(sub, 0, 1)->Ok_0.0.lexeme == t.lexeme);
        assert(spec_token(sub, 0, 1)->Ok_0.0.literal == t.literal);
        assert(0 < spec_token(sub, 0, 1)->Ok_0.1);
        assert(spec_token(sub, 0, 1)->Ok_0.1 == sub.len());
    } else if is_g(g, '.') {
        if i + 1 < gs.len() && is_digit_g(gs[i + 1]) {
            lemma_number_bounds(gs, i + 2, line, g + gs[i + 1], true);
            assert(spec_number(gs, i + 1, line, g, true) == spec_number(
                gs,
                i + 2,
                line,
                g + gs[i + 1],
                true,
            ));
            assert(sub[1] == gs[i + 1]);
            lemma_number_shift(gs, i + 1, line, g, true, sub, 1, 1);
            assert(spec_token(sub, 0, 1) == spec_number(sub, 1, 1, sub[0], true));
            assert(spec_token(sub, 0, 1) is Ok);
            assert(spec_token(sub, 0, 1)->Ok_0.0.kind == t.kind);
            assert(spec_token(sub, 0, 1)->Ok_0.0.lexeme == t.lexeme);
            assert(spec_token(sub, 0, 1)->Ok_0.0.literal == t.literal);
            assert(0 < spec_token(sub, 0, 1)->Ok_0.1);
            assert(spec_token(sub, 0, 1)->Ok_0.1 == sub.len());
        } else {
            assert(sub.len() == 1);
            assert(spec_token(sub, 0, 1) is Ok);
            assert(spec_token(sub, 0, 1)->Ok_0.0.kind == t.kind);
            assert(spec_token(sub, 0, 1)->Ok_0.0.lexeme == t.lexeme);
            assert(spec_token(sub, 0, 1)->Ok_0.0.literal == t.literal);
            assert(0 < spec_token(sub, 0, 1)->Ok_0.1);
            assert(spec_token(sub, 0, 1)->Ok_0.1 == sub.len());
        }
    } else if is_ident_start_g(g) {
        lemma_ident_shift(gs, i + 1, line, g, sub, 1, 1);
        assert(spec_token(sub, 0, 1) == spec_ident(sub, 1, 1, sub[0]));
        assert(spec_token(sub, 0, 1) is Ok);
        assert(spec_token(sub, 0, 1)->Ok_0.0.kind == t.kind);
        assert(spec_token(sub, 0, 1)->Ok_0.0.lexeme == t.lexeme);
        assert(spec_token(sub, 0, 1)->Ok_0.0.literal == t.literal);
        assert(0 < spec_token(sub, 0, 1)->Ok_0.1);
        assert(spec_token(sub, 0, 1)->Ok_0.1 == sub.len());
    } else {
        // single- and two-grapheme tokens: the subrange holds exactly the
        // one or two graphemes, and the same dispatch decides again
        if j == i + 2 {
            assert(sub[1] == gs[i + 1]);
            assert(spec_token(sub, 0, 1) is Ok);
            assert(spec_token(sub, 0, 1)->Ok_0.0.kind == t.kind);
            assert(spec_token(sub, 0, 1)->Ok_0.0.lexeme == t.lexeme);
            assert(spec_token(sub, 0, 1)->Ok_0.0.literal == t.literal);
            assert(0 < spec_token(sub, 0, 1)->Ok_0.1);
            assert(spec_token(sub, 0, 1)->Ok_0.1 == sub.len());
        } else {
            assert(sub.len() == 1);
            assert(spec_token(sub, 0, 1) is Ok);
            assert(spec_token(sub, 0, 1)->Ok_0.0.kind == t.kind);
            assert(spec_token(sub, 0, 1)->Ok_0.0.lexeme == t.lexeme);
            assert(spec_token(sub, 0, 1)->Ok_0.0.literal == t.literal);
            assert(0 < spec_token(sub, 0, 1)->Ok_0.1);
            assert(spec_token(sub, 0, 1)->Ok_0.1 == sub.len());
        }
    }
    assert(spec_token(sub, 0, 1) is Ok);
    let (t2, j2, l2) = spec_token(sub, 0, 1)->Ok_0;
    assert(t2.kind == t.kind && t2.lexeme == t.lexeme && t2.literal == t.literal);
    assert(0 < j2 && j2 == sub.len());
    assert(clamp_step(sub.len() as int, 0, j2) == j2);
    assert(spec_scan(sub, j2, l2) == Result::Ok::<Seq<TokenView>, LexingErrorView>(
        seq![eof_token(l2)],
    ));
    assert(spec_scan(sub, 0, 1) == Result::Ok::<Seq<TokenView>, LexingErrorView>(
        seq![t2] + seq![eof_token(l2)],
    ));
    assert((seq![t2] + seq![eof_token(l2)]).len() == 2);
    assert((seq![t2] + seq![eof_token(l2)])[0] == t2);
    assert((seq![t2] + seq![eof_token(l2)])[1] == eof_token(l2));
}

/// The source of one scan.
#[derive(Debug)]
pub struct Scanner {
    source: String,
}

impl View for Scanner {
    type V = Seq<char>;

    closed spec fn view(&self) -> Seq<char> {
        self.source@
    }
}

impl Scanner {
    pub fn new(source: String) -> (r: Scanner)
        ensures
            r@ == source@,
    {
        Scanner { source }
    }

    fn grapheme_is(g: &str, c: char) -> (r: bool)
        ensures
            r == is_g(g@, c),
    {
        g.unicode_len() == 1 && g.get_char(0) == c
    }

    fn is_digit(grapheme: &str) -> (r: bool)
        ensures
            r == is_digit_g(grapheme@),
    {
        if grapheme.unicode_len() != 1 {
            return false;
        }
        let c = grapheme.get_char(0);
        '0' <= c && c <= '9'
    }

    fn is_ident_start(grapheme: &str) -> (r: bool)
        ensures
            r == is_ident_start_g(grapheme@),
    {
        if grapheme.unicode_len() != 1 {
            return false;
        }
        let c = grapheme.get_char(0);
        c == '_' || ('a' <= c && c <= 'z') || ('A' <= c && c <= 'Z')
    }

    fn is_ident_trailing(grapheme: &str) -> (r: bool)
        ensures
            r == is_ident_trailing_g(grapheme@),
    {
        Scanner::is_digit(grapheme) || Scanner::is_ident_start(grapheme)
    }

    fn get_keyword_kind(text: &str) -> (r: Option<TokenKind>)
        ensures
            r == spec_keyword_kind(text@),
    {
        if str_eq(text, "and") {
            Option::Some(TokenKind::And)
        } else if str_eq(text, "class") {
            Option::Some(TokenKind::Class)
        } else if str_eq(text, "else") {
            Option::Some(TokenKind::Else)
        } else if str_eq(text, "false") {
            Option::Some(TokenKind::False)
        } else if str_eq(text, "for") {
            Option::Some(TokenKind::For)
        } else if str_eq(text, "fun") {
            Option::Some(TokenKind::Fun)
        } else if str_eq(text, "if") {
            Option::Some(TokenKind::If)
        } else if str_eq(text, "nil") {
            Option::Some(TokenKind::Nil)
        } else if str_eq(text, "or") {
            Option::Some(TokenKind::Or)
        } else if str_eq(text, "print") {
            Option::Some(TokenKind::Print)
        } else if str_eq(text, "return") {
            Option::Some(TokenKind::Return)
        } else if str_eq(text, "super") {
            Option::Some(TokenKind::Super)
        } else if str_eq(text, "this") {
            Option::Some(TokenKind::This)
        } else if str_eq(text, "true") {
            Option::Some(TokenKind::True)
        } else if str_eq(text, "var") {
            Option::Some(TokenKind::Var)
        } else if str_eq(text, "while") {
            Option::Some(TokenKind::While)
        } else {
            Option::None
        }
    }

    /// Scan an identifier or keyword whose first grapheme stands at
    /// `start`, returning the token and the position after it.
    fn parse_identifier(gs: &Vec<String>, start: usize, line: usize) -> (r: (Token, usize))
        requires
            start < gs@.len(),
            gs@.len() < usize::MAX,
        ensures
            spec_ident(gs.deep_view(), start + 1, line as int, gs.deep_view()[start as int])
                == Result::Ok::<(TokenView, int, int), LexingErrorView>((r.0@, r.1 as int, line as int)),
            start < r.1 <= gs@.len(),
    {
        let ghost gv = gs.deep_view();
        let mut acc: String = gs[start].clone();
        let mut j: usize = start + 1;
        proof {
            assert(gv[start as int] == gs@[start as int]@);
            assert(acc@ == gv[start as int]);
        }
        loop
            invariant
                start < j <= gs@.len(),
                gs@.len() < usize::MAX,
                gv == gs.deep_view(),
                spec_ident(gv, j as int, line as int, acc@) == spec_ident(
                    gv,
                    start + 1,
                    line as int,
                    gv[start as int],
                ),
            decreases gs@.len() - j,
        {
            proof {
                if j < gs@.len() {
                    assert(gv[j as int] == gs@[j as int]@);
                }
            }
            if j < gs.len() && Scanner::is_ident_trailing(gs[j].as_str()) {
                acc.append(gs[j].as_str());
                j = j + 1;
            } else {
                let kind = match Scanner::get_keyword_kind(acc.as_str()) {
                    Option::Some(k) => k,
                    Option::None => TokenKind::Identifier,
                };
                let literal = if kind == TokenKind::True {
                    Option::Some(LiteralValue::Bool(true))
                } else if kind == TokenKind::False {
                    Option::Some(LiteralValue::Bool(false))
                } else {
                    Option::None
                };
                let token = Token { kind, lexeme: acc, literal, loc: Loc::single(line) };
                return (token, j);
            }
        }
    }

    /// Scan a number literal whose first grapheme (a digit, or the point of
    /// a number such as `.5`) stands at `start`.
    fn parse_number_literal(gs: &Vec<String>, start: usize, line: usize, has_point: bool) -> (r: Result<
        (Token, usize),
        LexingError,
    >)
        requires
            start < gs@.len(),
            gs@.len() < usize::MAX,
            (!has_point && is_digit_g(gs.deep_view()[start as int])) || (has_point && is_g(
                gs.deep_view()[start as int],
                '.',
            ) && start + 1 < gs@.len() && is_digit_g(gs.deep_view()[start + 1])),
        ensures
            ({
                let s = spec_number(
                    gs.deep_view(),
                    start + 1,
                    line as int,
                    gs.deep_view()[start as int],
                    has_point,
                );
                match r {
                    Result::Ok((t, j)) => s == Result::Ok::<(TokenView, int, int), LexingErrorView>(
                        (t@, j as int, line as int),
                    ) && start < j <= gs@.len(),
                    Result::Err(e) => s == Result::Err::<(TokenView, int, int), LexingErrorView>(e@),
                }
            }),
    {
        let ghost gv = gs.deep_view();
        let mut acc: String = gs[start].clone();
        let mut j: usize = start + 1;
        let mut point_seen: bool = has_point;
        proof {
            assert(gv[start as int] == gs@[start as int]@);
            assert(acc@.len() == 1);
            if has_point {
                assert(acc@[0] == '.');
                assert(gv[start + 1] == gs@[start + 1]@);
            } else {
                assert('0' <= acc@[0] <= '9');
                assert(exists|k: int| 0 <= k < acc@.len() && '0' <= #[trigger] acc@[k] <= '9');
            }
        }
        loop
            invariant
                start < j <= gs@.len(),
                gs@.len() < usize::MAX,
                gv == gs.deep_view(),
                spec_number(gv, j as int, line as int, acc@, point_seen) == spec_number(
                    gv,
                    start + 1,
                    line as int,
                    gv[start as int],
                    has_point,
                ),
                acc@.len() > 0,
                forall|k: int| 0 <= k < acc@.len() ==> ('0' <= #[trigger] acc@[k] <= '9' || acc@[k] == '.'),
                point_seen == exists|k: int| 0 <= k < acc@.len() && #[trigger] acc@[k] == '.',
                forall|k1: int, k2: int|
                    0 <= k1 < k2 < acc@.len() && #[trigger] acc@[k1] == '.' ==> #[trigger] acc@[k2]
                        != '.',
                (exists|k: int| 0 <= k < acc@.len() && '0' <= #[trigger] acc@[k] <= '9') || (
                acc@.len() == 1 && acc@[0] == '.' && j < gs@.len() && is_digit_g(gv[j as int])),
            decreases gs@.len() - j,
        {
            proof {
                if j < gs@.len() {
                    assert(gv[j as int] == gs@[j as int]@);
                }
            }
            if j < gs.len() && Scanner::is_digit(gs[j].as_str()) {
                let ghost acc0 = acc@;
                let ghost seen0 = point_seen;
                acc.append(gs[j].as_str());
                j = j + 1;
                proof {
                    assert(acc@ =~= acc0 + gv[j - 1]);
                    assert(acc@.len() == acc0.len() + 1);
                    assert(forall|k: int| 0 <= k < acc0.len() ==> #[trigger] acc@[k] == acc0[k]);
                    assert('0' <= acc@[acc@.len() - 1] <= '9');
                    assert(exists|k: int| 0 <= k < acc@.len() && '0' <= #[trigger] acc@[k] <= '9');
                    if seen0 {
                        let k0 = choose|k: int| 0 <= k < acc0.len() && #[trigger] acc0[k] == '.';
                        assert(acc@[k0] == '.');
                    } else {
                        assert(forall|k: int| 0 <= k < acc0.len() ==> #[trigger] acc0[k] != '.');
                        assert forall|k: int| 0 <= k < acc@.len() implies #[trigger] acc@[k]
                            != '.' by {
                            if k < acc0.len() {
                                assert(acc@[k] == acc0[k]);
                            } else {
                                assert(k == acc@.len() - 1);
                            }
                        }
                    }
                }
            } else if j < gs.len() && Scanner::grapheme_is(gs[j].as_str(), '.') {
                if point_seen {
                    return Result::Err(
                        LexingError { kind: LexingErrorKind::MalformedNumber, lexeme: acc, line },
                    );
                }
                let ghost acc0 = acc@;
                proof {
                    assert(forall|k: int| 0 <= k < acc0.len() ==> #[trigger] acc0[k] != '.');
                    assert(exists|k: int| 0 <= k < acc0.len() && '0' <= #[trigger] acc0[k] <= '9');
                }
                acc.append(gs[j].as_str());
                j = j + 1;
                point_seen = true;
                proof {
                    assert(acc@ =~= acc0 + gv[j - 1]);
                    assert(acc@.len() == acc0.len() + 1);
                    assert(forall|k: int| 0 <= k < acc0.len() ==> #[trigger] acc@[k] == acc0[k]);
                    assert(acc@[acc@.len() - 1] == '.');
                    let k0 = choose|k: int| 0 <= k < acc0.len() && '0' <= #[trigger] acc0[k] <= '9';
                    assert('0' <= acc@[k0] <= '9');
                    assert forall|k1: int, k2: int|
                        0 <= k1 < k2 < acc@.len() && #[trigger] acc@[k1] == '.' implies #[trigger] acc@[k2]
                        != '.' by {
                        assert(k1 < acc0.len());
                        assert(acc@[k1] == acc0[k1]);
                    }
                }
            } else {
                proof {
                    if j < gs@.len() {
                        assert(!is_digit_g(gv[j as int]));
                    }
                    assert(exists|k: int| 0 <= k < acc@.len() && '0' <= #[trigger] acc@[k] <= '9');
                    assert(crate::num::is_number_text(acc@));
                }
                let literal_bits = match crate::num::num_parse(acc.as_str()) {
                    Option::Some(b) => b,
                    Option::None => unreached(),
                };
                let token = Token {
                    kind: TokenKind::Number,
                    lexeme: acc,
                    literal: Option::Some(LiteralValue::Number(literal_bits)),
                    loc: Loc::single(line),
                };
                return Result::Ok((token, j));
            }
        }
    }

    /// Scan the inside of a string literal whose opening quote stands at
    /// `start`, returning the token, the position after the closing quote,
    /// and the line it ends on.
    fn parse_str_literal(gs: &Vec<String>, start: usize, line: usize) -> (r: Result<
        (Token, usize, usize),
        LexingError,
    >)
        requires
            start < gs@.len(),
            gs@.len() < usize::MAX,
            line <= start + 1,
        ensures
            ({
                let s = spec_string(
                    gs.deep_view(),
                    start + 1,
                    line as int,
                    line as int,
                    Seq::empty(),
                    Seq::empty(),
                );
                match r {
                    Result::Ok((t, j, l)) => s == Result::Ok::<(TokenView, int, int), LexingErrorView>(
                        (t@, j as int, l as int),
                    ) && start < j <= gs@.len() && l <= j,
                    Result::Err(e) => s == Result::Err::<(TokenView, int, int), LexingErrorView>(e@),
                }
            }),
    {
        let ghost gv = gs.deep_view();
        let mut raw = String::new();
        let mut cooked = String::new();
        let mut j: usize = start + 1;
        let mut line_cur: usize = line;
        loop
            invariant
                start < j <= gs@.len(),
                gs@.len() < usize::MAX,
                line <= line_cur <= j,
                gv == gs.deep_view(),
                spec_string(gv, j as int, line as int, line_cur as int, raw@, cooked@)
                    == spec_string(
                    gv,
                    start + 1,
                    line as int,
                    line as int,
                    Seq::empty(),
                    Seq::empty(),
                ),
            decreases gs@.len() - j,
        {
            if j >= gs.len() {
                let mut lexeme = String::from_str("\"");
                lexeme.append(raw.as_str());
                return Result::Err(
                    LexingError {
                        kind: LexingErrorKind::UnterminatedString,
                        lexeme,
                        line: line_cur,
                    },
                );
            }
            proof {
                assert(gv[j as int] == gs@[j as int]@);
                if j + 1 < gs@.len() {
                    assert(gv[j + 1] == gs@[j + 1]@);
                }
            }
            if Scanner::grapheme_is(gs[j].as_str(), '"') {
                let mut lexeme = String::from_str("\"");
                lexeme.append(raw.as_str());
                lexeme.append("\"");
                let token = Token {
                    kind: TokenKind::String,
                    lexeme,
                    literal: Option::Some(LiteralValue::String(cooked)),
                    loc: Loc { line_begin: line, line_end: line_cur },
                };
                return Result::Ok((token, j + 1, line_cur));
            } else if Scanner::grapheme_is(gs[j].as_str(), '\\') && j + 1 < gs.len()
                && Scanner::grapheme_is(gs[j + 1].as_str(), '"') {
                let ghost raw0 = raw@;
                raw.append(gs[j].as_str());
                raw.append(gs[j + 1].as_str());
                cooked.append(gs[j + 1].as_str());
                proof {
                    assert(raw@ =~= raw0 + gv[j as int] + gv[j + 1]);
                }
                j = j + 2;
            } else if Scanner::grapheme_is(gs[j].as_str(), '\n') {
                raw.append(gs[j].as_str());
                cooked.append(gs[j].as_str());
                line_cur = line_cur + 1;
                j = j + 1;
            } else {
                raw.append(gs[j].as_str());
                cooked.append(gs[j].as_str());
                j = j + 1;
            }
        }
    }

    /// Scan one raw token (including the internal whitespace, comment and
    /// newline tokens) at position `i` on line `line`, returning it with
    /// the position and line after it.
    #[verifier::rlimit(100)]
    fn parse_token(gs: &Vec<String>, i: usize, line: usize) -> (r: (
        Result<Token, LexingError>,
        usize,
        usize,
    ))
        requires
            i < gs@.len(),
            gs@.len() < usize::MAX,
            line <= i + 1,
            forall|k: int| 0 <= k < gs.deep_view().len() ==> (#[trigger] gs.deep_view()[k]).len() > 0,
        ensures
            ({
                let s = spec_token(gs.deep_view(), i as int, line as int);
                match r.0 {
                    Result::Ok(t) => s == Result::Ok::<(TokenView, int, int), LexingErrorView>(
                        (t@, r.1 as int, r.2 as int),
                    ),
                    Result::Err(e) => s == Result::Err::<(TokenView, int, int), LexingErrorView>(e@),
                }
            }),
    {
        let ghost gv = gs.deep_view();
        proof {
            assert(gv[i as int] == gs@[i as int]@);
            if i + 1 < gs@.len() {
                assert(gv[i + 1] == gs@[i + 1]@);
            }
        }
        let g = &gs[i];
        if Scanner::grapheme_is(g.as_str(), '"') {
            match Scanner::parse_str_literal(gs, i, line) {
                Result::Ok((t, j, l)) => (Result::Ok(t), j, l),
                Result::Err(e) => (Result::Err(e), i, line),
            }
        } else if Scanner::is_digit(g.as_str()) {
            match Scanner::parse_number_literal(gs, i, line, false) {
                Result::Ok((t, j)) => (Result::Ok(t), j, line),
                Result::Err(e) => (Result::Err(e), i, line),
            }
        } else if Scanner::grapheme_is(g.as_str(), '.') {
            if i + 1 < gs.len() && Scanner::is_digit(gs[i + 1].as_str()) {
                match Scanner::parse_number_literal(gs, i, line, true) {
                    Result::Ok((t, j)) => (Result::Ok(t), j, line),
                    Result::Err(e) => (Result::Err(e), i, line),
                }
            } else {
                (Result::Ok(Scanner::single_char_token(TokenKind::Dot, g, line)), i + 1, line)
            }
        } else if Scanner::is_ident_start(g.as_str()) {
            let (t, j) = Scanner::parse_identifier(gs, i, line);
            (Result::Ok(t), j, line)
        } else if Scanner::grapheme_is(g.as_str(), ' ') || Scanner::grapheme_is(g.as_str(), '\t')
            || Scanner::grapheme_is(g.as_str(), '\r') {
            (Result::Ok(Scanner::single_char_token(TokenKind::Whitespace, g, line)), i + 1, line)
        } else if Scanner::grapheme_is(g.as_str(), '(') {
            (Result::Ok(Scanner::single_char_token(TokenKind::LeftParen, g, line)), i + 1, line)
        } else if Scanner::grapheme_is(g.as_str(), ')') {
            (Result::Ok(Scanner::single_char_token(TokenKind::RightParen, g, line)), i + 1, line)
        } else if Scanner::grapheme_is(g.as_str(), '{') {
            (Result::Ok(Scanner::single_char_token(TokenKind::LeftBrace, g, line)), i + 1, line)
        } else if Scanner::grapheme_is(g.as_str(), '}') {
            (Result::Ok(Scanner::single_char_token(TokenKind::RightBrace, g, line)), i + 1, line)
        } else if Scanner::grapheme_is(g.as_str(), ',') {
            (Result::Ok(Scanner::single_char_token(TokenKind::Comma, g, line)), i + 1, line)
        } else if Scanner::grapheme_is(g.as_str(), '-') {
            (Result::Ok(Scanner::single_char_token(TokenKind::Minus, g, line)), i + 1, line)
        } else if Scanner::grapheme_is(g.as_str(), '+') {
            (Result::Ok(Scanner::single_char_token(TokenKind::Plus, g, line)), i + 1, line)
        } else if Scanner::grapheme_is(g.as_str(), ';') {
            (Result::Ok(Scanner::single_char_token(TokenKind::Semicolon, g, line)), i + 1, line)
        } else if Scanner::grapheme_is(g.as_str(), '*') {
            (Result::Ok(Scanner::single_char_token(TokenKind::Star, g, line)), i + 1, line)
        } else if Scanner::grapheme_is(g.as_str(), '\n') {
            (Result::Ok(Scanner::single_char_token(TokenKind::NewLine, g, line)), i + 1, line + 1)
        } else if Scanner::grapheme_is(g.as_str(), '!') {
            if i + 1 < gs.len() && Scanner::grapheme_is(gs[i + 1].as_str(), '=') {
                (Result::Ok(Scanner::two_char_token(TokenKind::BangEqual, g, &gs[i + 1], line)), i
                    + 2, line)
            } else {
                (Result::Ok(Scanner::single_char_token(TokenKind::Bang, g, line)), i + 1, line)
            }
        } else if Scanner::grapheme_is(g.as_str(), '=') {
            if i + 1 < gs.len() && Scanner::grapheme_is(gs[i + 1].as_str(), '=') {
                (Result::Ok(Scanner::two_char_token(TokenKind::EqualEqual, g, &gs[i + 1], line)), i
                    + 2, line)
            } else {
                (Result::Ok(Scanner::single_char_token(TokenKind::Equal, g, line)), i + 1, line)
            }
        } else if Scanner::grapheme_is(g.as_str(), '<') {
            if i + 1 < gs.len() && Scanner::grapheme_is(gs[i + 1].as_str(), '=') {
                (Result::Ok(Scanner::two_char_token(TokenKind::LessEqual, g, &gs[i + 1], line)), i
                    + 2, line)
            } else {
                (Result::Ok(Scanner::single_char_token(TokenKind::Less, g, line)), i + 1, line)
            }
        } else if Scanner::grapheme_is(g.as_str(), '>') {
            if i + 1 < gs.len() && Scanner::grapheme_is(gs[i + 1].as_str(), '=') {
                (Result::Ok(Scanner::two_char_token(TokenKind::GreaterEqual, g, &gs[i + 1], line)),
                    i + 2, line)
            } else {
                (Result::Ok(Scanner::single_char_token(TokenKind::Greater, g, line)), i + 1, line)
            }
        } else if Scanner::grapheme_is(g.as_str(), '/') {
            if i + 1 < gs.len() && Scanner::grapheme_is(gs[i + 1].as_str(), '/') {
                (Result::Ok(Scanner::two_char_token(TokenKind::Comment, g, &gs[i + 1], line)), i
                    + 2, line)
            } else {
                (Result::Ok(Scanner::single_char_token(TokenKind::Slash, g, line)), i + 1, line)
            }
        } else {
            (
                Result::Err(
                    LexingError { kind: LexingErrorKind::UnknownChar, lexeme: g.clone(), line },
                ),
                i,
                line,
            )
        }
    }

    /// A token made of the one grapheme `g`.
    fn single_char_token(kind: TokenKind, g: &String, line: usize) -> (r: Token)
        ensures
            r@ == single_tok(kind, g@, line as int),
    {
        Token { kind, lexeme: g.clone(), literal: Option::None, loc: Loc::single(line) }
    }

    /// A token made of the two graphemes `g1` and `g2`.
    fn two_char_token(kind: TokenKind, g1: &String, g2: &String, line: usize) -> (r: Token)
        ensures
            r@ == single_tok(kind, g1@ + g2@, line as int),
    {
        let mut lexeme = g1.clone();
        lexeme.append(g2.as_str());
        Token { kind, lexeme, literal: Option::None, loc: Loc::single(line) }
    }

    /// Move past the remainder of a comment line, stopping at the next
    /// newline grapheme or the end of the input.
    fn consume_line(gs: &Vec<String>, from: usize) -> (r: usize)
        requires
            from <= gs@.len(),
        ensures
            r as int == spec_skip_line(gs.deep_view(), from as int),
            from <= r <= gs@.len(),
    {
        let ghost gv = gs.deep_view();
        let mut j = from;
        loop
            invariant
                from <= j <= gs@.len(),
                gv == gs.deep_view(),
                spec_skip_line(gv, j as int) == spec_skip_line(gv, from as int),
            decreases gs@.len() - j,
        {
            if j >= gs.len() {
                return j;
            }
            proof {
                assert(gv[j as int] == gs@[j as int]@);
            }
            if Scanner::grapheme_is(gs[j].as_str(), '\n') {
                return j;
            }
            j = j + 1;
        }
    }

    /// Scan the whole source: the emitted tokens, ending with exactly one
    /// Eof token, or the first lexing error.
    pub fn scan(&self) -> (r: Result<Vec<Token>, LexingError>)
        requires
            self@.len() < usize::MAX,
        ensures
            ({
                let result = spec_scan(graphemes_of(self@), 0, 1);
                match r {
                    Result::Ok(ts) => result == Result::Ok::<Seq<TokenView>, LexingErrorView>(
                        ts.deep_view(),
                    ) && ts.deep_view().len() >= 1 && ts.deep_view().last().kind == TokenKind::Eof,
                    Result::Err(e) => result == Result::Err::<Seq<TokenView>, LexingErrorView>(e@),
                }
            }),
    {
        let gs = split_graphemes(self.source.as_str());
        let ghost gv = gs.deep_view();
        proof {
            lemma_flatten_len_ge_count(gv);
        }
        let n = gs.len();
        let mut i: usize = 0;
        let mut line: usize = 1;
        let mut tokens: Vec<Token> = Vec::new();
        loop
            invariant
                0 <= i <= n,
                n == gs@.len(),
                n < usize::MAX,
                line <= i + 1,
                gv == gs.deep_view(),
                gv == graphemes_of(self@),
                forall|k: int| 0 <= k < gv.len() ==> (#[trigger] gv[k]).len() > 0,
                ({
                    let full = spec_scan(gv, 0, 1);
                    match spec_scan(gv, i as int, line as int) {
                        Result::Ok(rest) => full == Result::Ok::<Seq<TokenView>, LexingErrorView>(
                            tokens.deep_view() + rest,
                        ),
                        Result::Err(e) => full == Result::Err::<Seq<TokenView>, LexingErrorView>(e),
                    }
                }),
            decreases n - i,
        {
            if i == n {
                let eof = Token {
                    kind: TokenKind::Eof,
                    lexeme: String::from_str("\0"),
                    literal: Option::None,
                    loc: Loc::single(line),
                };
                let ghost tokens0 = tokens.deep_view();
                tokens.push(eof);
                proof {
                    assert(tokens.deep_view() =~= tokens0 + seq![eof_token(line as int)]);
                }
                return Result::Ok(tokens);
            }
            let (res, i2, line2) = Scanner::parse_token(&gs, i, line);
            proof {
                lemma_token_bounds(gv, i as int, line as int);
            }
            match res {
                Result::Err(e) => {
                    return Result::Err(e);
                },
                Result::Ok(t) => {
                    let ghost tokens0 = tokens.deep_view();
                    let mut i3 = i2;
                    if t.kind == TokenKind::Comment {
                        i3 = Scanner::consume_line(&gs, i2);
                        proof {
                            lemma_skip_line_bounds(gv, i2 as int);
                        }
                    }
                    if !(t.kind == TokenKind::Whitespace || t.kind == TokenKind::Comment || t.kind
                        == TokenKind::NewLine) {
                        tokens.push(t);
                        proof {
                            assert(tokens.deep_view() =~= tokens0 + seq![t@]);
                        }
                    }
                    proof {
                        assert(clamp_step(gv.len() as int, i as int, i3 as int) == i3 as int);
                        match spec_scan(gv, i3 as int, line2 as int) {
                            Result::Ok(rest2) => {
                                assert(tokens0 + (seq![t@] + rest2) =~= (tokens0 + seq![t@])
                                    + rest2);
                            },
                            Result::Err(_) => {},
                        }
                    }
                    i = i3;
                    line = line2;
                },
            }
        }
    }
}

} // verus!
