//! The lexer: classifies source lines into a stream of [`Token`]s.
//!
//! Lines are lexed independently, left to right, one token per step.  The
//! mathematical model is [`spec_tokenize`], a recursive function over the
//! character sequences of the lines; [`tokenize_lines`] is proved to return
//! exactly its value.  A bare word's classification depends on position in
//! the line: the first one (before any directive) is an instruction mnemonic,
//! later ones are identifiers.

use vstd::prelude::*;

use crate::diag::{err_plain, err_text, AsmError, ErrV, ErrorKind};

verus! {

/// A classified piece of source text.  `line_number` is 0-based, the column
/// span `[column_start, column_end)` is 0-based and half-open, counted in
/// characters.  `value` is the raw text of the token as it stands in the
/// line; the payload inside `token_type` excludes delimiting characters.
#[derive(Debug, PartialEq, Eq, Clone)]
pub struct Token {
    pub line_number: u32,
    pub column_start: u32,
    pub column_end: u32,
    pub value: String,
    pub token_type: TokenType,
}

/// Semantic kind of a token, with the payload text where there is one.
#[derive(Debug, PartialEq, Eq, Clone)]
pub enum TokenType {
    /// An identifier followed by `:`; the payload excludes the colon.
    Label(String),
    /// `.` followed by an identifier; the payload excludes the dot.
    Directive(String),
    /// First bare identifier on a line, before any directive.
    Instruction(String),
    /// `,`
    Comma,
    /// `%` followed by a non-numeric identifier; the payload excludes `%`.
    Register(String),
    /// `#`
    Immediate,
    /// A run of decimal digits; the payload is the whole run.
    Decimal(String),
    /// `%` followed by binary digits; the payload excludes `%`.
    Binary(String),
    /// `$` followed by hex digits; the payload excludes `$`.
    Hex(String),
    /// `"`-enclosed text; the payload excludes both quotes.
    AsciiString(String),
    /// A bare identifier after the instruction slot of the line is taken.
    Identifier(String),
    /// `[`
    OpenBracket,
    /// `]`
    CloseBracket,
    /// `(`
    OpenParenthesis,
    /// `)`
    CloseParenthesis,
}

/// Mathematical model of a [`TokenType`].
pub ghost enum TokenTypeV {
    Label(Seq<char>),
    Directive(Seq<char>),
    Instruction(Seq<char>),
    Comma,
    Register(Seq<char>),
    Immediate,
    Decimal(Seq<char>),
    Binary(Seq<char>),
    Hex(Seq<char>),
    AsciiString(Seq<char>),
    Identifier(Seq<char>),
    OpenBracket,
    CloseBracket,
    OpenParenthesis,
    CloseParenthesis,
}

/// Mathematical model of a [`Token`].
pub ghost struct TokenV {
    pub line: nat,
    pub col_start: nat,
    pub col_end: nat,
    pub value: Seq<char>,
    pub kind: TokenTypeV,
}

impl View for TokenType {
    type V = TokenTypeV;

    open spec fn view(&self) -> TokenTypeV {
        match self {
            TokenType::Label(s) => TokenTypeV::Label(s@),
            TokenType::Directive(s) => TokenTypeV::Directive(s@),
            TokenType::Instruction(s) => TokenTypeV::Instruction(s@),
            TokenType::Comma => TokenTypeV::Comma,
            TokenType::Register(s) => TokenTypeV::Register(s@),
            TokenType::Immediate => TokenTypeV::Immediate,
            TokenType::Decimal(s) => TokenTypeV::Decimal(s@),
            TokenType::Binary(s) => TokenTypeV::Binary(s@),
            TokenType::Hex(s) => TokenTypeV::Hex(s@),
            TokenType::AsciiString(s) => TokenTypeV::AsciiString(s@),
            TokenType::Identifier(s) => TokenTypeV::Identifier(s@),
            TokenType::OpenBracket => TokenTypeV::OpenBracket,
            TokenType::CloseBracket => TokenTypeV::CloseBracket,
            TokenType::OpenParenthesis => TokenTypeV::OpenParenthesis,
            TokenType::CloseParenthesis => TokenTypeV::CloseParenthesis,
        }
    }
}

impl View for Token {
    type V = TokenV;

    open spec fn view(&self) -> TokenV {
        TokenV {
            line: self.line_number as nat,
            col_start: self.column_start as nat,
            col_end: self.column_end as nat,
            value: self.value@,
            kind: self.token_type@,
        }
    }
}

/// View of a whole token vector.
pub open spec fn toks_view(v: Seq<Token>) -> Seq<TokenV> {
    v.map_values(|t: Token| t@)
}

// ---------------------------------------------------------------------------
// Character classes
// ---------------------------------------------------------------------------

/// Structural delimiters that end directive, identifier, register, hex and
/// decimal scans: space, comma, comment start, and the four brackets.
pub open spec fn is_delim(c: char) -> bool {
    c == ' ' || c == ',' || c == ';' || c == '(' || c == ')' || c == '[' || c == ']'
}

/// ASCII letter or underscore: may start an identifier-like token.
pub open spec fn is_word_start(c: char) -> bool {
    ('a' <= c && c <= 'z') || ('A' <= c && c <= 'Z') || c == '_'
}

/// ASCII decimal digit.
pub open spec fn is_digit(c: char) -> bool {
    '0' <= c && c <= '9'
}

/// Character legal in an identifier: ASCII letter, digit or underscore.
pub open spec fn is_word_char(c: char) -> bool {
    is_word_start(c) || is_digit(c)
}

/// Binary digit.
pub open spec fn is_binary_digit(c: char) -> bool {
    c == '0' || c == '1'
}

/// Hexadecimal digit, either case.
pub open spec fn is_hex_digit(c: char) -> bool {
    is_digit(c) || ('a' <= c && c <= 'f') || ('A' <= c && c <= 'F')
}

/// Every character of `s` is an identifier character.
pub open spec fn all_word_chars(s: Seq<char>) -> bool {
    forall|i: int| 0 <= i < s.len() ==> is_word_char(#[trigger] s[i])
}

/// Every character of `s` is a decimal digit.
pub open spec fn all_digits(s: Seq<char>) -> bool {
    forall|i: int| 0 <= i < s.len() ==> is_digit(#[trigger] s[i])
}

/// Every character of `s` is a binary digit.
pub open spec fn all_binary_digits(s: Seq<char>) -> bool {
    forall|i: int| 0 <= i < s.len() ==> is_binary_digit(#[trigger] s[i])
}

/// Every character of `s` is a hexadecimal digit.
pub open spec fn all_hex_digits(s: Seq<char>) -> bool {
    forall|i: int| 0 <= i < s.len() ==> is_hex_digit(#[trigger] s[i])
}

fn is_delim_char(c: char) -> (r: bool)
    ensures
        r == is_delim(c),
{
    c == ' ' || c == ',' || c == ';' || c == '(' || c == ')' || c == '[' || c == ']'
}

fn is_word_start_char(c: char) -> (r: bool)
    ensures
        r == is_word_start(c),
{
    let u = c as u32;
    (97 <= u && u <= 122) || (65 <= u && u <= 90) || c == '_'
}

fn is_digit_char(c: char) -> (r: bool)
    ensures
        r == is_digit(c),
{
    let u = c as u32;
    48 <= u && u <= 57
}

fn is_word_char_exec(c: char) -> (r: bool)
    ensures
        r == is_word_char(c),
{
    is_word_start_char(c) || is_digit_char(c)
}

fn is_binary_digit_char(c: char) -> (r: bool)
    ensures
        r == is_binary_digit(c),
{
    c == '0' || c == '1'
}

fn is_hex_digit_char(c: char) -> (r: bool)
    ensures
        r == is_hex_digit(c),
{
    let u = c as u32;
    is_digit_char(c) || (97 <= u && u <= 102) || (65 <= u && u <= 70)
}

/// Does every character of `s` belong to the identifier class `[A-Za-z0-9_]`?
pub fn str_is_alphanumeric(s: &str) -> (r: bool)
    ensures
        r == all_word_chars(s@),
{
    let n = s.unicode_len();
    let mut i: usize = 0;
    while i < n
        invariant
            0 <= i <= n == s@.len(),
            forall|k: int| 0 <= k < i ==> is_word_char(#[trigger] s@[k]),
        decreases n - i,
    {
        if !is_word_char_exec(s.get_char(i)) {
            return false;
        }
        i += 1;
    }
    true
}

/// Does every character of `s` belong to the decimal digit class `[0-9]`?
pub fn str_is_numeric(s: &str) -> (r: bool)
    ensures
        r == all_digits(s@),
{
    let n = s.unicode_len();
    let mut i: usize = 0;
    while i < n
        invariant
            0 <= i <= n == s@.len(),
            forall|k: int| 0 <= k < i ==> is_digit(#[trigger] s@[k]),
        decreases n - i,
    {
        if !is_digit_char(s.get_char(i)) {
            return false;
        }
        i += 1;
    }
    true
}

/// Does every character of `s` belong to the binary digit class `[01]`?
pub fn str_is_binary(s: &str) -> (r: bool)
    ensures
        r == all_binary_digits(s@),
{
    let n = s.unicode_len();
    let mut i: usize = 0;
    while i < n
        invariant
            0 <= i <= n == s@.len(),
            forall|k: int| 0 <= k < i ==> is_binary_digit(#[trigger] s@[k]),
        decreases n - i,
    {
        if !is_binary_digit_char(s.get_char(i)) {
            return false;
        }
        i += 1;
    }
    true
}

/// Does every character of `s` belong to the hex digit class `[0-9a-fA-F]`?
pub fn str_is_hex(s: &str) -> (r: bool)
    ensures
        r == all_hex_digits(s@),
{
    let n = s.unicode_len();
    let mut i: usize = 0;
    while i < n
        invariant
            0 <= i <= n == s@.len(),
            forall|k: int| 0 <= k < i ==> is_hex_digit(#[trigger] s@[k]),
        decreases n - i,
    {
        if !is_hex_digit_char(s.get_char(i)) {
            return false;
        }
        i += 1;
    }
    true
}

// ---------------------------------------------------------------------------
// Scanning
// ---------------------------------------------------------------------------

/// Number of characters from position `i` up to (excluding) the next
/// structural delimiter, or up to the end of the line.
pub open spec fn scan_len(line: Seq<char>, i: int) -> nat
    decreases line.len() - i,
{
    if i < 0 || i >= line.len() || is_delim(line[i]) {
        0
    } else {
        1 + scan_len(line, i + 1)
    }
}

/// Number of characters from position `i` up to (excluding) the next `"`,
/// or up to the end of the line if it holds no further quote.
pub open spec fn quote_len(line: Seq<char>, i: int) -> nat
    decreases line.len() - i,
{
    if i < 0 || i >= line.len() || line[i] == '"' {
        0
    } else {
        1 + quote_len(line, i + 1)
    }
}

/// The scan from `i` stays inside the line, every character it covers is a
/// non-delimiter, and it stops at the end of the line or at a delimiter.
pub proof fn lemma_scan_len(line: Seq<char>, i: int)
    requires
        0 <= i <= line.len(),
    ensures
        i + scan_len(line, i) <= line.len(),
        forall|k: int| i <= k < i + scan_len(line, i) ==> !is_delim(#[trigger] line[k]),
        i + scan_len(line, i) == line.len() || is_delim(line[i + scan_len(line, i)]),
    decreases line.len() - i,
{
    if i < line.len() && !is_delim(line[i]) {
        lemma_scan_len(line, i + 1);
    }
}

/// The quote scan from `i` stays inside the line, covers no quote, and stops
/// at the end of the line or at a quote.
pub proof fn lemma_quote_len(line: Seq<char>, i: int)
    requires
        0 <= i <= line.len(),
    ensures
        i + quote_len(line, i) <= line.len(),
        forall|k: int| i <= k < i + quote_len(line, i) ==> #[trigger] line[k] != '"',
        i + quote_len(line, i) == line.len() || line[i + quote_len(line, i)] == '"',
    decreases line.len() - i,
{
    if i < line.len() && line[i] != '"' {
        lemma_quote_len(line, i + 1);
    }
}

/// Advance from `from` to the next structural delimiter or the end of the
/// line, and return the stop position.
pub fn read_to_chars(line: &str, from: usize) -> (end: usize)
    requires
        from <= line@.len() <= usize::MAX,
    ensures
        end == from + scan_len(line@, from as int),
        from <= end <= line@.len(),
{
    let n = line.unicode_len();
    let mut end: usize = from;
    while end < n && !is_delim_char(line.get_char(end))
        invariant
            from <= end <= n == line@.len(),
            scan_len(line@, from as int) == end - from + scan_len(line@, end as int),
        decreases n - end,
    {
        end += 1;
    }
    end
}

/// Advance from `from` to the position of the next `"`, or to the end of the
/// line if it holds none, and return the stop position.
pub fn read_to_char_inclusive(line: &str, from: usize) -> (end: usize)
    requires
        from <= line@.len() <= usize::MAX,
    ensures
        end == from + quote_len(line@, from as int),
        from <= end <= line@.len(),
{
    let n = line.unicode_len();
    let mut end: usize = from;
    while end < n && line.get_char(end) != '"'
        invariant
            from <= end <= n == line@.len(),
            quote_len(line@, from as int) == end - from + quote_len(line@, end as int),
        decreases n - end,
    {
        end += 1;
    }
    end
}

} // verus!

verus! {

// ---------------------------------------------------------------------------
// The tokenizer model
// ---------------------------------------------------------------------------

/// Prepend already-produced tokens to the outcome of lexing the remainder.
pub open spec fn lex_emit(pre: Seq<TokenV>, rest: Result<Seq<TokenV>, ErrV>) -> Result<
    Seq<TokenV>,
    ErrV,
> {
    match rest {
        Ok(s) => Ok(pre + s),
        Err(e) => Err(e),
    }
}

/// Chain two lexing outcomes: the first error wins, otherwise concatenate.
pub open spec fn lex_concat(
    first: Result<Seq<TokenV>, ErrV>,
    rest: Result<Seq<TokenV>, ErrV>,
) -> Result<Seq<TokenV>, ErrV> {
    match first {
        Ok(s) => lex_emit(s, rest),
        Err(e) => Err(e),
    }
}

/// The token whose raw text is `line[s..e]` with the given kind.
pub open spec fn mk_tok(ln: nat, line: Seq<char>, s: int, e: int, kind: TokenTypeV) -> TokenV {
    TokenV {
        line: ln,
        col_start: s as nat,
        col_end: e as nat,
        value: line.subrange(s, e),
        kind,
    }
}

/// Tokens produced from line `ln` starting at column `col`.  `fi` / `fd`
/// record whether an instruction / a directive was already seen on this
/// line: the first bare word of a line (before any directive) is an
/// Instruction, every later one an Identifier.
pub open spec fn spec_tok_line(
    line: Seq<char>,
    ln: nat,
    col: int,
    fi: bool,
    fd: bool,
) -> Result<Seq<TokenV>, ErrV>
    decreases line.len() - col,
    via spec_tok_line_decreases
{
    if col < 0 || col >= line.len() {
        Ok(Seq::empty())
    } else {
        let c = line[col];
        if c == ' ' {
            spec_tok_line(line, ln, col + 1, fi, fd)
        } else if c == ';' {
            Ok(Seq::empty())
        } else if c == '.' {
            let e = col + 1 + scan_len(line, col + 1);
            if e == col + 1 {
                Err(err_plain(ErrorKind::EndOfDirectiveToken, ln, col as nat, (col + 1) as nat))
            } else {
                let name = line.subrange(col + 1, e);
                if !all_word_chars(name) {
                    Err(err_plain(ErrorKind::DirectiveNotAlphanumeric, ln, col as nat, e as nat))
                } else {
                    lex_emit(
                        seq![mk_tok(ln, line, col, e, TokenTypeV::Directive(name))],
                        spec_tok_line(line, ln, e, fi, true),
                    )
                }
            }
        } else if is_word_start(c) {
            let e = col + 1 + scan_len(line, col + 1);
            let full = line.subrange(col, e);
            if full.last() == ':' {
                let name = full.drop_last();
                if !all_word_chars(name) {
                    Err(err_plain(ErrorKind::LabelNotAlphanumeric, ln, col as nat, e as nat))
                } else {
                    lex_emit(
                        seq![mk_tok(ln, line, col, e, TokenTypeV::Label(name))],
                        spec_tok_line(line, ln, e, fi, fd),
                    )
                }
            } else if !fi && !fd {
                if !all_word_chars(full) {
                    Err(err_plain(ErrorKind::InstructionNotAlphanumeric, ln, col as nat, e as nat))
                } else {
                    lex_emit(
                        seq![mk_tok(ln, line, col, e, TokenTypeV::Instruction(full))],
                        spec_tok_line(line, ln, e, true, fd),
                    )
                }
            } else {
                if !all_word_chars(full) {
                    Err(err_plain(ErrorKind::IdentifierNotAlphanumeric, ln, col as nat, e as nat))
                } else {
                    lex_emit(
                        seq![mk_tok(ln, line, col, e, TokenTypeV::Identifier(full))],
                        spec_tok_line(line, ln, e, fi, fd),
                    )
                }
            }
        } else if c == '"' {
            let q = col + 1 + quote_len(line, col + 1);
            if q >= line.len() {
                Err(err_plain(ErrorKind::UnterminatedString, ln, col as nat, line.len() as nat))
            } else {
                lex_emit(
                    seq![
                        mk_tok(
                            ln,
                            line,
                            col,
                            q + 1,
                            TokenTypeV::AsciiString(line.subrange(col + 1, q)),
                        ),
                    ],
                    spec_tok_line(line, ln, q + 1, fi, fd),
                )
            }
        } else if c == '%' {
            let e = col + 1 + scan_len(line, col + 1);
            if e == col + 1 {
                Err(err_plain(ErrorKind::EndOfToken, ln, col as nat, (col + 1) as nat))
            } else {
                let v = line.subrange(col + 1, e);
                if all_digits(v) {
                    if !all_binary_digits(v) {
                        Err(err_plain(ErrorKind::BinaryLiteralInvalid, ln, col as nat, e as nat))
                    } else {
                        lex_emit(
                            seq![mk_tok(ln, line, col, e, TokenTypeV::Binary(v))],
                            spec_tok_line(line, ln, e, fi, fd),
                        )
                    }
                } else if !all_word_chars(v) {
                    Err(err_plain(ErrorKind::RegisterNotAlphanumeric, ln, col as nat, e as nat))
                } else {
                    lex_emit(
                        seq![mk_tok(ln, line, col, e, TokenTypeV::Register(v))],
                        spec_tok_line(line, ln, e, fi, fd),
                    )
                }
            }
        } else if c == ',' {
            lex_emit(
                seq![mk_tok(ln, line, col, col + 1, TokenTypeV::Comma)],
                spec_tok_line(line, ln, col + 1, fi, fd),
            )
        } else if c == '#' {
            lex_emit(
                seq![mk_tok(ln, line, col, col + 1, TokenTypeV::Immediate)],
                spec_tok_line(line, ln, col + 1, fi, fd),
            )
        } else if c == '$' {
            let e = col + 1 + scan_len(line, col + 1);
            if e == col + 1 {
                Err(err_plain(ErrorKind::EndOfHexToken, ln, col as nat, (col + 1) as nat))
            } else {
                let v = line.subrange(col + 1, e);
                if !all_word_chars(v) {
                    Err(err_plain(ErrorKind::HexNotAlphanumeric, ln, col as nat, e as nat))
                } else if !all_hex_digits(v) {
                    Err(err_plain(ErrorKind::HexLiteralInvalid, ln, col as nat, e as nat))
                } else {
                    lex_emit(
                        seq![mk_tok(ln, line, col, e, TokenTypeV::Hex(v))],
                        spec_tok_line(line, ln, e, fi, fd),
                    )
                }
            }
        } else if is_digit(c) {
            let e = col + 1 + scan_len(line, col + 1);
            let full = line.subrange(col, e);
            if !all_digits(full) {
                Err(err_plain(ErrorKind::DecimalLiteralInvalid, ln, col as nat, e as nat))
            } else {
                lex_emit(
                    seq![mk_tok(ln, line, col, e, TokenTypeV::Decimal(full))],
                    spec_tok_line(line, ln, e, fi, fd),
                )
            }
        } else if c == '[' {
            lex_emit(
                seq![mk_tok(ln, line, col, col + 1, TokenTypeV::OpenBracket)],
                spec_tok_line(line, ln, col + 1, fi, fd),
            )
        } else if c == ']' {
            lex_emit(
                seq![mk_tok(ln, line, col, col + 1, TokenTypeV::CloseBracket)],
                spec_tok_line(line, ln, col + 1, fi, fd),
            )
        } else if c == '(' {
            lex_emit(
                seq![mk_tok(ln, line, col, col + 1, TokenTypeV::OpenParenthesis)],
                spec_tok_line(line, ln, col + 1, fi, fd),
            )
        } else if c == ')' {
            lex_emit(
                seq![mk_tok(ln, line, col, col + 1, TokenTypeV::CloseParenthesis)],
                spec_tok_line(line, ln, col + 1, fi, fd),
            )
        } else {
            Err(err_text(ErrorKind::UnexpectedTokenStart, seq![c], ln, col as nat, (col + 1) as nat))
        }
    }
}

#[via_fn]
proof fn spec_tok_line_decreases(line: Seq<char>, ln: nat, col: int, fi: bool, fd: bool) {
    if 0 <= col < line.len() {
        lemma_scan_len(line, col + 1);
        lemma_quote_len(line, col + 1);
    }
}

/// The views of a sequence of source lines.
pub open spec fn lines_view(lines: Seq<String>) -> Seq<Seq<char>> {
    lines.map_values(|s: String| s@)
}

/// Tokens of the lines from index `i` on, each line lexed with fresh
/// per-line state.
pub open spec fn spec_tokenize_from(lines: Seq<Seq<char>>, i: int) -> Result<Seq<TokenV>, ErrV>
    decreases lines.len() - i,
{
    if i < 0 || i >= lines.len() {
        Ok(Seq::empty())
    } else {
        lex_concat(
            spec_tok_line(lines[i], i as nat, 0, false, false),
            spec_tokenize_from(lines, i + 1),
        )
    }
}

/// The token stream of a whole source, or its first lexical error.
pub open spec fn spec_tokenize(lines: Seq<Seq<char>>) -> Result<Seq<TokenV>, ErrV> {
    spec_tokenize_from(lines, 0)
}

/// Shifting one emitted token from the pending side to the finished side
/// leaves the overall lexing outcome unchanged.
proof fn lemma_lex_step(
    pre: Seq<TokenV>,
    one: Seq<TokenV>,
    rl: Result<Seq<TokenV>, ErrV>,
    after: Result<Seq<TokenV>, ErrV>,
)
    ensures
        lex_emit(pre, lex_concat(lex_emit(one, rl), after)) == lex_emit(
            pre + one,
            lex_concat(rl, after),
        ),
{
    match rl {
        Err(e) => {},
        Ok(s) => {
            match after {
                Err(e) => {},
                Ok(s2) => {
                    assert(pre + (one + s + s2) =~= (pre + one) + (s + s2));
                },
            }
        },
    }
}

} // verus!

verus! {

/// Mapping a pushed token commutes with taking views.
proof fn lemma_toks_push(s: Seq<Token>, t: Token)
    ensures
        toks_view(s.push(t)) == toks_view(s) + seq![t@],
{
    assert(toks_view(s.push(t)) =~= toks_view(s) + seq![t@]);
}

/// Turn the character stream of every source line into the token stream of
/// the whole program, or report the first lexical error.  The result is
/// exactly the value of [`spec_tokenize`] on the lines' character sequences.
#[verifier::rlimit(100)]
pub fn tokenize_lines(lines: &Vec<String>) -> (r: Result<Vec<Token>, AsmError>)
    requires
        lines@.len() <= u32::MAX,
        forall|i: int| 0 <= i < lines@.len() ==> (#[trigger] lines@[i])@.len() <= u32::MAX,
    ensures
        (match r {
            Ok(toks) => spec_tokenize(lines_view(lines@)) == Ok::<Seq<TokenV>, ErrV>(
                toks_view(toks@),
            ),
            Err(e) => spec_tokenize(lines_view(lines@)) == Err::<Seq<TokenV>, ErrV>(e@),
        }),
{
    let ghost lv = lines_view(lines@);
    let mut toks: Vec<Token> = Vec::new();
    let mut li: usize = 0;
    while li < lines.len()
        invariant
            li <= lines@.len() <= u32::MAX,
            forall|i: int| 0 <= i < lines@.len() ==> (#[trigger] lines@[i])@.len() <= u32::MAX,
            lv == lines_view(lines@),
            spec_tokenize(lv) == lex_emit(toks_view(toks@), spec_tokenize_from(lv, li as int)),
        decreases lines@.len() - li,
    {
        let line: &str = lines[li].as_str();
        assert(line@ == lv[li as int]);
        let n = line.unicode_len();
        let mut col: usize = 0;
        let mut found_instruction = false;
        let mut found_directive = false;
        while col < n
            invariant
                col <= n == line@.len() <= u32::MAX,
                li < lines@.len() <= u32::MAX,
                line@ == lv[li as int],
                lv == lines_view(lines@),
                spec_tokenize(lv) == lex_emit(
                    toks_view(toks@),
                    lex_concat(
                        spec_tok_line(
                            line@,
                            li as nat,
                            col as int,
                            found_instruction,
                            found_directive,
                        ),
                        spec_tokenize_from(lv, li as int + 1),
                    ),
                ),
            decreases n - col,
        {
            let ghost prev = toks@;
            let ghost rest_lines = spec_tokenize_from(lv, li as int + 1);
            let c = line.get_char(col);
            if c == ' ' {
                col = col + 1;
            } else if c == ';' {
                col = n;
            } else if c == '.' {
                let e = read_to_chars(line, col + 1);
                if e == col + 1 {
                    let err = AsmError::new_plain(
                        ErrorKind::EndOfDirectiveToken,
                        li as u32,
                        col as u32,
                        (col + 1) as u32,
                    );
                    return Err(err);
                }
                let payload = line.substring_char(col + 1, e).to_owned();
                if !str_is_alphanumeric(payload.as_str()) {
                    let err = AsmError::new_plain(
                        ErrorKind::DirectiveNotAlphanumeric,
                        li as u32,
                        col as u32,
                        e as u32,
                    );
                    return Err(err);
                }
                let value = line.substring_char(col, e).to_owned();
                let t = Token {
                    line_number: li as u32,
                    column_start: col as u32,
                    column_end: e as u32,
                    value,
                    token_type: TokenType::Directive(payload),
                };
                toks.push(t);
                proof {
                    lemma_toks_push(prev, t);
                    lemma_lex_step(
                        toks_view(prev),
                        seq![t@],
                        spec_tok_line(line@, li as nat, e as int, found_instruction, true),
                        rest_lines,
                    );
                }
                found_directive = true;
                col = e;
            } else if is_word_start_char(c) {
                let e = read_to_chars(line, col + 1);
                let value = line.substring_char(col, e).to_owned();
                let last = line.get_char(e - 1);
                if last == ':' {
                    assert(value@.last() == ':');
                    let name = line.substring_char(col, e - 1).to_owned();
                    assert(name@ =~= value@.drop_last());
                    if !str_is_alphanumeric(name.as_str()) {
                        let err = AsmError::new_plain(
                            ErrorKind::LabelNotAlphanumeric,
                            li as u32,
                            col as u32,
                            e as u32,
                        );
                        return Err(err);
                    }
                    let t = Token {
                        line_number: li as u32,
                        column_start: col as u32,
                        column_end: e as u32,
                        value,
                        token_type: TokenType::Label(name),
                    };
                    toks.push(t);
                    proof {
                        lemma_toks_push(prev, t);
                        lemma_lex_step(
                            toks_view(prev),
                            seq![t@],
                            spec_tok_line(
                                line@,
                                li as nat,
                                e as int,
                                found_instruction,
                                found_directive,
                            ),
                            rest_lines,
                        );
                    }
                    col = e;
                } else if !found_instruction && !found_directive {
                    assert(value@.last() != ':');
                    if !str_is_alphanumeric(value.as_str()) {
                        let err = AsmError::new_plain(
                            ErrorKind::InstructionNotAlphanumeric,
                            li as u32,
                            col as u32,
                            e as u32,
                        );
                        return Err(err);
                    }
                    let payload = line.substring_char(col, e).to_owned();
                    let t = Token {
                        line_number: li as u32,
                        column_start: col as u32,
                        column_end: e as u32,
                        value,
                        token_type: TokenType::Instruction(payload),
                    };
                    toks.push(t);
                    proof {
                        lemma_toks_push(prev, t);
                        lemma_lex_step(
                            toks_view(prev),
                            seq![t@],
                            spec_tok_line(line@, li as nat, e as int, true, found_directive),
                            rest_lines,
                        );
                    }
                    found_instruction = true;
                    col = e;
                } else {
                    assert(value@.last() != ':');
                    if !str_is_alphanumeric(value.as_str()) {
                        let err = AsmError::new_plain(
                            ErrorKind::IdentifierNotAlphanumeric,
                            li as u32,
                            col as u32,
                            e as u32,
                        );
                        return Err(err);
                    }
                    let payload = line.substring_char(col, e).to_owned();
                    let t = Token {
                        line_number: li as u32,
                        column_start: col as u32,
                        column_end: e as u32,
                        value,
                        token_type: TokenType::Identifier(payload),
                    };
                    toks.push(t);
                    proof {
                        lemma_toks_push(prev, t);
                        lemma_lex_step(
                            toks_view(prev),
                            seq![t@],
                            spec_tok_line(
                                line@,
                                li as nat,
                                e as int,
                                found_instruction,
                                found_directive,
                            ),
                            rest_lines,
                        );
                    }
                    col = e;
                }
            } else if c == '"' {
                let q = read_to_char_inclusive(line, col + 1);
                if q >= n {
                    let err = AsmError::new_plain(
                        ErrorKind::UnterminatedString,
                        li as u32,
                        col as u32,
                        n as u32,
                    );
                    return Err(err);
                }
                let contents = line.substring_char(col + 1, q).to_owned();
                let value = line.substring_char(col, q + 1).to_owned();
                let t = Token {
                    line_number: li as u32,
                    column_start: col as u32,
                    column_end: (q + 1) as u32,
                    value,
                    token_type: TokenType::AsciiString(contents),
                };
                toks.push(t);
                proof {
                    lemma_toks_push(prev, t);
                    lemma_lex_step(
                        toks_view(prev),
                        seq![t@],
                        spec_tok_line(
                            line@,
                            li as nat,
                            q + 1 as int,
                            found_instruction,
                            found_directive,
                        ),
                        rest_lines,
                    );
                }
                col = q + 1;
            } else if c == '%' {
                let e = read_to_chars(line, col + 1);
                if e == col + 1 {
                    let err = AsmError::new_plain(
                        ErrorKind::EndOfToken,
                        li as u32,
                        col as u32,
                        (col + 1) as u32,
                    );
                    return Err(err);
                }
                let payload = line.substring_char(col + 1, e).to_owned();
                let value = line.substring_char(col, e).to_owned();
                if str_is_numeric(payload.as_str()) {
                    if !str_is_binary(payload.as_str()) {
                        let err = AsmError::new_plain(
                            ErrorKind::BinaryLiteralInvalid,
                            li as u32,
                            col as u32,
                            e as u32,
                        );
                        return Err(err);
                    }
                    let t = Token {
                        line_number: li as u32,
                        column_start: col as u32,
                        column_end: e as u32,
                        value,
                        token_type: TokenType::Binary(payload),
                    };
                    toks.push(t);
                    proof {
                        lemma_toks_push(prev, t);
                        lemma_lex_step(
                            toks_view(prev),
                            seq![t@],
                            spec_tok_line(
                                line@,
                                li as nat,
                                e as int,
                                found_instruction,
                                found_directive,
                            ),
                            rest_lines,
                        );
                    }
                    col = e;
                } else {
                    if !str_is_alphanumeric(payload.as_str()) {
                        let err = AsmError::new_plain(
                            ErrorKind::RegisterNotAlphanumeric,
                            li as u32,
                            col as u32,
                            e as u32,
                        );
                        return Err(err);
                    }
                    let t = Token {
                        line_number: li as u32,
                        column_start: col as u32,
                        column_end: e as u32,
                        value,
                        token_type: TokenType::Register(payload),
                    };
                    toks.push(t);
                    proof {
                        lemma_toks_push(prev, t);
                        lemma_lex_step(
                            toks_view(prev),
                            seq![t@],
                            spec_tok_line(
                                line@,
                                li as nat,
                                e as int,
                                found_instruction,
                                found_directive,
                            ),
                            rest_lines,
                        );
                    }
                    col = e;
                }
            } else if c == ',' {
                let value = line.substring_char(col, col + 1).to_owned();
                let t = Token {
                    line_number: li as u32,
                    column_start: col as u32,
                    column_end: (col + 1) as u32,
                    value,
                    token_type: TokenType::Comma,
                };
                toks.push(t);
                proof {
                    lemma_toks_push(prev, t);
                    lemma_lex_step(
                        toks_view(prev),
                        seq![t@],
                        spec_tok_line(
                            line@,
                            li as nat,
                            col + 1 as int,
                            found_instruction,
                            found_directive,
                        ),
                        rest_lines,
                    );
                }
                col = col + 1;
            } else if c == '#' {
                let value = line.substring_char(col, col + 1).to_owned();
                let t = Token {
                    line_number: li as u32,
                    column_start: col as u32,
                    column_end: (col + 1) as u32,
                    value,
                    token_type: TokenType::Immediate,
                };
                toks.push(t);
                proof {
                    lemma_toks_push(prev, t);
                    lemma_lex_step(
                        toks_view(prev),
                        seq![t@],
                        spec_tok_line(
                            line@,
                            li as nat,
                            col + 1 as int,
                            found_instruction,
                            found_directive,
                        ),
                        rest_lines,
                    );
                }
                col = col + 1;
            } else if c == '$' {
                let e = read_to_chars(line, col + 1);
                if e == col + 1 {
                    let err = AsmError::new_plain(
                        ErrorKind::EndOfHexToken,
                        li as u32,
                        col as u32,
                        (col + 1) as u32,
                    );
                    return Err(err);
                }
                let payload = line.substring_char(col + 1, e).to_owned();
                if !str_is_alphanumeric(payload.as_str()) {
                    let err = AsmError::new_plain(
                        ErrorKind::HexNotAlphanumeric,
                        li as u32,
                        col as u32,
                        e as u32,
                    );
                    return Err(err);
                }
                if !str_is_hex(payload.as_str()) {
                    let err = AsmError::new_plain(
                        ErrorKind::HexLiteralInvalid,
                        li as u32,
                        col as u32,
                        e as u32,
                    );
                    return Err(err);
                }
                let value = line.substring_char(col, e).to_owned();
                let t = Token {
                    line_number: li as u32,
                    column_start: col as u32,
                    column_end: e as u32,
                    value,
                    token_type: TokenType::Hex(payload),
                };
                toks.push(t);
                proof {
                    lemma_toks_push(prev, t);
                    lemma_lex_step(
                        toks_view(prev),
                        seq![t@],
                        spec_tok_line(line@, li as nat, e as int, found_instruction, found_directive),
                        rest_lines,
                    );
                }
                col = e;
            } else if is_digit_char(c) {
                let e = read_to_chars(line, col + 1);
                let value = line.substring_char(col, e).to_owned();
                if !str_is_numeric(value.as_str()) {
                    let err = AsmError::new_plain(
                        ErrorKind::DecimalLiteralInvalid,
                        li as u32,
                        col as u32,
                        e as u32,
                    );
                    return Err(err);
                }
                let payload = line.substring_char(col, e).to_owned();
                let t = Token {
                    line_number: li as u32,
                    column_start: col as u32,
                    column_end: e as u32,
                    value,
                    token_type: TokenType::Decimal(payload),
                };
                toks.push(t);
                proof {
                    lemma_toks_push(prev, t);
                    lemma_lex_step(
                        toks_view(prev),
                        seq![t@],
                        spec_tok_line(line@, li as nat, e as int, found_instruction, found_directive),
                        rest_lines,
                    );
                }
                col = e;
            } else if c == '[' {
                let value = line.substring_char(col, col + 1).to_owned();
                let t = Token {
                    line_number: li as u32,
                    column_start: col as u32,
                    column_end: (col + 1) as u32,
                    value,
                    token_type: TokenType::OpenBracket,
                };
                toks.push(t);
                proof {
                    lemma_toks_push(prev, t);
                    lemma_lex_step(
                        toks_view(prev),
                        seq![t@],
                        spec_tok_line(
                            line@,
                            li as nat,
                            col + 1 as int,
                            found_instruction,
                            found_directive,
                        ),
                        rest_lines,
                    );
                }
                col = col + 1;
            } else if c == ']' {
                let value = line.substring_char(col, col + 1).to_owned();
                let t = Token {
                    line_number: li as u32,
                    column_start: col as u32,
                    column_end: (col + 1) as u32,
                    value,
                    token_type: TokenType::CloseBracket,
                };
                toks.push(t);
                proof {
                    lemma_toks_push(prev, t);
                    lemma_lex_step(
                        toks_view(prev),
                        seq![t@],
                        spec_tok_line(
                            line@,
                            li as nat,
                            col + 1 as int,
                            found_instruction,
                            found_directive,
                        ),
                        rest_lines,
                    );
                }
                col = col + 1;
            } else if c == '(' {
                let value = line.substring_char(col, col + 1).to_owned();
                let t = Token {
                    line_number: li as u32,
                    column_start: col as u32,
                    column_end: (col + 1) as u32,
                    value,
                    token_type: TokenType::OpenParenthesis,
                };
                toks.push(t);
                proof {
                    lemma_toks_push(prev, t);
                    lemma_lex_step(
                        toks_view(prev),
                        seq![t@],
                        spec_tok_line(
                            line@,
                            li as nat,
                            col + 1 as int,
                            found_instruction,
                            found_directive,
                        ),
                        rest_lines,
                    );
                }
                col = col + 1;
            } else if c == ')' {
                let value = line.substring_char(col, col + 1).to_owned();
                let t = Token {
                    line_number: li as u32,
                    column_start: col as u32,
                    column_end: (col + 1) as u32,
                    value,
                    token_type: TokenType::CloseParenthesis,
                };
                toks.push(t);
                proof {
                    lemma_toks_push(prev, t);
                    lemma_lex_step(
                        toks_view(prev),
                        seq![t@],
                        spec_tok_line(
                            line@,
                            li as nat,
                            col + 1 as int,
                            found_instruction,
                            found_directive,
                        ),
                        rest_lines,
                    );
                }
                col = col + 1;
            } else {
                let detail = line.substring_char(col, col + 1).to_owned();
                assert(detail@ =~= seq![line@[col as int]]);
                let err = AsmError::new_text(
                    ErrorKind::UnexpectedTokenStart,
                    detail,
                    li as u32,
                    col as u32,
                    (col + 1) as u32,
                );
                return Err(err);
            }
        }
        proof {
            assert(spec_tok_line(line@, li as nat, col as int, found_instruction, found_directive)
                == Ok::<Seq<TokenV>, ErrV>(Seq::empty()));
            match spec_tokenize_from(lv, li as int + 1) {
                Ok(s2) => {
                    assert(toks_view(toks@) + (Seq::<TokenV>::empty() + s2) =~= toks_view(toks@)
                        + s2);
                },
                Err(e) => {},
            }
        }
        li = li + 1;
    }
    proof {
        assert(spec_tokenize_from(lv, li as int) == Ok::<Seq<TokenV>, ErrV>(Seq::empty()));
        assert(toks_view(toks@) + Seq::<TokenV>::empty() =~= toks_view(toks@));
    }
    Ok(toks)
}

} // verus!

verus! {

// ---------------------------------------------------------------------------
// Numeric literals
// ---------------------------------------------------------------------------

/// Numeric value of one digit character, in any radix up to 16.
pub open spec fn digit_val(c: char) -> nat {
    if is_digit(c) {
        (c as int - 48) as nat
    } else if 'a' <= c && c <= 'f' {
        (c as int - 87) as nat
    } else if 'A' <= c && c <= 'F' {
        (c as int - 55) as nat
    } else {
        0
    }
}

/// Value of a digit string read most-significant first in the given radix.
pub open spec fn radix_val(s: Seq<char>, radix: nat) -> nat
    decreases s.len(),
{
    if s.len() == 0 {
        0
    } else {
        radix_val(s.drop_last(), radix) * radix + digit_val(s.last())
    }
}

/// The value of a digit string is at least the value of any of its prefixes.
proof fn lemma_radix_val_prefix(s: Seq<char>, radix: nat, i: int)
    requires
        1 <= radix,
        0 <= i <= s.len(),
    ensures
        radix_val(s.subrange(0, i), radix) <= radix_val(s, radix),
    decreases s.len() - i,
{
    if i == s.len() {
        assert(s.subrange(0, i) =~= s);
    } else {
        let shorter = s.drop_last();
        assert(shorter.subrange(0, i) =~= s.subrange(0, i));
        lemma_radix_val_prefix(shorter, radix, i);
        assert(radix_val(shorter, radix) * radix >= radix_val(shorter, radix)) by (nonlinear_arith)
            requires radix >= 1
        ;
    }
}

fn char_digit_val(c: char) -> (d: u8)
    requires
        is_hex_digit(c),
    ensures
        d as nat == digit_val(c),
        d <= 15,
{
    let u = c as u32;
    if 48 <= u && u <= 57 {
        (u - 48) as u8
    } else if 97 <= u && u <= 102 {
        (u - 87) as u8
    } else {
        (u - 55) as u8
    }
}

/// Read a digit string in the given radix, with overflow detection against
/// the 16-bit word width.
fn parse_radix_u16(s: &str, radix: u32) -> (r: Option<u16>)
    requires
        (radix == 2 && all_binary_digits(s@)) || (radix == 10 && all_digits(s@)) || (radix == 16
            && all_hex_digits(s@)),
    ensures
        (match r {
            Some(v) => v as nat == radix_val(s@, radix as nat),
            None => radix_val(s@, radix as nat) > 65535,
        }),
{
    let n = s.unicode_len();
    let mut acc: u32 = 0;
    let mut i: usize = 0;
    while i < n
        invariant
            i <= n == s@.len(),
            acc <= 65535,
            acc as nat == radix_val(s@.subrange(0, i as int), radix as nat),
            (radix == 2 && all_binary_digits(s@)) || (radix == 10 && all_digits(s@)) || (radix
                == 16 && all_hex_digits(s@)),
        decreases n - i,
    {
        let c = s.get_char(i);
        assert(is_hex_digit(c));
        let d = char_digit_val(c);
        assert(acc * radix + d <= 65535 * 16 + 15) by (nonlinear_arith)
            requires acc <= 65535 && radix <= 16 && d <= 15
        ;
        let v2 = acc * radix + (d as u32);
        proof {
            assert(s@.subrange(0, i + 1).drop_last() =~= s@.subrange(0, i as int));
            assert(s@.subrange(0, i + 1).last() == s@[i as int]);
        }
        if v2 > 65535 {
            proof {
                lemma_radix_val_prefix(s@, radix as nat, i + 1);
            }
            return None;
        }
        acc = v2;
        i = i + 1;
    }
    proof {
        assert(s@.subrange(0, n as int) =~= s@);
    }
    Some(acc as u16)
}

/// Does the token's kind carry a numeric payload?
pub open spec fn tok_is_numeric(t: TokenV) -> bool {
    match t.kind {
        TokenTypeV::Binary(_) => true,
        TokenTypeV::Decimal(_) => true,
        TokenTypeV::Hex(_) => true,
        _ => false,
    }
}

/// The digit-string payload of a numeric token.
pub open spec fn tok_payload(t: TokenV) -> Seq<char> {
    match t.kind {
        TokenTypeV::Binary(s) => s,
        TokenTypeV::Decimal(s) => s,
        TokenTypeV::Hex(s) => s,
        _ => Seq::empty(),
    }
}

/// The radix a numeric token's payload is read in.
pub open spec fn tok_radix(t: TokenV) -> nat {
    match t.kind {
        TokenTypeV::Binary(_) => 2,
        TokenTypeV::Decimal(_) => 10,
        TokenTypeV::Hex(_) => 16,
        _ => 0,
    }
}

/// The numeric value a numeric token denotes.
pub open spec fn tok_value(t: TokenV) -> nat {
    radix_val(tok_payload(t), tok_radix(t))
}

/// The radix-specific overflow diagnostic for a numeric token.
pub open spec fn overflow_kind(t: TokenV) -> ErrorKind {
    match t.kind {
        TokenTypeV::Binary(_) => ErrorKind::BinaryOverflow,
        TokenTypeV::Decimal(_) => ErrorKind::DecimalOverflow,
        TokenTypeV::Hex(_) => ErrorKind::HexOverflow,
        _ => ErrorKind::DecimalOverflow,
    }
}

/// The radix-specific overflow error of a numeric token, spanning it.
pub open spec fn overflow_err(t: TokenV) -> ErrV {
    err_plain(overflow_kind(t), t.line, t.col_start, t.col_end)
}

/// A numeric token's payload is a non-empty digit string of its radix.
/// Tokens made by the lexer always satisfy this.
pub open spec fn numeric_payload_wf(t: TokenV) -> bool {
    match t.kind {
        TokenTypeV::Binary(s) => s.len() > 0 && all_binary_digits(s),
        TokenTypeV::Decimal(s) => s.len() > 0 && all_digits(s),
        TokenTypeV::Hex(s) => s.len() > 0 && all_hex_digits(s),
        _ => true,
    }
}

/// Every numeric token in the stream has a well-formed payload.
pub open spec fn tokens_wf(ts: Seq<TokenV>) -> bool {
    forall|i: int| 0 <= i < ts.len() ==> numeric_payload_wf(#[trigger] ts[i])
}

impl Token {
    /// Value of a binary, decimal or hex literal token as a 16-bit word, or
    /// the radix-specific overflow diagnostic when the literal's value does
    /// not fit in 16 bits.
    pub fn parse_u16(&self) -> (r: Result<u16, AsmError>)
        requires
            tok_is_numeric(self@),
            numeric_payload_wf(self@),
        ensures
            (match r {
                Ok(v) => tok_value(self@) <= 65535 && v as nat == tok_value(self@),
                Err(e) => tok_value(self@) > 65535 && e@ == overflow_err(self@),
            }),
    {
        match &self.token_type {
            TokenType::Binary(s) => match parse_radix_u16(s.as_str(), 2) {
                Some(v) => Ok(v),
                None => Err(
                    AsmError::new_plain(
                        ErrorKind::BinaryOverflow,
                        self.line_number,
                        self.column_start,
                        self.column_end,
                    ),
                ),
            },
            TokenType::Decimal(s) => match parse_radix_u16(s.as_str(), 10) {
                Some(v) => Ok(v),
                None => Err(
                    AsmError::new_plain(
                        ErrorKind::DecimalOverflow,
                        self.line_number,
                        self.column_start,
                        self.column_end,
                    ),
                ),
            },
            TokenType::Hex(s) => match parse_radix_u16(s.as_str(), 16) {
                Some(v) => Ok(v),
                None => Err(
                    AsmError::new_plain(
                        ErrorKind::HexOverflow,
                        self.line_number,
                        self.column_start,
                        self.column_end,
                    ),
                ),
            },
            _ => {
                proof {
                    assert(false);
                }
                Ok(0)
            },
        }
    }
}

// ---------------------------------------------------------------------------
// Well-formedness of lexer output
// ---------------------------------------------------------------------------

/// Prepending one well-formed token preserves stream well-formedness.
proof fn lemma_wf_cons(t: TokenV, rest: Result<Seq<TokenV>, ErrV>)
    requires
        numeric_payload_wf(t),
        (rest matches Ok(ts) ==> tokens_wf(ts)),
    ensures
        (lex_emit(seq![t], rest) matches Ok(ts2) ==> tokens_wf(ts2)),
{
    match rest {
        Ok(ts) => {
            let ts2 = seq![t] + ts;
            assert forall|i: int| 0 <= i < ts2.len() implies numeric_payload_wf(
                #[trigger] ts2[i],
            ) by {
                if i > 0 {
                    assert(ts2[i] == ts[i - 1]);
                }
            }
        },
        Err(_) => {},
    }
}

/// Every token a line lexes to has a well-formed numeric payload.
proof fn lemma_tok_line_wf(line: Seq<char>, ln: nat, col: int, fi: bool, fd: bool)
    ensures
        (spec_tok_line(line, ln, col, fi, fd) matches Ok(ts) ==> tokens_wf(ts)),
    decreases line.len() - col,
{
    if col < 0 || col >= line.len() {
    } else {
        let c = line[col];
        lemma_scan_len(line, col + 1);
        lemma_quote_len(line, col + 1);
        let e = col + 1 + scan_len(line, col + 1);
        let q = col + 1 + quote_len(line, col + 1);
        if c == ' ' {
            lemma_tok_line_wf(line, ln, col + 1, fi, fd);
        } else if c == ';' {
        } else if c == '.' {
            if e > col + 1 && all_word_chars(line.subrange(col + 1, e)) {
                lemma_tok_line_wf(line, ln, e, fi, true);
                lemma_wf_cons(
                    mk_tok(ln, line, col, e, TokenTypeV::Directive(line.subrange(col + 1, e))),
                    spec_tok_line(line, ln, e, fi, true),
                );
            }
        } else if is_word_start(c) {
            let full = line.subrange(col, e);
            if full.last() == ':' {
                if all_word_chars(full.drop_last()) {
                    lemma_tok_line_wf(line, ln, e, fi, fd);
                    lemma_wf_cons(
                        mk_tok(ln, line, col, e, TokenTypeV::Label(full.drop_last())),
                        spec_tok_line(line, ln, e, fi, fd),
                    );
                }
            } else if !fi && !fd {
                if all_word_chars(full) {
                    lemma_tok_line_wf(line, ln, e, true, fd);
                    lemma_wf_cons(
                        mk_tok(ln, line, col, e, TokenTypeV::Instruction(full)),
                        spec_tok_line(line, ln, e, true, fd),
                    );
                }
            } else {
                if all_word_chars(full) {
                    lemma_tok_line_wf(line, ln, e, fi, fd);
                    lemma_wf_cons(
                        mk_tok(ln, line, col, e, TokenTypeV::Identifier(full)),
                        spec_tok_line(line, ln, e, fi, fd),
                    );
                }
            }
        } else if c == '"' {
            if q < line.len() {
                lemma_tok_line_wf(line, ln, q + 1, fi, fd);
                lemma_wf_cons(
                    mk_tok(ln, line, col, q + 1, TokenTypeV::AsciiString(line.subrange(col + 1, q))),
                    spec_tok_line(line, ln, q + 1, fi, fd),
                );
            }
        } else if c == '%' {
            if e > col + 1 {
                let v = line.subrange(col + 1, e);
                if all_digits(v) {
                    if all_binary_digits(v) {
                        lemma_tok_line_wf(line, ln, e, fi, fd);
                        lemma_wf_cons(
                            mk_tok(ln, line, col, e, TokenTypeV::Binary(v)),
                            spec_tok_line(line, ln, e, fi, fd),
                        );
                    }
                } else if all_word_chars(v) {
                    lemma_tok_line_wf(line, ln, e, fi, fd);
                    lemma_wf_cons(
                        mk_tok(ln, line, col, e, TokenTypeV::Register(v)),
                        spec_tok_line(line, ln, e, fi, fd),
                    );
                }
            }
        } else if c == ',' {
            lemma_tok_line_wf(line, ln, col + 1, fi, fd);
            lemma_wf_cons(
                mk_tok(ln, line, col, col + 1, TokenTypeV::Comma),
                spec_tok_line(line, ln, col + 1, fi, fd),
            );
        } else if c == '#' {
            lemma_tok_line_wf(line, ln, col + 1, fi, fd);
            lemma_wf_cons(
                mk_tok(ln, line, col, col + 1, TokenTypeV::Immediate),
                spec_tok_line(line, ln, col + 1, fi, fd),
            );
        } else if c == '$' {
            if e > col + 1 {
                let v = line.subrange(col + 1, e);
                if all_word_chars(v) && all_hex_digits(v) {
                    lemma_tok_line_wf(line, ln, e, fi, fd);
                    lemma_wf_cons(
                        mk_tok(ln, line, col, e, TokenTypeV::Hex(v)),
                        spec_tok_line(line, ln, e, fi, fd),
                    );
                }
            }
        } else if is_digit(c) {
            let full = line.subrange(col, e);
            if all_digits(full) {
                lemma_tok_line_wf(line, ln, e, fi, fd);
                lemma_wf_cons(
                    mk_tok(ln, line, col, e, TokenTypeV::Decimal(full)),
                    spec_tok_line(line, ln, e, fi, fd),
                );
            }
        } else if c == '[' {
            lemma_tok_line_wf(line, ln, col + 1, fi, fd);
            lemma_wf_cons(
                mk_tok(ln, line, col, col + 1, TokenTypeV::OpenBracket),
                spec_tok_line(line, ln, col + 1, fi, fd),
            );
        } else if c == ']' {
            lemma_tok_line_wf(line, ln, col + 1, fi, fd);
            lemma_wf_cons(
                mk_tok(ln, line, col, col + 1, TokenTypeV::CloseBracket),
                spec_tok_line(line, ln, col + 1, fi, fd),
            );
        } else if c == '(' {
            lemma_tok_line_wf(line, ln, col + 1, fi, fd);
            lemma_wf_cons(
                mk_tok(ln, line, col, col + 1, TokenTypeV::OpenParenthesis),
                spec_tok_line(line, ln, col + 1, fi, fd),
            );
        } else if c == ')' {
            lemma_tok_line_wf(line, ln, col + 1, fi, fd);
            lemma_wf_cons(
                mk_tok(ln, line, col, col + 1, TokenTypeV::CloseParenthesis),
                spec_tok_line(line, ln, col + 1, fi, fd),
            );
        } else {
        }
    }
}

/// Concatenating well-formed token streams yields a well-formed stream.
proof fn lemma_wf_concat(a: Seq<TokenV>, b: Seq<TokenV>)
    requires
        tokens_wf(a),
        tokens_wf(b),
    ensures
        tokens_wf(a + b),
{
    assert forall|i: int| 0 <= i < (a + b).len() implies numeric_payload_wf(
        #[trigger] (a + b)[i],
    ) by {
        if i < a.len() {
            assert((a + b)[i] == a[i]);
        } else {
            assert((a + b)[i] == b[i - a.len()]);
        }
    }
}

proof fn lemma_tokenize_from_wf(lines: Seq<Seq<char>>, i: int)
    ensures
        (spec_tokenize_from(lines, i) matches Ok(ts) ==> tokens_wf(ts)),
    decreases lines.len() - i,
{
    if 0 <= i < lines.len() {
        lemma_tok_line_wf(lines[i], i as nat, 0, false, false);
        lemma_tokenize_from_wf(lines, i + 1);
        match spec_tok_line(lines[i], i as nat, 0, false, false) {
            Ok(first) => {
                match spec_tokenize_from(lines, i + 1) {
                    Ok(rest) => {
                        lemma_wf_concat(first, rest);
                    },
                    Err(_) => {},
                }
            },
            Err(_) => {},
        }
    }
}

/// Whatever token stream the lexer accepts is well-formed: every numeric
/// token's payload is a non-empty digit string of its radix.
pub proof fn lemma_tokenize_wf(lines: Seq<Seq<char>>)
    ensures
        (spec_tokenize(lines) matches Ok(ts) ==> tokens_wf(ts)),
{
    lemma_tokenize_from_wf(lines, 0);
}

} // verus!

verus! {

// ---------------------------------------------------------------------------
// Position-dependent classification
// ---------------------------------------------------------------------------

/// Is this token an instruction mnemonic?
pub open spec fn is_instruction_tok(t: TokenV) -> bool {
    match t.kind {
        TokenTypeV::Instruction(_) => true,
        _ => false,
    }
}

/// Is this token a bare identifier?
pub open spec fn is_identifier_tok(t: TokenV) -> bool {
    match t.kind {
        TokenTypeV::Identifier(_) => true,
        _ => false,
    }
}

/// Is this token a directive?
pub open spec fn is_directive_tok(t: TokenV) -> bool {
    match t.kind {
        TokenTypeV::Directive(_) => true,
        _ => false,
    }
}

/// Classification discipline of the tokens of one line, lexed from a state
/// with flags `fi` (instruction seen) and `fd` (directive seen): every
/// token lies on line `ln`; an identifier can only follow an instruction
/// or directive (on this line or recorded in the flags); an instruction
/// token is emitted only with both flags clear and nothing classified as
/// instruction or directive before it.
pub open spec fn line_class_ok(ts: Seq<TokenV>, ln: nat, fi: bool, fd: bool) -> bool {
    (forall|k: int| 0 <= k < ts.len() ==> (#[trigger] ts[k]).line == ln) && (forall|k: int|
        0 <= k < ts.len() && is_identifier_tok(#[trigger] ts[k]) ==> fi || fd || exists|j: int|
            0 <= j < k && (is_instruction_tok(#[trigger] ts[j]) || is_directive_tok(ts[j])))
        && (forall|k: int|
        0 <= k < ts.len() && is_instruction_tok(#[trigger] ts[k]) ==> !fi && !fd && forall|j: int|
            0 <= j < k ==> !is_instruction_tok(#[trigger] ts[j]) && !is_directive_tok(ts[j]))
}

/// Prepending one correctly classified token preserves the discipline.
proof fn lemma_class_cons(t: TokenV, rest: Seq<TokenV>, ln: nat, fi: bool, fd: bool, fi2: bool, fd2: bool)
    requires
        t.line == ln,
        line_class_ok(rest, ln, fi2, fd2),
        fi2 == (fi || is_instruction_tok(t)),
        fd2 == (fd || is_directive_tok(t)),
        is_identifier_tok(t) ==> fi || fd,
        is_instruction_tok(t) ==> !fi && !fd,
    ensures
        line_class_ok(seq![t] + rest, ln, fi, fd),
{
    let ts = seq![t] + rest;
    assert forall|k: int| 0 <= k < ts.len() implies (#[trigger] ts[k]).line == ln by {
        if k > 0 {
            assert(ts[k] == rest[k - 1]);
        }
    }
    assert forall|k: int| 0 <= k < ts.len() && is_identifier_tok(#[trigger] ts[k]) implies fi || fd
        || exists|j: int|
        0 <= j < k && (is_instruction_tok(#[trigger] ts[j]) || is_directive_tok(ts[j])) by {
        if k > 0 && !fi && !fd {
            assert(ts[k] == rest[k - 1]);
            assert(is_identifier_tok(rest[k - 1]));
            if is_instruction_tok(t) || is_directive_tok(t) {
                assert(ts[0] == t);
                assert(0 <= 0 < k && (is_instruction_tok(ts[0]) || is_directive_tok(ts[0])));
            } else {
                assert(!fi2 && !fd2);
                let j0 = choose|j: int|
                    0 <= j < k - 1 && (is_instruction_tok(#[trigger] rest[j]) || is_directive_tok(
                        rest[j],
                    ));
                assert(ts[j0 + 1] == rest[j0]);
                assert(0 <= j0 + 1 < k && (is_instruction_tok(ts[j0 + 1]) || is_directive_tok(
                    ts[j0 + 1],
                )));
            }
        }
    }
    assert forall|k: int| 0 <= k < ts.len() && is_instruction_tok(#[trigger] ts[k]) implies !fi
        && !fd && (forall|j: int|
        0 <= j < k ==> !is_instruction_tok(#[trigger] ts[j]) && !is_directive_tok(ts[j])) by {
        if k == 0 {
        } else {
            assert(ts[k] == rest[k - 1]);
            assert(is_instruction_tok(rest[k - 1]));
            assert(!fi2 && !fd2);
            assert forall|j: int| 0 <= j < k implies !is_instruction_tok(#[trigger] ts[j])
                && !is_directive_tok(ts[j]) by {
                if j == 0 {
                    assert(ts[0] == t);
                } else {
                    assert(ts[j] == rest[j - 1]);
                }
            }
        }
    }
}

/// Every successfully lexed line observes the classification discipline.
proof fn lemma_tok_line_class(line: Seq<char>, ln: nat, col: int, fi: bool, fd: bool)
    ensures
        (spec_tok_line(line, ln, col, fi, fd) matches Ok(ts) ==> line_class_ok(ts, ln, fi, fd)),
    decreases line.len() - col,
{
    if col < 0 || col >= line.len() {
        let ts = Seq::<TokenV>::empty();
        assert(line_class_ok(ts, ln, fi, fd));
    } else {
        let c = line[col];
        lemma_scan_len(line, col + 1);
        lemma_quote_len(line, col + 1);
        let e = col + 1 + scan_len(line, col + 1);
        let q = col + 1 + quote_len(line, col + 1);
        if c == ' ' {
            lemma_tok_line_class(line, ln, col + 1, fi, fd);
        } else if c == ';' {
            assert(line_class_ok(Seq::<TokenV>::empty(), ln, fi, fd));
        } else if c == '.' {
            if e > col + 1 && all_word_chars(line.subrange(col + 1, e)) {
                lemma_tok_line_class(line, ln, e, fi, true);
                match spec_tok_line(line, ln, e, fi, true) {
                    Ok(rest) => {
                        lemma_class_cons(
                            mk_tok(
                                ln,
                                line,
                                col,
                                e,
                                TokenTypeV::Directive(line.subrange(col + 1, e)),
                            ),
                            rest,
                            ln,
                            fi,
                            fd,
                            fi,
                            true,
                        );
                    },
                    Err(_) => {},
                }
            }
        } else if is_word_start(c) {
            let full = line.subrange(col, e);
            if full.last() == ':' {
                if all_word_chars(full.drop_last()) {
                    lemma_tok_line_class(line, ln, e, fi, fd);
                    match spec_tok_line(line, ln, e, fi, fd) {
                        Ok(rest) => {
                            lemma_class_cons(
                                mk_tok(ln, line, col, e, TokenTypeV::Label(full.drop_last())),
                                rest,
                                ln,
                                fi,
                                fd,
                                fi,
                                fd,
                            );
                        },
                        Err(_) => {},
                    }
                }
            } else if !fi && !fd {
                if all_word_chars(full) {
                    lemma_tok_line_class(line, ln, e, true, fd);
                    match spec_tok_line(line, ln, e, true, fd) {
                        Ok(rest) => {
                            lemma_class_cons(
                                mk_tok(ln, line, col, e, TokenTypeV::Instruction(full)),
                                rest,
                                ln,
                                fi,
                                fd,
                                true,
                                fd,
                            );
                        },
                        Err(_) => {},
                    }
                }
            } else {
                if all_word_chars(full) {
                    lemma_tok_line_class(line, ln, e, fi, fd);
                    match spec_tok_line(line, ln, e, fi, fd) {
                        Ok(rest) => {
                            lemma_class_cons(
                                mk_tok(ln, line, col, e, TokenTypeV::Identifier(full)),
                                rest,
                                ln,
                                fi,
                                fd,
                                fi,
                                fd,
                            );
                        },
                        Err(_) => {},
                    }
                }
            }
        } else if c == '"' {
            if q < line.len() {
                lemma_tok_line_class(line, ln, q + 1, fi, fd);
                match spec_tok_line(line, ln, q + 1, fi, fd) {
                    Ok(rest) => {
                        lemma_class_cons(
                            mk_tok(
                                ln,
                                line,
                                col,
                                q + 1,
                                TokenTypeV::AsciiString(line.subrange(col + 1, q)),
                            ),
                            rest,
                            ln,
                            fi,
                            fd,
                            fi,
                            fd,
                        );
                    },
                    Err(_) => {},
                }
            }
        } else if c == '%' {
            if e > col + 1 {
                let v = line.subrange(col + 1, e);
                if all_digits(v) {
                    if all_binary_digits(v) {
                        lemma_tok_line_class(line, ln, e, fi, fd);
                        match spec_tok_line(line, ln, e, fi, fd) {
                            Ok(rest) => {
                                lemma_class_cons(
                                    mk_tok(ln, line, col, e, TokenTypeV::Binary(v)),
                                    rest,
                                    ln,
                                    fi,
                                    fd,
                                    fi,
                                    fd,
                                );
                            },
                            Err(_) => {},
                        }
                    }
                } else if all_word_chars(v) {
                    lemma_tok_line_class(line, ln, e, fi, fd);
                    match spec_tok_line(line, ln, e, fi, fd) {
                        Ok(rest) => {
                            lemma_class_cons(
                                mk_tok(ln, line, col, e, TokenTypeV::Register(v)),
                                rest,
                                ln,
                                fi,
                                fd,
                                fi,
                                fd,
                            );
                        },
                        Err(_) => {},
                    }
                }
            }
        } else if c == ',' {
            lemma_tok_line_class(line, ln, col + 1, fi, fd);
            match spec_tok_line(line, ln, col + 1, fi, fd) {
                Ok(rest) => {
                    lemma_class_cons(
                        mk_tok(ln, line, col, col + 1, TokenTypeV::Comma),
                        rest,
                        ln,
                        fi,
                        fd,
                        fi,
                        fd,
                    );
                },
                Err(_) => {},
            }
        } else if c == '#' {
            lemma_tok_line_class(line, ln, col + 1, fi, fd);
            match spec_tok_line(line, ln, col + 1, fi, fd) {
                Ok(rest) => {
                    lemma_class_cons(
                        mk_tok(ln, line, col, col + 1, TokenTypeV::Immediate),
                        rest,
                        ln,
                        fi,
                        fd,
                        fi,
                        fd,
                    );
                },
                Err(_) => {},
            }
        } else if c == '$' {
            if e > col + 1 {
                let v = line.subrange(col + 1, e);
                if all_word_chars(v) && all_hex_digits(v) {
                    lemma_tok_line_class(line, ln, e, fi, fd);
                    match spec_tok_line(line, ln, e, fi, fd) {
                        Ok(rest) => {
                            lemma_class_cons(
                                mk_tok(ln, line, col, e, TokenTypeV::Hex(v)),
                                rest,
                                ln,
                                fi,
                                fd,
                                fi,
                                fd,
                            );
                        },
                        Err(_) => {},
                    }
                }
            }
        } else if is_digit(c) {
            let full = line.subrange(col, e);
            if all_digits(full) {
                lemma_tok_line_class(line, ln, e, fi, fd);
                match spec_tok_line(line, ln, e, fi, fd) {
                    Ok(rest) => {
                        lemma_class_cons(
                            mk_tok(ln, line, col, e, TokenTypeV::Decimal(full)),
                            rest,
                            ln,
                            fi,
                            fd,
                            fi,
                            fd,
                        );
                    },
                    Err(_) => {},
                }
            }
        } else if c == '[' || c == ']' || c == '(' || c == ')' {
            lemma_tok_line_class(line, ln, col + 1, fi, fd);
            match spec_tok_line(line, ln, col + 1, fi, fd) {
                Ok(rest) => {
                    let kind = if c == '[' {
                        TokenTypeV::OpenBracket
                    } else if c == ']' {
                        TokenTypeV::CloseBracket
                    } else if c == '(' {
                        TokenTypeV::OpenParenthesis
                    } else {
                        TokenTypeV::CloseParenthesis
                    };
                    lemma_class_cons(
                        mk_tok(ln, line, col, col + 1, kind),
                        rest,
                        ln,
                        fi,
                        fd,
                        fi,
                        fd,
                    );
                },
                Err(_) => {},
            }
        } else {
        }
    }
}

/// Classification discipline of a whole token stream: a bare identifier is
/// always preceded, on its own line, by the token classified as the line's
/// instruction or by a directive; an instruction token is the first
/// instruction-or-directive token of its line.  So the first bare word of
/// a line is always an Instruction token, and later bare words on the same
/// line are Identifier tokens.
pub open spec fn stream_class_ok(ts: Seq<TokenV>) -> bool {
    (forall|a: int|
        0 <= a < ts.len() && is_identifier_tok(#[trigger] ts[a]) ==> exists|b: int|
            0 <= b < a && (#[trigger] ts[b]).line == ts[a].line && (is_instruction_tok(ts[b])
                || is_directive_tok(ts[b]))) && (forall|a: int, b: int|
        0 <= b < a < ts.len() && is_instruction_tok(#[trigger] ts[a]) && (#[trigger] ts[b]).line
            == ts[a].line ==> !is_instruction_tok(ts[b]) && !is_directive_tok(ts[b]))
}

proof fn lemma_tokenize_from_class(lines: Seq<Seq<char>>, i: int)
    ensures
        (spec_tokenize_from(lines, i) matches Ok(ts) ==> stream_class_ok(ts) && forall|k: int|
            0 <= k < ts.len() ==> (#[trigger] ts[k]).line >= i),
    decreases lines.len() - i,
{
    if 0 <= i < lines.len() {
        lemma_tok_line_class(lines[i], i as nat, 0, false, false);
        lemma_tokenize_from_class(lines, i + 1);
        match spec_tok_line(lines[i], i as nat, 0, false, false) {
            Ok(first) => {
                match spec_tokenize_from(lines, i + 1) {
                    Ok(rest) => {
                        let ts = first + rest;
                        let n1 = first.len() as int;
                        assert forall|k: int| 0 <= k < ts.len() implies (#[trigger] ts[k]).line
                            >= i by {
                            if k < n1 {
                                assert(ts[k] == first[k]);
                            } else {
                                assert(ts[k] == rest[k - n1]);
                            }
                        }
                        assert forall|a: int|
                            0 <= a < ts.len() && is_identifier_tok(#[trigger] ts[a]) implies exists|
                            b: int,
                        |
                            0 <= b < a && (#[trigger] ts[b]).line == ts[a].line && (
                            is_instruction_tok(ts[b]) || is_directive_tok(ts[b])) by {
                            if a < n1 {
                                assert(ts[a] == first[a]);
                                assert(is_identifier_tok(first[a]));
                                let j0 = choose|j: int|
                                    0 <= j < a && (is_instruction_tok(#[trigger] first[j])
                                        || is_directive_tok(first[j]));
                                assert(ts[j0] == first[j0]);
                                assert(0 <= j0 < a && ts[j0].line == ts[a].line && (
                                is_instruction_tok(ts[j0]) || is_directive_tok(ts[j0])));
                            } else {
                                assert(ts[a] == rest[a - n1]);
                                assert(is_identifier_tok(rest[a - n1]));
                                let j0 = choose|b: int|
                                    0 <= b < a - n1 && (#[trigger] rest[b]).line == rest[a
                                        - n1].line && (is_instruction_tok(rest[b])
                                        || is_directive_tok(rest[b]));
                                assert(ts[j0 + n1] == rest[j0]);
                                assert(0 <= j0 + n1 < a && ts[j0 + n1].line == ts[a].line && (
                                is_instruction_tok(ts[j0 + n1]) || is_directive_tok(ts[j0 + n1])));
                            }
                        }
                        assert forall|a: int, b: int|
                            0 <= b < a < ts.len() && is_instruction_tok(#[trigger] ts[a]) && (
                            #[trigger] ts[b]).line == ts[a].line implies !is_instruction_tok(ts[b])
                            && !is_directive_tok(ts[b]) by {
                            if a < n1 {
                                assert(ts[a] == first[a]);
                                assert(ts[b] == first[b]);
                            } else if b >= n1 {
                                assert(ts[a] == rest[a - n1]);
                                assert(ts[b] == rest[b - n1]);
                            } else {
                                // b on line i, a on a later line: same-line is impossible
                                assert(ts[b] == first[b]);
                                assert(ts[a] == rest[a - n1]);
                                assert(ts[b].line == i);
                                assert(ts[a].line >= i + 1);
                            }
                        }
                    },
                    Err(_) => {},
                }
            },
            Err(_) => {},
        }
    }
}

/// Position decides classification: in any accepted token stream, a bare
/// identifier is preceded on its own line by the line's instruction token
/// or a directive, and an instruction token is the first
/// instruction-or-directive token of its line.
pub proof fn lemma_position_classification(lines: Seq<Seq<char>>)
    ensures
        (spec_tokenize(lines) matches Ok(ts) ==> stream_class_ok(ts)),
{
    lemma_tokenize_from_class(lines, 0);
}

} // verus!

verus! {

// ---------------------------------------------------------------------------
// Token spans
// ---------------------------------------------------------------------------

/// Every token records the exact extent of its raw text: its line exists,
/// its column span is non-empty, lies inside that line, and selects exactly
/// the token's text.
pub open spec fn token_spans_source(ts: Seq<TokenV>, lines: Seq<Seq<char>>) -> bool {
    forall|k: int|
        0 <= k < ts.len() ==> {
            let t = #[trigger] ts[k];
            t.line < lines.len() && t.col_start < t.col_end <= lines[t.line as int].len()
                && t.value == lines[t.line as int].subrange(t.col_start as int, t.col_end as int)
        }
}

/// Span discipline of the tokens of a single line.
spec fn line_spans_ok(ts: Seq<TokenV>, line: Seq<char>, ln: nat) -> bool {
    forall|k: int|
        0 <= k < ts.len() ==> {
            let t = #[trigger] ts[k];
            t.line == ln && t.col_start < t.col_end <= line.len() && t.value == line.subrange(
                t.col_start as int,
                t.col_end as int,
            )
        }
}

proof fn lemma_spans_cons(t: TokenV, rest: Result<Seq<TokenV>, ErrV>, line: Seq<char>, ln: nat)
    requires
        t.line == ln,
        t.col_start < t.col_end <= line.len(),
        t.value == line.subrange(t.col_start as int, t.col_end as int),
        (rest matches Ok(ts) ==> line_spans_ok(ts, line, ln)),
    ensures
        (lex_emit(seq![t], rest) matches Ok(ts2) ==> line_spans_ok(ts2, line, ln)),
{
    match rest {
        Ok(ts) => {
            let ts2 = seq![t] + ts;
            assert forall|k: int| 0 <= k < ts2.len() implies {
                let u = #[trigger] ts2[k];
                u.line == ln && u.col_start < u.col_end <= line.len() && u.value == line.subrange(
                    u.col_start as int,
                    u.col_end as int,
                )
            } by {
                if k > 0 {
                    assert(ts2[k] == ts[k - 1]);
                }
            }
        },
        Err(_) => {},
    }
}

proof fn lemma_tok_line_spans(line: Seq<char>, ln: nat, col: int, fi: bool, fd: bool)
    requires
        0 <= col,
    ensures
        (spec_tok_line(line, ln, col, fi, fd) matches Ok(ts) ==> line_spans_ok(ts, line, ln)),
    decreases line.len() - col,
{
    if col < 0 || col >= line.len() {
    } else {
        let c = line[col];
        lemma_scan_len(line, col + 1);
        lemma_quote_len(line, col + 1);
        let e = col + 1 + scan_len(line, col + 1);
        let q = col + 1 + quote_len(line, col + 1);
        if c == ' ' {
            lemma_tok_line_spans(line, ln, col + 1, fi, fd);
        } else if c == ';' {
        } else if c == '.' {
            if e > col + 1 && all_word_chars(line.subrange(col + 1, e)) {
                lemma_tok_line_spans(line, ln, e, fi, true);
                lemma_spans_cons(
                    mk_tok(ln, line, col, e, TokenTypeV::Directive(line.subrange(col + 1, e))),
                    spec_tok_line(line, ln, e, fi, true),
                    line,
                    ln,
                );
            }
        } else if is_word_start(c) {
            let full = line.subrange(col, e);
            if full.last() == ':' {
                if all_word_chars(full.drop_last()) {
                    lemma_tok_line_spans(line, ln, e, fi, fd);
                    lemma_spans_cons(
                        mk_tok(ln, line, col, e, TokenTypeV::Label(full.drop_last())),
                        spec_tok_line(line, ln, e, fi, fd),
                        line,
                        ln,
                    );
                }
            } else if !fi && !fd {
                if all_word_chars(full) {
                    lemma_tok_line_spans(line, ln, e, true, fd);
                    lemma_spans_cons(
                        mk_tok(ln, line, col, e, TokenTypeV::Instruction(full)),
                        spec_tok_line(line, ln, e, true, fd),
                        line,
                        ln,
                    );
                }
            } else {
                if all_word_chars(full) {
                    lemma_tok_line_spans(line, ln, e, fi, fd);
                    lemma_spans_cons(
                        mk_tok(ln, line, col, e, TokenTypeV::Identifier(full)),
                        spec_tok_line(line, ln, e, fi, fd),
                        line,
                        ln,
                    );
                }
            }
        } else if c == '"' {
            if q < line.len() {
                lemma_tok_line_spans(line, ln, q + 1, fi, fd);
                lemma_spans_cons(
                    mk_tok(ln, line, col, q + 1, TokenTypeV::AsciiString(line.subrange(col + 1, q))),
                    spec_tok_line(line, ln, q + 1, fi, fd),
                    line,
                    ln,
                );
            }
        } else if c == '%' {
            if e > col + 1 {
                let v = line.subrange(col + 1, e);
                if all_digits(v) {
                    if all_binary_digits(v) {
                        lemma_tok_line_spans(line, ln, e, fi, fd);
                        lemma_spans_cons(
                            mk_tok(ln, line, col, e, TokenTypeV::Binary(v)),
                            spec_tok_line(line, ln, e, fi, fd),
                            line,
                            ln,
                        );
                    }
                } else if all_word_chars(v) {
                    lemma_tok_line_spans(line, ln, e, fi, fd);
                    lemma_spans_cons(
                        mk_tok(ln, line, col, e, TokenTypeV::Register(v)),
                        spec_tok_line(line, ln, e, fi, fd),
                        line,
                        ln,
                    );
                }
            }
        } else if c == ',' {
            lemma_tok_line_spans(line, ln, col + 1, fi, fd);
            lemma_spans_cons(
                mk_tok(ln, line, col, col + 1, TokenTypeV::Comma),
                spec_tok_line(line, ln, col + 1, fi, fd),
                line,
                ln,
            );
        } else if c == '#' {
            lemma_tok_line_spans(line, ln, col + 1, fi, fd);
            lemma_spans_cons(
                mk_tok(ln, line, col, col + 1, TokenTypeV::Immediate),
                spec_tok_line(line, ln, col + 1, fi, fd),
                line,
                ln,
            );
        } else if c == '$' {
            if e > col + 1 {
                let v = line.subrange(col + 1, e);
                if all_word_chars(v) && all_hex_digits(v) {
                    lemma_tok_line_spans(line, ln, e, fi, fd);
                    lemma_spans_cons(
                        mk_tok(ln, line, col, e, TokenTypeV::Hex(v)),
                        spec_tok_line(line, ln, e, fi, fd),
                        line,
                        ln,
                    );
                }
            }
        } else if is_digit(c) {
            let full = line.subrange(col, e);
            if all_digits(full) {
                lemma_tok_line_spans(line, ln, e, fi, fd);
                lemma_spans_cons(
                    mk_tok(ln, line, col, e, TokenTypeV::Decimal(full)),
                    spec_tok_line(line, ln, e, fi, fd),
                    line,
                    ln,
                );
            }
        } else if c == '[' || c == ']' || c == '(' || c == ')' {
            lemma_tok_line_spans(line, ln, col + 1, fi, fd);
            let kind = if c == '[' {
                TokenTypeV::OpenBracket
            } else if c == ']' {
                TokenTypeV::CloseBracket
            } else if c == '(' {
                TokenTypeV::OpenParenthesis
            } else {
                TokenTypeV::CloseParenthesis
            };
            lemma_spans_cons(
                mk_tok(ln, line, col, col + 1, kind),
                spec_tok_line(line, ln, col + 1, fi, fd),
                line,
                ln,
            );
        } else {
        }
    }
}

proof fn lemma_tokenize_from_spans(lines: Seq<Seq<char>>, i: int)
    requires
        0 <= i,
    ensures
        (spec_tokenize_from(lines, i) matches Ok(ts) ==> token_spans_source(ts, lines) && forall|
            k: int,
        | 0 <= k < ts.len() ==> (#[trigger] ts[k]).line >= i),
    decreases lines.len() - i,
{
    if 0 <= i < lines.len() {
        lemma_tok_line_spans(lines[i], i as nat, 0, false, false);
        lemma_tokenize_from_spans(lines, i + 1);
        match spec_tok_line(lines[i], i as nat, 0, false, false) {
            Ok(first) => {
                match spec_tokenize_from(lines, i + 1) {
                    Ok(rest) => {
                        let ts = first + rest;
                        let n1 = first.len() as int;
                        assert forall|k: int| 0 <= k < ts.len() implies {
                            let t = #[trigger] ts[k];
                            t.line >= i && t.line < lines.len() && t.col_start < t.col_end
                                <= lines[t.line as int].len() && t.value == lines[t.line as int].subrange(
                                t.col_start as int,
                                t.col_end as int,
                            )
                        } by {
                            if k < n1 {
                                assert(ts[k] == first[k]);
                            } else {
                                assert(ts[k] == rest[k - n1]);
                            }
                        }
                    },
                    Err(_) => {},
                }
            },
            Err(_) => {},
        }
    }
}

/// Every token of an accepted stream spans exactly its raw text in the
/// source: its line exists, its half-open column range is non-empty, stays
/// inside the line, and selects precisely the token's text.
pub proof fn lemma_token_spans(lines: Seq<Seq<char>>)
    ensures
        (spec_tokenize(lines) matches Ok(ts) ==> token_spans_source(ts, lines)),
{
    lemma_tokenize_from_spans(lines, 0);
}

} // verus!
