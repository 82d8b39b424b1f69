//! Structured diagnostics for the assembler front end.
//!
//! The lexer and parser never print or abort: every failure is reported as an
//! [`AsmError`] value carrying an error kind, an optional piece of offending
//! source text, and the exact source span the error refers to.  Rendering of
//! the human-readable report (message, location, source context and caret
//! underline) is done by pure functions so that the whole pipeline stays
//! side-effect free.

use vstd::prelude::*;

verus! {

/// Closed set of every diagnostic the lexer, the numeric sub-lexer and the
/// parser can raise.  Kinds that mention a piece of source text (a token's
/// text, a directive name, a mnemonic) carry it in [`AsmError::detail`].
#[derive(Clone, Copy, Debug, PartialEq, Eq, Structural)]
pub enum ErrorKind {
    // Lexical errors
    EndOfDirectiveToken,
    DirectiveNotAlphanumeric,
    LabelNotAlphanumeric,
    InstructionNotAlphanumeric,
    IdentifierNotAlphanumeric,
    UnterminatedString,
    EndOfToken,
    BinaryLiteralInvalid,
    RegisterNotAlphanumeric,
    EndOfHexToken,
    HexNotAlphanumeric,
    HexLiteralInvalid,
    DecimalLiteralInvalid,
    UnexpectedTokenStart,
    // Numeric range errors
    BinaryOverflow,
    DecimalOverflow,
    HexOverflow,
    // Section structure errors
    ProgramStart,
    ExpectedSectionDirective,
    DuplicateDataSection,
    DuplicateTextSection,
    IllegalDirective,
    UnexpectedTokenInData,
    UnexpectedTokenInText,
    EmptyLabel,
    // Data constant errors
    ConstantTooShort,
    ConstantMissingDirective,
    ExpectedStringAfterAscii,
    WordWithImmediateMarker,
    ExpectedNumberAfterWord,
    UnknownConstantDirective,
    // Instruction line errors
    ExpectedInstruction,
    UnexpectedArgumentSeparator,
    UnexpectedAfterNumber,
    ExpectedNumberAfterImmediate,
    UnexpectedAfterImmediateSpecifier,
    UnexpectedAfterImmediateNumber,
    ExpectedAddressAfterParenthesis,
    UnexpectedAfterParenthesis,
    ExpectedCloseParenthesis,
    UnexpectedInsteadOfCloseParenthesis,
    UnexpectedAfterIndirectAddress,
    UnexpectedAfterLabelIdentifier,
    ExpectedIdentifierAfterBracket,
    UnexpectedAfterBracket,
    ExpectedCloseBracket,
    UnexpectedInsteadOfCloseBracket,
    UnexpectedAfterLabelValue,
    UnexpectedAfterRegister,
    InvalidRegisterName,
    UnexpectedArgumentToken,
    // Overload resolution errors
    NopArgumentCount,
    MovArgumentCount,
    AddArgumentCount,
    NoOverload,
    NotImplemented,
}

/// Mathematical model of an [`AsmError`]: the same kind, the detail text as a
/// sequence of characters, and the span as unbounded naturals.
pub ghost struct ErrV {
    pub kind: ErrorKind,
    pub detail: Option<Seq<char>>,
    pub line: nat,
    pub col_start: nat,
    pub col_end: nat,
}

/// A source-located diagnostic.  `line` is 0-based; the column span
/// `[col_start, col_end)` is 0-based and half-open.
#[derive(Debug, PartialEq, Eq, Clone)]
pub struct AsmError {
    pub kind: ErrorKind,
    pub detail: Option<String>,
    pub line: u32,
    pub col_start: u32,
    pub col_end: u32,
}

impl View for AsmError {
    type V = ErrV;

    open spec fn view(&self) -> ErrV {
        ErrV {
            kind: self.kind,
            detail: match self.detail {
                Some(s) => Some(s@),
                None => None,
            },
            line: self.line as nat,
            col_start: self.col_start as nat,
            col_end: self.col_end as nat,
        }
    }
}

/// Spec-side constructor for an error without detail text.
pub open spec fn err_plain(kind: ErrorKind, line: nat, col_start: nat, col_end: nat) -> ErrV {
    ErrV { kind, detail: None, line, col_start, col_end }
}

/// Spec-side constructor for an error that carries offending source text.
pub open spec fn err_text(
    kind: ErrorKind,
    detail: Seq<char>,
    line: nat,
    col_start: nat,
    col_end: nat,
) -> ErrV {
    ErrV { kind, detail: Some(detail), line, col_start, col_end }
}

impl AsmError {
    /// Executable constructor matching [`err_plain`].
    pub fn new_plain(kind: ErrorKind, line: u32, col_start: u32, col_end: u32) -> (r: AsmError)
        ensures
            r@ == err_plain(kind, line as nat, col_start as nat, col_end as nat),
    {
        AsmError { kind, detail: None, line, col_start, col_end }
    }

    /// Executable constructor matching [`err_text`].
    pub fn new_text(kind: ErrorKind, detail: String, line: u32, col_start: u32, col_end: u32) -> (r:
        AsmError)
        ensures
            r@ == err_text(kind, detail@, line as nat, col_start as nat, col_end as nat),
    {
        AsmError { kind, detail: Some(detail), line, col_start, col_end }
    }
}

} // verus!

verus! {

/// The character for one decimal digit value.
pub open spec fn dec_digit(d: nat) -> char {
    ((48 + d) as u32) as char
}

/// Decimal representation of a number, most significant digit first.
pub open spec fn dec_rep(n: nat) -> Seq<char>
    decreases n,
{
    if n < 10 {
        seq![dec_digit(n)]
    } else {
        dec_rep(n / 10) + seq![dec_digit(n % 10)]
    }
}

fn digit_str(d: u64) -> (r: &'static str)
    requires
        d < 10,
    ensures
        r@ == seq![dec_digit(d as nat)],
{
    proof {
        reveal_strlit("0");
        reveal_strlit("1");
        reveal_strlit("2");
        reveal_strlit("3");
        reveal_strlit("4");
        reveal_strlit("5");
        reveal_strlit("6");
        reveal_strlit("7");
        reveal_strlit("8");
        reveal_strlit("9");
    }
    match d {
        0 => "0",
        1 => "1",
        2 => "2",
        3 => "3",
        4 => "4",
        5 => "5",
        6 => "6",
        7 => "7",
        8 => "8",
        _ => "9",
    }
}

fn push_dec(n: u64, s: &mut String)
    ensures
        final(s)@ == old(s)@ + dec_rep(n as nat),
    decreases n,
{
    if n < 10 {
        s.append(digit_str(n));
    } else {
        push_dec(n / 10, s);
        s.append(digit_str(n % 10));
        proof {
            assert(old(s)@ + dec_rep((n / 10) as nat) + seq![dec_digit((n % 10) as nat)] =~= old(
                s,
            )@ + (dec_rep((n / 10) as nat) + seq![dec_digit((n % 10) as nat)]));
        }
    }
}

/// Decimal rendering of a number, e.g. for argument counts in diagnostics.
pub fn u64_to_string(n: u64) -> (r: String)
    ensures
        r@ == dec_rep(n as nat),
{
    let mut s = String::new();
    push_dec(n, &mut s);
    proof {
        assert(Seq::<char>::empty() + dec_rep(n as nat) =~= dec_rep(n as nat));
    }
    s
}

} // verus!

verus! {

/// The detail text of an error, or the empty sequence when it has none.
pub open spec fn detail_of(e: ErrV) -> Seq<char> {
    match e.detail {
        Some(d) => d,
        None => Seq::empty(),
    }
}

/// The human-readable message of a diagnostic, with the offending source
/// text spliced in where the kind cites some.
pub open spec fn spec_message(e: ErrV) -> Seq<char> {
    match e.kind {
        ErrorKind::EndOfDirectiveToken => "Unexpected end of directive token"@,
        ErrorKind::DirectiveNotAlphanumeric => "Directive names must be alphanumeric!"@,
        ErrorKind::LabelNotAlphanumeric => "Label name must be alphanumeric!"@,
        ErrorKind::InstructionNotAlphanumeric => "Instruction name must be alphanumeric!"@,
        ErrorKind::IdentifierNotAlphanumeric => "Identifier name must be alphanumeric!"@,
        ErrorKind::UnterminatedString => "Expected closing '\"' for string literal"@,
        ErrorKind::EndOfToken => "Unexpected end of token"@,
        ErrorKind::BinaryLiteralInvalid => "'%' Can only be used for binary literals!"@,
        ErrorKind::RegisterNotAlphanumeric => "Register names must be alphanumeric!"@,
        ErrorKind::EndOfHexToken => "Unexpected end of hex literal token"@,
        ErrorKind::HexNotAlphanumeric => "Unexpected non-alphanumeric characters in hex literal!"@,
        ErrorKind::HexLiteralInvalid => "'$' Can only be used for hex literals!"@,
        ErrorKind::DecimalLiteralInvalid => "Unexpected non-numeric characters in decimal literal!"@,
        ErrorKind::UnexpectedTokenStart => "Unexpected value '"@ + detail_of(e)
            + "' at start of token"@,
        ErrorKind::BinaryOverflow => "Binary literal is larger than expected 16-bit word! (Max is %1111111111111111)"@,
        ErrorKind::DecimalOverflow => "Decimal literal is larger than expected 16-bit word! (Max is 65535)"@,
        ErrorKind::HexOverflow => "Hexadecimal literal is larger than expected 16-bit word! (Max is $FFFF)"@,
        ErrorKind::ProgramStart => "Unexpected token `"@ + detail_of(e)
            + "`. Program should start with either .data or .text section directive!"@,
        ErrorKind::ExpectedSectionDirective => "Expected program to start with either .data or .text section!"@,
        ErrorKind::DuplicateDataSection => "Duplicate section '.data'"@,
        ErrorKind::DuplicateTextSection => "Duplicate section '.text'"@,
        ErrorKind::IllegalDirective => "Illegal directive token `."@ + detail_of(e) + "`"@,
        ErrorKind::UnexpectedTokenInData => "Unexpected token `"@ + detail_of(e)
            + "` in data section."@,
        ErrorKind::UnexpectedTokenInText => "Unexpected token `"@ + detail_of(e)
            + "` in text section."@,
        ErrorKind::EmptyLabel => "Label `"@ + detail_of(e) + "` cannot be empty!"@,
        ErrorKind::ConstantTooShort => "Expected at least 2 tokens in constant."@,
        ErrorKind::ConstantMissingDirective => "First token in a constant must be a directive!"@,
        ErrorKind::ExpectedStringAfterAscii => "Expected string literal after .ascii directive!"@,
        ErrorKind::WordWithImmediateMarker => "The .word directive does not require an immediate `#` marker!"@,
        ErrorKind::ExpectedNumberAfterWord => "Expected a number literal after .word directive!"@,
        ErrorKind::UnknownConstantDirective => "Unknown constant directive `."@ + detail_of(e)
            + "`!"@,
        ErrorKind::ExpectedInstruction => "Lines inside a subroutine must start with an instruction"@,
        ErrorKind::UnexpectedArgumentSeparator => "Unexpected argument separator `,`!"@,
        ErrorKind::UnexpectedAfterNumber => "Unexpected token `"@ + detail_of(e)
            + "` after number literal!"@,
        ErrorKind::ExpectedNumberAfterImmediate => "Expected number literal after immediate specifier `#`!"@,
        ErrorKind::UnexpectedAfterImmediateSpecifier => "Unexpected token `"@ + detail_of(e)
            + "` after immediate specifier!"@,
        ErrorKind::UnexpectedAfterImmediateNumber => "Unexpected token `"@ + detail_of(e)
            + "` after immediate number literal!"@,
        ErrorKind::ExpectedAddressAfterParenthesis => "Expected memory address after opening parenthesis `(`!"@,
        ErrorKind::UnexpectedAfterParenthesis => "Unexpected token `"@ + detail_of(e)
            + "` after opening parenthesis!"@,
        ErrorKind::ExpectedCloseParenthesis => "Expected closing parenthesis after memory address!"@,
        ErrorKind::UnexpectedInsteadOfCloseParenthesis => "Unexpected token `"@ + detail_of(e)
            + "` after memory address! Expected closing parenthesis!"@,
        ErrorKind::UnexpectedAfterIndirectAddress => "Unexpected token `"@ + detail_of(e)
            + "` after indirect memory address!"@,
        ErrorKind::UnexpectedAfterLabelIdentifier => "Unexpected token `"@ + detail_of(e)
            + "` after label identifier!"@,
        ErrorKind::ExpectedIdentifierAfterBracket => "Expected label identifier after opening bracket `[`!"@,
        ErrorKind::UnexpectedAfterBracket => "Unexpected token `"@ + detail_of(e)
            + "` after opening bracket! Expected label identifier!"@,
        ErrorKind::ExpectedCloseBracket => "Expected closing bracket after label identifier!"@,
        ErrorKind::UnexpectedInsteadOfCloseBracket => "Unexpected token `"@ + detail_of(e)
            + "` after label identifier! Expected closing bracket!"@,
        ErrorKind::UnexpectedAfterLabelValue => "Unexpected token `"@ + detail_of(e)
            + "` after label dereference!"@,
        ErrorKind::UnexpectedAfterRegister => "Unexpected token `"@ + detail_of(e)
            + "` after register name!"@,
        ErrorKind::InvalidRegisterName => "Register name `"@ + detail_of(e) + "` is invalid!"@,
        ErrorKind::UnexpectedArgumentToken => "Unexpected token `"@ + detail_of(e)
            + "` in argument list!"@,
        ErrorKind::NopArgumentCount => "`nop` instruction expects 0 arguments, but got "@
            + detail_of(e),
        ErrorKind::MovArgumentCount => "`mov` instruction expects 2 arguments, but got "@
            + detail_of(e),
        ErrorKind::AddArgumentCount => "`add` instruction expects 1 or 2 arguments, but got "@
            + detail_of(e),
        ErrorKind::NoOverload => "Could not find valid overload of `"@ + detail_of(e)
            + "` instruction for supplied argument types"@,
        ErrorKind::NotImplemented => "Instruction `"@ + detail_of(e) + "` not implemented"@,
    }
}

/// Append the detail text to a fixed prefix.
fn compose_prefix(pre: &str, detail: &Option<String>) -> (r: String)
    ensures
        r@ == pre@ + (match detail {
            Some(d) => d@,
            None => Seq::<char>::empty(),
        }),
{
    let mut s = pre.to_owned();
    match detail {
        Some(d) => {
            s.append(d.as_str());
        },
        None => {
            proof {
                assert(pre@ + Seq::<char>::empty() =~= pre@);
            }
        },
    }
    s
}

/// Splice the detail text between a fixed prefix and suffix.
fn compose_message(pre: &str, detail: &Option<String>, post: &str) -> (r: String)
    ensures
        r@ == pre@ + (match detail {
            Some(d) => d@,
            None => Seq::<char>::empty(),
        }) + post@,
{
    let mut s = pre.to_owned();
    match detail {
        Some(d) => {
            s.append(d.as_str());
        },
        None => {
            proof {
                assert(pre@ + Seq::<char>::empty() =~= pre@);
            }
        },
    }
    s.append(post);
    s
}

impl AsmError {
    /// Render this diagnostic's message text.
    pub fn message(&self) -> (r: String)
        ensures
            r@ == spec_message(self@),
    {
        match self.kind {
            ErrorKind::EndOfDirectiveToken => "Unexpected end of directive token".to_owned(),
            ErrorKind::DirectiveNotAlphanumeric => "Directive names must be alphanumeric!".to_owned(),
            ErrorKind::LabelNotAlphanumeric => "Label name must be alphanumeric!".to_owned(),
            ErrorKind::InstructionNotAlphanumeric => "Instruction name must be alphanumeric!".to_owned(),
            ErrorKind::IdentifierNotAlphanumeric => "Identifier name must be alphanumeric!".to_owned(),
            ErrorKind::UnterminatedString => "Expected closing '\"' for string literal".to_owned(),
            ErrorKind::EndOfToken => "Unexpected end of token".to_owned(),
            ErrorKind::BinaryLiteralInvalid => "'%' Can only be used for binary literals!".to_owned(),
            ErrorKind::RegisterNotAlphanumeric => "Register names must be alphanumeric!".to_owned(),
            ErrorKind::EndOfHexToken => "Unexpected end of hex literal token".to_owned(),
            ErrorKind::HexNotAlphanumeric => "Unexpected non-alphanumeric characters in hex literal!".to_owned(),
            ErrorKind::HexLiteralInvalid => "'$' Can only be used for hex literals!".to_owned(),
            ErrorKind::DecimalLiteralInvalid => "Unexpected non-numeric characters in decimal literal!".to_owned(),
            ErrorKind::UnexpectedTokenStart => compose_message(
                "Unexpected value '",
                &self.detail,
                "' at start of token",
            ),
            ErrorKind::BinaryOverflow => "Binary literal is larger than expected 16-bit word! (Max is %1111111111111111)".to_owned(),
            ErrorKind::DecimalOverflow => "Decimal literal is larger than expected 16-bit word! (Max is 65535)".to_owned(),
            ErrorKind::HexOverflow => "Hexadecimal literal is larger than expected 16-bit word! (Max is $FFFF)".to_owned(),
            ErrorKind::ProgramStart => compose_message(
                "Unexpected token `",
                &self.detail,
                "`. Program should start with either .data or .text section directive!",
            ),
            ErrorKind::ExpectedSectionDirective => "Expected program to start with either .data or .text section!".to_owned(),
            ErrorKind::DuplicateDataSection => "Duplicate section '.data'".to_owned(),
            ErrorKind::DuplicateTextSection => "Duplicate section '.text'".to_owned(),
            ErrorKind::IllegalDirective => compose_message(
                "Illegal directive token `.",
                &self.detail,
                "`",
            ),
            ErrorKind::UnexpectedTokenInData => compose_message(
                "Unexpected token `",
                &self.detail,
                "` in data section.",
            ),
            ErrorKind::UnexpectedTokenInText => compose_message(
                "Unexpected token `",
                &self.detail,
                "` in text section.",
            ),
            ErrorKind::EmptyLabel => compose_message("Label `", &self.detail, "` cannot be empty!"),
            ErrorKind::ConstantTooShort => "Expected at least 2 tokens in constant.".to_owned(),
            ErrorKind::ConstantMissingDirective => "First token in a constant must be a directive!".to_owned(),
            ErrorKind::ExpectedStringAfterAscii => "Expected string literal after .ascii directive!".to_owned(),
            ErrorKind::WordWithImmediateMarker => "The .word directive does not require an immediate `#` marker!".to_owned(),
            ErrorKind::ExpectedNumberAfterWord => "Expected a number literal after .word directive!".to_owned(),
            ErrorKind::UnknownConstantDirective => compose_message(
                "Unknown constant directive `.",
                &self.detail,
                "`!",
            ),
            ErrorKind::ExpectedInstruction => "Lines inside a subroutine must start with an instruction".to_owned(),
            ErrorKind::UnexpectedArgumentSeparator => "Unexpected argument separator `,`!".to_owned(),
            ErrorKind::UnexpectedAfterNumber => compose_message(
                "Unexpected token `",
                &self.detail,
                "` after number literal!",
            ),
            ErrorKind::ExpectedNumberAfterImmediate => "Expected number literal after immediate specifier `#`!".to_owned(),
            ErrorKind::UnexpectedAfterImmediateSpecifier => compose_message(
                "Unexpected token `",
                &self.detail,
                "` after immediate specifier!",
            ),
            ErrorKind::UnexpectedAfterImmediateNumber => compose_message(
                "Unexpected token `",
                &self.detail,
                "` after immediate number literal!",
            ),
            ErrorKind::ExpectedAddressAfterParenthesis => "Expected memory address after opening parenthesis `(`!".to_owned(),
            ErrorKind::UnexpectedAfterParenthesis => compose_message(
                "Unexpected token `",
                &self.detail,
                "` after opening parenthesis!",
            ),
            ErrorKind::ExpectedCloseParenthesis => "Expected closing parenthesis after memory address!".to_owned(),
            ErrorKind::UnexpectedInsteadOfCloseParenthesis => compose_message(
                "Unexpected token `",
                &self.detail,
                "` after memory address! Expected closing parenthesis!",
            ),
            ErrorKind::UnexpectedAfterIndirectAddress => compose_message(
                "Unexpected token `",
                &self.detail,
                "` after indirect memory address!",
            ),
            ErrorKind::UnexpectedAfterLabelIdentifier => compose_message(
                "Unexpected token `",
                &self.detail,
                "` after label identifier!",
            ),
            ErrorKind::ExpectedIdentifierAfterBracket => "Expected label identifier after opening bracket `[`!".to_owned(),
            ErrorKind::UnexpectedAfterBracket => compose_message(
                "Unexpected token `",
                &self.detail,
                "` after opening bracket! Expected label identifier!",
            ),
            ErrorKind::ExpectedCloseBracket => "Expected closing bracket after label identifier!".to_owned(),
            ErrorKind::UnexpectedInsteadOfCloseBracket => compose_message(
                "Unexpected token `",
                &self.detail,
                "` after label identifier! Expected closing bracket!",
            ),
            ErrorKind::UnexpectedAfterLabelValue => compose_message(
                "Unexpected token `",
                &self.detail,
                "` after label dereference!",
            ),
            ErrorKind::UnexpectedAfterRegister => compose_message(
                "Unexpected token `",
                &self.detail,
                "` after register name!",
            ),
            ErrorKind::InvalidRegisterName => compose_message(
                "Register name `",
                &self.detail,
                "` is invalid!",
            ),
            ErrorKind::UnexpectedArgumentToken => compose_message(
                "Unexpected token `",
                &self.detail,
                "` in argument list!",
            ),
            ErrorKind::NopArgumentCount => compose_prefix(
                "`nop` instruction expects 0 arguments, but got ",
                &self.detail,
            ),
            ErrorKind::MovArgumentCount => compose_prefix(
                "`mov` instruction expects 2 arguments, but got ",
                &self.detail,
            ),
            ErrorKind::AddArgumentCount => compose_prefix(
                "`add` instruction expects 1 or 2 arguments, but got ",
                &self.detail,
            ),
            ErrorKind::NoOverload => compose_message(
                "Could not find valid overload of `",
                &self.detail,
                "` instruction for supplied argument types",
            ),
            ErrorKind::NotImplemented => compose_message(
                "Instruction `",
                &self.detail,
                "` not implemented",
            ),
        }
    }
}

} // verus!

verus! {

/// `n` copies of one character.
pub open spec fn repeat_char(c: char, n: nat) -> Seq<char>
    decreases n,
{
    if n == 0 {
        Seq::empty()
    } else {
        repeat_char(c, (n - 1) as nat) + seq![c]
    }
}

/// A line number rendered right-aligned to a width of three characters.
pub open spec fn pad3(n: nat) -> Seq<char> {
    if n < 10 {
        seq![' ', ' '] + dec_rep(n)
    } else if n < 100 {
        seq![' '] + dec_rep(n)
    } else {
        dec_rep(n)
    }
}

/// The rendered diagnostic report, line by line: the message, the
/// location as `path:line:column` (1-based), up to three lines of source
/// context ending at the error line, a caret underline spanning exactly
/// the error's column range, and a `here` marker aligned under it.
pub open spec fn spec_report(e: ErrV, path: Seq<char>, src: Seq<Seq<char>>) -> Seq<Seq<char>> {
    let msg_line = "[ERROR] "@ + spec_message(e);
    let loc_line = path + seq![':'] + dec_rep(e.line + 1) + seq![':'] + dec_rep(e.col_start + 1);
    let ctx = Seq::new(
        if e.line < 2 {
            e.line + 1
        } else {
            3
        },
        |k: int|
            {
                let n = if e.line < 2 {
                    k
                } else {
                    e.line - 2 + k
                };
                pad3((n + 1) as nat) + ": "@ + src[n]
            },
    );
    let caret_line = repeat_char(' ', e.col_start + 5) + repeat_char(
        '^',
        (e.col_end - e.col_start) as nat,
    );
    let here_line = repeat_char(' ', e.col_start + 5) + "here"@;
    seq![msg_line, loc_line] + ctx + seq![caret_line, here_line]
}

fn repeat_str(piece: &str, count: u64) -> (r: String)
    requires
        piece@.len() == 1,
    ensures
        r@ == repeat_char(piece@[0], count as nat),
{
    let mut s = String::new();
    let mut i: u64 = 0;
    proof {
        assert(s@ =~= repeat_char(piece@[0], 0));
    }
    while i < count
        invariant
            i <= count,
            piece@.len() == 1,
            s@ == repeat_char(piece@[0], i as nat),
        decreases count - i,
    {
        s.append(piece);
        proof {
            assert(repeat_char(piece@[0], (i + 1) as nat) == repeat_char(piece@[0], i as nat)
                + seq![piece@[0]]);
            assert(seq![piece@[0]] =~= piece@);
        }
        i += 1;
    }
    s
}

fn pad3_string(n: u64) -> (r: String)
    ensures
        r@ == pad3(n as nat),
{
    let digits = u64_to_string(n);
    let mut s;
    if n < 10 {
        s = "  ".to_owned();
        proof {
            reveal_strlit("  ");
            assert("  "@ =~= seq![' ', ' ']);
        }
    } else if n < 100 {
        s = " ".to_owned();
        proof {
            reveal_strlit(" ");
            assert(" "@ =~= seq![' ']);
        }
    } else {
        s = "".to_owned();
        proof {
            reveal_strlit("");
            assert(""@ =~= Seq::<char>::empty());
            assert(Seq::<char>::empty() + dec_rep(n as nat) =~= dec_rep(n as nat));
        }
    }
    s.append(digits.as_str());
    s
}

impl AsmError {
    /// Render the full report for this diagnostic: message, location,
    /// source context, caret underline and `here` marker, one output line
    /// per element.  `path` is the (canonicalized) path of the source
    /// file; `src` holds the source lines the error's span refers into.
    pub fn report(&self, path: &str, src: &Vec<String>) -> (r: Vec<String>)
        requires
            self@.line < src@.len(),
            self@.col_start <= self@.col_end,
            src@.len() <= u32::MAX,
        ensures
            r@.map_values(|s: String| s@) == spec_report(
                self@,
                path@,
                src@.map_values(|s: String| s@),
            ),
    {
        let ghost srcv = src@.map_values(|s: String| s@);
        let mut out: Vec<String> = Vec::new();

        let mut msg_line = "[ERROR] ".to_owned();
        msg_line.append(self.message().as_str());
        out.push(msg_line);

        let mut loc_line = path.to_owned();
        loc_line.append(":");
        loc_line.append(u64_to_string(self.line as u64 + 1).as_str());
        loc_line.append(":");
        loc_line.append(u64_to_string(self.col_start as u64 + 1).as_str());
        proof {
            reveal_strlit(":");
            assert(":"@ =~= seq![':']);
        }
        out.push(loc_line);

        let first: u32 = if self.line < 2 {
            0
        } else {
            self.line - 2
        };
        let mut n = first;
        while n <= self.line
            invariant
                first <= n <= self@.line + 1,
                self@.line < srcv.len() <= u32::MAX,
                srcv == src@.map_values(|s: String| s@),
                out@.len() == 2 + n - first,
                forall|k: int| 0 <= k < out@.len() - 2 ==> #[trigger] out@[k + 2]@ == pad3(
                    (first + k + 1) as nat,
                ) + ": "@ + srcv[first + k],
                out@[0]@ == "[ERROR] "@ + spec_message(self@),
                out@[1]@ == path@ + seq![':'] + dec_rep(self@.line + 1) + seq![':'] + dec_rep(
                    self@.col_start + 1,
                ),
            decreases self@.line + 1 - n,
        {
            let mut ctx_line = pad3_string(n as u64 + 1);
            ctx_line.append(": ");
            ctx_line.append(src[n as usize].as_str());
            proof {
                reveal_strlit(": ");
                assert(": "@ =~= seq![':', ' ']);
                assert(srcv[n as int] == src@[n as int]@);
            }
            out.push(ctx_line);
            n += 1;
        }

        let ghost mid = out@;
        proof {
            reveal_strlit(" ");
            reveal_strlit("^");
        }
        let mut caret_line = repeat_str(" ", self.col_start as u64 + 5);
        caret_line.append(repeat_str("^", (self.col_end - self.col_start) as u64).as_str());
        out.push(caret_line);

        let mut here_line = repeat_str(" ", self.col_start as u64 + 5);
        here_line.append("here");
        out.push(here_line);

        proof {
            let outv = out@.map_values(|s: String| s@);
            let rep = spec_report(self@, path@, srcv);
            assert(mid.len() == 2 + (self@.line + 1 - first));
            assert(outv.len() == rep.len());
            assert forall|k: int| 0 <= k < outv.len() implies outv[k] == rep[k] by {
                assert(outv[k] == out@[k]@);
                if k < mid.len() {
                    assert(out@[k] == mid[k]);
                }
                if k == 0 {
                } else if k == 1 {
                } else if k < mid.len() {
                    assert(mid[(k - 2) + 2]@ == pad3((first + (k - 2) + 1) as nat) + ": "@
                        + srcv[first + (k - 2)]);
                } else if k == mid.len() {
                    assert(out@[k] == caret_line);
                } else {
                    assert(out@[k] == here_line);
                }
            }
            assert(outv =~= rep);
        }
        out
    }
}

} // verus!
