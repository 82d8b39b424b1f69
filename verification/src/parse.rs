//! The parser: turns the token stream into a validated [`Program`] syntax
//! tree with at most one data section and one text section.
//!
//! The mathematical model is [`spec_parse_program`], a recursive function
//! over the token views; [`build_program`] is proved to return exactly its
//! value.  Instruction operand shapes are resolved per mnemonic: an
//! [`Instruction`] value can only represent an operand combination the
//! instruction set supports.

use vstd::prelude::*;

use crate::diag::{dec_rep, err_plain, err_text, u64_to_string, AsmError, ErrV, ErrorKind};
use crate::token::{
    overflow_err, tok_value, tokens_wf, toks_view, Token, TokenType, TokenTypeV, TokenV,
};

verus! {

// ---------------------------------------------------------------------------
// The syntax tree
// ---------------------------------------------------------------------------

/// A parsed program: at most one data section and one text section.
#[derive(Debug, PartialEq, Eq, Clone)]
pub struct Program {
    pub text: Option<TextSection>,
    pub data: Option<DataSection>,
}

/// The `.data` section: an ordered sequence of constant labels.
#[derive(Debug, PartialEq, Eq, Clone)]
pub struct DataSection {
    pub labels: Vec<ConstantLabel>,
}

/// One label of the data section with its non-empty list of constants.
#[derive(Debug, PartialEq, Eq, Clone)]
pub struct ConstantLabel {
    pub name: String,
    pub constants: Vec<ConstantLabelType>,
}

/// A single constant of a data label.
#[derive(Debug, PartialEq, Eq, Clone)]
pub enum ConstantLabelType {
    StringLiteral(String),
    Word(u16),
}

/// The `.text` section: an ordered sequence of subroutine labels.
#[derive(Debug, PartialEq, Eq, Clone)]
pub struct TextSection {
    pub labels: Vec<SubroutineLabel>,
}

/// One label of the text section with its non-empty instruction list.
#[derive(Debug, PartialEq, Eq, Clone)]
pub struct SubroutineLabel {
    pub name: String,
    pub instructions: Vec<Instruction>,
}

/// One parsed instruction operand.
#[derive(Debug, PartialEq, Eq, Clone)]
pub enum InstructionArgumentType {
    /// `#$FFFF` — an immediate 16-bit value.
    Immediate(u16),
    /// `$FFFF` — a direct memory address.
    MemoryAddress(u16),
    /// `($FFFF)` — an indirect memory address.
    MemoryAddressIndirect(u16),
    /// `boot_loader` — the address a label stands for.
    LabelAddress(String),
    /// `[boot_loader]` — the value a label stands for.
    LabelValue(String),
    /// `%eax` — a register operand.
    Register(Register),
}

/// The machine's registers, resolved case-insensitively by name.
#[derive(Debug, PartialEq, Eq, Clone, Copy, Structural)]
pub enum Register {
    /* narrow */
    AX,
    BX,
    CX,
    DX,
    EX,
    /* wide */
    EAX,
    EBX,
    ECX,
    EDX,
    EEX,
}

/// A parsed instruction.  The variant encodes both the mnemonic and the
/// operand combination, so only supported combinations are representable.
/// Variants past `add_ImmediateToRegister` document the instruction set's
/// full surface; the parser reports their mnemonics as not implemented.
#[allow(non_camel_case_types)]
#[derive(Debug, PartialEq, Eq, Clone)]
pub enum Instruction {
    /* nop */
    nop,
    /* mov */
    mov_RegisterToMemory(u16, Register),
    mov_MemoryToRegister(Register, u16),
    mov_ImmediateToRegister(Register, u16),
    mov_RegisterToRegister(Register, Register),
    mov_ImmediateToMemory8(u16, u8),
    mov_ImmediateToMemory16(u16, u16),
    /* add - accumulator */
    add_RegisterToAccumulator(Register),
    add_ImmediateToAccumulator(u16),
    /* add - to register */
    add_RegisterToRegister(Register, Register),
    add_ImmediateToRegister(Register, u16),
    /* inc/dec - accumulator */
    inc_Accumulator,
    dec_Accumulator,
    /* inc/dec - register */
    inc_Register(Register),
    dec_Register(Register),
    /* jumps, by target label name */
    jmp_Immediate(u16),
    jmp_Register(Register),
    jmp_Memory(u16),
    jmp_Label(String),
    jsr(String),
    ret,
    /* syscalls */
    syscall,
    ssc(u16),
    /* stack */
    push_Immediate(u16),
    push_Memory(u16),
    push_Register(Register),
    pop_Memory(u16),
    pop_Register(Register),
}

// ---------------------------------------------------------------------------
// Views
// ---------------------------------------------------------------------------

/// View of a vector of constants.
pub open spec fn consts_view(v: Seq<ConstantLabelType>) -> Seq<ConstantLabelTypeV> {
    v.map_values(|c: ConstantLabelType| c@)
}

/// View of a vector of constant labels.
pub open spec fn clabels_view(v: Seq<ConstantLabel>) -> Seq<ConstantLabelV> {
    v.map_values(|l: ConstantLabel| l@)
}

/// View of a vector of instructions.
pub open spec fn instrs_view(v: Seq<Instruction>) -> Seq<InstructionV> {
    v.map_values(|i: Instruction| i@)
}

/// View of a vector of subroutine labels.
pub open spec fn slabels_view(v: Seq<SubroutineLabel>) -> Seq<SubroutineLabelV> {
    v.map_values(|l: SubroutineLabel| l@)
}

/// View of an optional data section.
pub open spec fn data_opt_view(o: Option<DataSection>) -> Option<DataSectionV> {
    match o {
        Some(d) => Some(d@),
        None => None,
    }
}

/// View of an optional text section.
pub open spec fn text_opt_view(o: Option<TextSection>) -> Option<TextSectionV> {
    match o {
        Some(t) => Some(t@),
        None => None,
    }
}

/// Mathematical model of a [`ConstantLabelType`].
pub ghost enum ConstantLabelTypeV {
    StringLiteral(Seq<char>),
    Word(u16),
}

/// Mathematical model of a [`ConstantLabel`].
pub ghost struct ConstantLabelV {
    pub name: Seq<char>,
    pub constants: Seq<ConstantLabelTypeV>,
}

/// Mathematical model of a [`DataSection`].
pub ghost struct DataSectionV {
    pub labels: Seq<ConstantLabelV>,
}

/// Mathematical model of an [`InstructionArgumentType`].
pub ghost enum InstructionArgumentTypeV {
    Immediate(u16),
    MemoryAddress(u16),
    MemoryAddressIndirect(u16),
    LabelAddress(Seq<char>),
    LabelValue(Seq<char>),
    Register(Register),
}

/// Mathematical model of an [`Instruction`].
#[allow(non_camel_case_types)]
pub ghost enum InstructionV {
    nop,
    mov_RegisterToMemory(u16, Register),
    mov_MemoryToRegister(Register, u16),
    mov_ImmediateToRegister(Register, u16),
    mov_RegisterToRegister(Register, Register),
    mov_ImmediateToMemory8(u16, u8),
    mov_ImmediateToMemory16(u16, u16),
    add_RegisterToAccumulator(Register),
    add_ImmediateToAccumulator(u16),
    add_RegisterToRegister(Register, Register),
    add_ImmediateToRegister(Register, u16),
    inc_Accumulator,
    dec_Accumulator,
    inc_Register(Register),
    dec_Register(Register),
    jmp_Immediate(u16),
    jmp_Register(Register),
    jmp_Memory(u16),
    jmp_Label(Seq<char>),
    jsr(Seq<char>),
    ret,
    syscall,
    ssc(u16),
    push_Immediate(u16),
    push_Memory(u16),
    push_Register(Register),
    pop_Memory(u16),
    pop_Register(Register),
}

/// Mathematical model of a [`SubroutineLabel`].
pub ghost struct SubroutineLabelV {
    pub name: Seq<char>,
    pub instructions: Seq<InstructionV>,
}

/// Mathematical model of a [`TextSection`].
pub ghost struct TextSectionV {
    pub labels: Seq<SubroutineLabelV>,
}

/// Mathematical model of a [`Program`].
pub ghost struct ProgramV {
    pub text: Option<TextSectionV>,
    pub data: Option<DataSectionV>,
}

impl View for ConstantLabelType {
    type V = ConstantLabelTypeV;

    open spec fn view(&self) -> ConstantLabelTypeV {
        match self {
            ConstantLabelType::StringLiteral(s) => ConstantLabelTypeV::StringLiteral(s@),
            ConstantLabelType::Word(w) => ConstantLabelTypeV::Word(*w),
        }
    }
}

impl View for ConstantLabel {
    type V = ConstantLabelV;

    open spec fn view(&self) -> ConstantLabelV {
        ConstantLabelV { name: self.name@, constants: consts_view(self.constants@) }
    }
}

impl View for DataSection {
    type V = DataSectionV;

    open spec fn view(&self) -> DataSectionV {
        DataSectionV { labels: clabels_view(self.labels@) }
    }
}

impl View for InstructionArgumentType {
    type V = InstructionArgumentTypeV;

    open spec fn view(&self) -> InstructionArgumentTypeV {
        match self {
            InstructionArgumentType::Immediate(v) => InstructionArgumentTypeV::Immediate(*v),
            InstructionArgumentType::MemoryAddress(v) => InstructionArgumentTypeV::MemoryAddress(
                *v,
            ),
            InstructionArgumentType::MemoryAddressIndirect(
                v,
            ) => InstructionArgumentTypeV::MemoryAddressIndirect(*v),
            InstructionArgumentType::LabelAddress(s) => InstructionArgumentTypeV::LabelAddress(s@),
            InstructionArgumentType::LabelValue(s) => InstructionArgumentTypeV::LabelValue(s@),
            InstructionArgumentType::Register(r) => InstructionArgumentTypeV::Register(*r),
        }
    }
}

impl View for Instruction {
    type V = InstructionV;

    open spec fn view(&self) -> InstructionV {
        match self {
            Instruction::nop => InstructionV::nop,
            Instruction::mov_RegisterToMemory(a, r) => InstructionV::mov_RegisterToMemory(*a, *r),
            Instruction::mov_MemoryToRegister(r, a) => InstructionV::mov_MemoryToRegister(*r, *a),
            Instruction::mov_ImmediateToRegister(r, v) => InstructionV::mov_ImmediateToRegister(
                *r,
                *v,
            ),
            Instruction::mov_RegisterToRegister(d, s) => InstructionV::mov_RegisterToRegister(
                *d,
                *s,
            ),
            Instruction::mov_ImmediateToMemory8(a, v) => InstructionV::mov_ImmediateToMemory8(
                *a,
                *v,
            ),
            Instruction::mov_ImmediateToMemory16(a, v) => InstructionV::mov_ImmediateToMemory16(
                *a,
                *v,
            ),
            Instruction::add_RegisterToAccumulator(r) => InstructionV::add_RegisterToAccumulator(
                *r,
            ),
            Instruction::add_ImmediateToAccumulator(v) => InstructionV::add_ImmediateToAccumulator(
                *v,
            ),
            Instruction::add_RegisterToRegister(d, s) => InstructionV::add_RegisterToRegister(
                *d,
                *s,
            ),
            Instruction::add_ImmediateToRegister(r, v) => InstructionV::add_ImmediateToRegister(
                *r,
                *v,
            ),
            Instruction::inc_Accumulator => InstructionV::inc_Accumulator,
            Instruction::dec_Accumulator => InstructionV::dec_Accumulator,
            Instruction::inc_Register(r) => InstructionV::inc_Register(*r),
            Instruction::dec_Register(r) => InstructionV::dec_Register(*r),
            Instruction::jmp_Immediate(v) => InstructionV::jmp_Immediate(*v),
            Instruction::jmp_Register(r) => InstructionV::jmp_Register(*r),
            Instruction::jmp_Memory(v) => InstructionV::jmp_Memory(*v),
            Instruction::jmp_Label(s) => InstructionV::jmp_Label(s@),
            Instruction::jsr(s) => InstructionV::jsr(s@),
            Instruction::ret => InstructionV::ret,
            Instruction::syscall => InstructionV::syscall,
            Instruction::ssc(v) => InstructionV::ssc(*v),
            Instruction::push_Immediate(v) => InstructionV::push_Immediate(*v),
            Instruction::push_Memory(v) => InstructionV::push_Memory(*v),
            Instruction::push_Register(r) => InstructionV::push_Register(*r),
            Instruction::pop_Memory(v) => InstructionV::pop_Memory(*v),
            Instruction::pop_Register(r) => InstructionV::pop_Register(*r),
        }
    }
}

impl View for SubroutineLabel {
    type V = SubroutineLabelV;

    open spec fn view(&self) -> SubroutineLabelV {
        SubroutineLabelV { name: self.name@, instructions: instrs_view(self.instructions@) }
    }
}

impl View for TextSection {
    type V = TextSectionV;

    open spec fn view(&self) -> TextSectionV {
        TextSectionV { labels: slabels_view(self.labels@) }
    }
}

impl View for Program {
    type V = ProgramV;

    open spec fn view(&self) -> ProgramV {
        ProgramV { text: text_opt_view(self.text), data: data_opt_view(self.data) }
    }
}

/// View of a vector of parsed operands.
pub open spec fn args_view(v: Seq<InstructionArgumentType>) -> Seq<InstructionArgumentTypeV> {
    v.map_values(|a: InstructionArgumentType| a@)
}

// ---------------------------------------------------------------------------
// String comparison helpers
// ---------------------------------------------------------------------------

/// ASCII lowercase of one character.
pub open spec fn lower_char(c: char) -> char {
    if 'A' <= c && c <= 'Z' {
        (((c as u32) + 32) as u32) as char
    } else {
        c
    }
}

/// ASCII lowercase of a character sequence.
pub open spec fn lower_seq(s: Seq<char>) -> Seq<char> {
    s.map_values(|c: char| lower_char(c))
}

/// Character-exact string comparison.
fn str_eq_str(a: &str, b: &str) -> (r: bool)
    ensures
        r == (a@ == b@),
{
    let n = a.unicode_len();
    let m = b.unicode_len();
    if n != m {
        return false;
    }
    let mut i: usize = 0;
    while i < n
        invariant
            i <= n == a@.len() == b@.len(),
            forall|k: int| 0 <= k < i ==> a@[k] == b@[k],
        decreases n - i,
    {
        if a.get_char(i) != b.get_char(i) {
            return false;
        }
        i += 1;
    }
    proof {
        assert(a@ =~= b@);
    }
    true
}

/// Case-insensitive comparison of `name` against an already-lowercase
/// `target`.
fn lower_eq(name: &str, target: &str) -> (r: bool)
    ensures
        r == (lower_seq(name@) == target@),
{
    let n = name.unicode_len();
    let m = target.unicode_len();
    if n != m {
        return false;
    }
    let mut i: usize = 0;
    while i < n
        invariant
            i <= n == name@.len() == target@.len(),
            forall|k: int| 0 <= k < i ==> lower_char(name@[k]) == target@[k],
        decreases n - i,
    {
        let c = name.get_char(i);
        let t = target.get_char(i);
        let u = c as u32;
        let ok = if 65 <= u && u <= 90 {
            (t as u32) == u + 32
        } else {
            t == c
        };
        if !ok {
            assert(lower_char(name@[i as int]) != target@[i as int]);
            return false;
        }
        i += 1;
    }
    proof {
        assert(lower_seq(name@) =~= target@);
    }
    true
}

// ---------------------------------------------------------------------------
// Registers
// ---------------------------------------------------------------------------

/// The register a name denotes, compared case-insensitively.
pub open spec fn spec_register_of(name: Seq<char>) -> Option<Register> {
    let l = lower_seq(name);
    if l == "ax"@ {
        Some(Register::AX)
    } else if l == "bx"@ {
        Some(Register::BX)
    } else if l == "cx"@ {
        Some(Register::CX)
    } else if l == "dx"@ {
        Some(Register::DX)
    } else if l == "ex"@ {
        Some(Register::EX)
    } else if l == "eax"@ {
        Some(Register::EAX)
    } else if l == "ebx"@ {
        Some(Register::EBX)
    } else if l == "ecx"@ {
        Some(Register::ECX)
    } else if l == "edx"@ {
        Some(Register::EDX)
    } else if l == "eex"@ {
        Some(Register::EEX)
    } else {
        None
    }
}

impl Register {
    /// Resolve a register name, case-insensitively; `None` when the name
    /// denotes no register.
    pub fn from_name(name: &String) -> (r: Option<Register>)
        ensures
            r == spec_register_of(name@),
    {
        if lower_eq(name.as_str(), "ax") {
            Some(Register::AX)
        } else if lower_eq(name.as_str(), "bx") {
            Some(Register::BX)
        } else if lower_eq(name.as_str(), "cx") {
            Some(Register::CX)
        } else if lower_eq(name.as_str(), "dx") {
            Some(Register::DX)
        } else if lower_eq(name.as_str(), "ex") {
            Some(Register::EX)
        } else if lower_eq(name.as_str(), "eax") {
            Some(Register::EAX)
        } else if lower_eq(name.as_str(), "ebx") {
            Some(Register::EBX)
        } else if lower_eq(name.as_str(), "ecx") {
            Some(Register::ECX)
        } else if lower_eq(name.as_str(), "edx") {
            Some(Register::EDX)
        } else if lower_eq(name.as_str(), "eex") {
            Some(Register::EEX)
        } else {
            None
        }
    }
}

} // verus!

verus! {

// ---------------------------------------------------------------------------
// Token stream boundaries
// ---------------------------------------------------------------------------

/// Is this token a `.data` or `.text` directive (a section boundary)?
pub open spec fn is_section_directive(t: TokenV) -> bool {
    match t.kind {
        TokenTypeV::Directive(name) => name == "data"@ || name == "text"@,
        _ => false,
    }
}

/// Is this token a label?
pub open spec fn is_label_tok(t: TokenV) -> bool {
    match t.kind {
        TokenTypeV::Label(_) => true,
        _ => false,
    }
}

/// Is this token a comma?
pub open spec fn is_comma_tok(t: TokenV) -> bool {
    match t.kind {
        TokenTypeV::Comma => true,
        _ => false,
    }
}

/// The error `kind` spanning exactly the token `t`.
pub open spec fn tok_err(kind: ErrorKind, t: TokenV) -> ErrV {
    err_plain(kind, t.line, t.col_start, t.col_end)
}

/// The error `kind` spanning the token `t` and citing the text `d`.
pub open spec fn tok_err_text(kind: ErrorKind, d: Seq<char>, t: TokenV) -> ErrV {
    err_text(kind, d, t.line, t.col_start, t.col_end)
}

/// Number of tokens from `i` up to (excluding) the next label or section
/// directive, or up to the end of the stream: the extent of one label's run.
pub open spec fn run_len(toks: Seq<TokenV>, i: int) -> nat
    decreases toks.len() - i,
{
    if i < 0 || i >= toks.len() || is_section_directive(toks[i]) || is_label_tok(toks[i]) {
        0
    } else {
        1 + run_len(toks, i + 1)
    }
}

/// The run from `i` stays inside the stream and stops at its end, a label,
/// or a section directive; no token inside it is either.
pub proof fn lemma_run_len(toks: Seq<TokenV>, i: int)
    requires
        0 <= i <= toks.len(),
    ensures
        i + run_len(toks, i) <= toks.len(),
        forall|k: int|
            i <= k < i + run_len(toks, i) ==> !is_section_directive(#[trigger] toks[k])
                && !is_label_tok(toks[k]),
        i + run_len(toks, i) == toks.len() || is_section_directive(toks[i + run_len(toks, i)])
            || is_label_tok(toks[i + run_len(toks, i)]),
    decreases toks.len() - i,
{
    if i < toks.len() && !is_section_directive(toks[i]) && !is_label_tok(toks[i]) {
        lemma_run_len(toks, i + 1);
    }
}

/// Number of tokens from `i` up to (excluding) the next comma, or up to `e`.
pub open spec fn comma_len(toks: Seq<TokenV>, i: int, e: int) -> nat
    decreases e - i,
{
    if i < 0 || i >= e || i >= toks.len() || is_comma_tok(toks[i]) {
        0
    } else {
        1 + comma_len(toks, i + 1, e)
    }
}

/// The comma scan stays inside `[i, e)`, covers no comma, and stops at `e`
/// or at a comma.
pub proof fn lemma_comma_len(toks: Seq<TokenV>, i: int, e: int)
    requires
        0 <= i <= e <= toks.len(),
    ensures
        i + comma_len(toks, i, e) <= e,
        forall|k: int| i <= k < i + comma_len(toks, i, e) ==> !is_comma_tok(#[trigger] toks[k]),
        i + comma_len(toks, i, e) == e || is_comma_tok(toks[i + comma_len(toks, i, e)]),
    decreases e - i,
{
    if i < e && !is_comma_tok(toks[i]) {
        lemma_comma_len(toks, i + 1, e);
    }
}

/// Number of tokens from `i` still on line `ln`.
pub open spec fn line_len(toks: Seq<TokenV>, i: int, ln: nat) -> nat
    decreases toks.len() - i,
{
    if i < 0 || i >= toks.len() || toks[i].line != ln {
        0
    } else {
        1 + line_len(toks, i + 1, ln)
    }
}

/// The line scan stays inside the stream, covers only tokens of line `ln`,
/// and stops at the stream's end or at a token of another line.
pub proof fn lemma_line_len(toks: Seq<TokenV>, i: int, ln: nat)
    requires
        0 <= i <= toks.len(),
    ensures
        i + line_len(toks, i, ln) <= toks.len(),
        forall|k: int| i <= k < i + line_len(toks, i, ln) ==> (#[trigger] toks[k]).line == ln,
        i + line_len(toks, i, ln) == toks.len() || toks[i + line_len(toks, i, ln)].line != ln,
    decreases toks.len() - i,
{
    if i < toks.len() && toks[i].line == ln {
        lemma_line_len(toks, i + 1, ln);
    }
}

/// End of the instruction line beginning at token `j`, capped at `e`: the
/// tokens `[j, eol)` share `j`'s source line.
pub open spec fn eol_at(toks: Seq<TokenV>, j: int, e: int) -> int {
    let le = j + 1 + line_len(toks, j + 1, toks[j].line);
    if le > e {
        e
    } else {
        le
    }
}

// ---------------------------------------------------------------------------
// Result combinators
// ---------------------------------------------------------------------------

/// Prepend already-parsed items to the outcome of parsing the remainder.
pub open spec fn grow<T>(pre: Seq<T>, r: Result<Seq<T>, ErrV>) -> Result<Seq<T>, ErrV> {
    match r {
        Ok(s) => Ok(pre + s),
        Err(e) => Err(e),
    }
}

/// As [`grow`], for parsers that also return a resume position.
pub open spec fn grow_at<T>(pre: Seq<T>, r: Result<(Seq<T>, int), ErrV>) -> Result<
    (Seq<T>, int),
    ErrV,
> {
    match r {
        Ok((s, j)) => Ok((pre + s, j)),
        Err(e) => Err(e),
    }
}

/// Cons one parsed item onto the outcome of parsing the remainder.
pub open spec fn cons_parsed<T>(x: Result<T, ErrV>, r: Result<Seq<T>, ErrV>) -> Result<
    Seq<T>,
    ErrV,
> {
    match x {
        Ok(v) => grow(seq![v], r),
        Err(e) => Err(e),
    }
}

/// Shifting parsed items from the pending side to the finished side leaves
/// the outcome unchanged.
proof fn lemma_grow_assoc<T>(pre: Seq<T>, one: Seq<T>, r: Result<Seq<T>, ErrV>)
    ensures
        grow(pre, grow(one, r)) == grow(pre + one, r),
{
    match r {
        Ok(s) => {
            assert(pre + (one + s) =~= (pre + one) + s);
        },
        Err(_) => {},
    }
}

/// As [`lemma_grow_assoc`], for parsers that also return a resume position.
proof fn lemma_grow_at_assoc<T>(pre: Seq<T>, one: Seq<T>, r: Result<(Seq<T>, int), ErrV>)
    ensures
        grow_at(pre, grow_at(one, r)) == grow_at(pre + one, r),
{
    match r {
        Ok((s, _)) => {
            assert(pre + (one + s) =~= (pre + one) + s);
        },
        Err(_) => {},
    }
}

// ---------------------------------------------------------------------------
// Data section model
// ---------------------------------------------------------------------------

/// Constants of one data label, read in directive/value pairs from the run
/// `[j, e)`.
pub open spec fn spec_constants(toks: Seq<TokenV>, j: int, e: int) -> Result<
    Seq<ConstantLabelTypeV>,
    ErrV,
>
    decreases e - j,
{
    if j < 0 || j >= e || e > toks.len() {
        Ok(Seq::empty())
    } else if e - j == 1 {
        Err(tok_err(ErrorKind::ConstantTooShort, toks[j]))
    } else {
        match toks[j].kind {
            TokenTypeV::Directive(d) => {
                if d == "ascii"@ {
                    match toks[j + 1].kind {
                        TokenTypeV::AsciiString(s) => grow(
                            seq![ConstantLabelTypeV::StringLiteral(s)],
                            spec_constants(toks, j + 2, e),
                        ),
                        _ => Err(tok_err(ErrorKind::ExpectedStringAfterAscii, toks[j + 1])),
                    }
                } else if d == "word"@ {
                    match toks[j + 1].kind {
                        TokenTypeV::Binary(_) | TokenTypeV::Decimal(_) | TokenTypeV::Hex(_) => {
                            if tok_value(toks[j + 1]) > 65535 {
                                Err(overflow_err(toks[j + 1]))
                            } else {
                                grow(
                                    seq![
                                        ConstantLabelTypeV::Word(tok_value(toks[j + 1]) as u16),
                                    ],
                                    spec_constants(toks, j + 2, e),
                                )
                            }
                        },
                        TokenTypeV::Immediate => Err(
                            tok_err(ErrorKind::WordWithImmediateMarker, toks[j + 1]),
                        ),
                        _ => Err(tok_err(ErrorKind::ExpectedNumberAfterWord, toks[j + 1])),
                    }
                } else {
                    Err(tok_err_text(ErrorKind::UnknownConstantDirective, d, toks[j]))
                }
            },
            _ => Err(tok_err(ErrorKind::ConstantMissingDirective, toks[j])),
        }
    }
}

/// Labels of the data section from position `i`, and the position of the
/// section boundary that ended it.
pub open spec fn spec_data_labels(toks: Seq<TokenV>, i: int) -> Result<
    (Seq<ConstantLabelV>, int),
    ErrV,
>
    decreases toks.len() - i,
    via spec_data_labels_decreases
{
    if i < 0 || i >= toks.len() {
        Ok((Seq::empty(), toks.len() as int))
    } else if is_section_directive(toks[i]) {
        Ok((Seq::empty(), i))
    } else {
        match toks[i].kind {
            TokenTypeV::Directive(name) => Err(
                tok_err_text(ErrorKind::IllegalDirective, name, toks[i]),
            ),
            TokenTypeV::Label(name) => {
                let re = i + 1 + run_len(toks, i + 1);
                if re == i + 1 {
                    Err(tok_err_text(ErrorKind::EmptyLabel, name, toks[i]))
                } else {
                    match spec_constants(toks, i + 1, re) {
                        Err(e) => Err(e),
                        Ok(cs) => grow_at(
                            seq![ConstantLabelV { name, constants: cs }],
                            spec_data_labels(toks, re),
                        ),
                    }
                }
            },
            _ => Err(tok_err_text(ErrorKind::UnexpectedTokenInData, toks[i].value, toks[i])),
        }
    }
}

#[via_fn]
proof fn spec_data_labels_decreases(toks: Seq<TokenV>, i: int) {
    if 0 <= i < toks.len() {
        lemma_run_len(toks, i + 1);
    }
}

// ---------------------------------------------------------------------------
// Argument list model
// ---------------------------------------------------------------------------

/// Split the tokens `[s, e)` of an instruction line on commas into argument
/// ranges.  A comma at the start of an argument, or one with nothing after
/// it, is an unexpected-separator error.
pub open spec fn spec_split_args(toks: Seq<TokenV>, s: int, e: int) -> Result<
    Seq<(int, int)>,
    ErrV,
>
    decreases e - s,
    via spec_split_args_decreases
{
    if s < 0 || s >= e || e > toks.len() {
        Ok(Seq::empty())
    } else {
        let c = s + comma_len(toks, s, e);
        if c == s {
            Err(tok_err(ErrorKind::UnexpectedArgumentSeparator, toks[s]))
        } else if c >= e {
            Ok(seq![(s, e)])
        } else if c == e - 1 {
            Err(tok_err(ErrorKind::UnexpectedArgumentSeparator, toks[c]))
        } else {
            match spec_split_args(toks, c + 1, e) {
                Err(err) => Err(err),
                Ok(rest) => Ok(seq![(s, c)] + rest),
            }
        }
    }
}

#[via_fn]
proof fn spec_split_args_decreases(toks: Seq<TokenV>, s: int, e: int) {
    if 0 <= s < e <= toks.len() {
        lemma_comma_len(toks, s, e);
    }
}

/// One instruction operand parsed from the token range `[s, e)`.
pub open spec fn spec_parse_arg(toks: Seq<TokenV>, s: int, e: int) -> Result<
    InstructionArgumentTypeV,
    ErrV,
> {
    match toks[s].kind {
        TokenTypeV::Binary(_) | TokenTypeV::Decimal(_) | TokenTypeV::Hex(_) => {
            if tok_value(toks[s]) > 65535 {
                Err(overflow_err(toks[s]))
            } else if e - s > 1 {
                Err(
                    tok_err_text(ErrorKind::UnexpectedAfterNumber, toks[s + 1].value, toks[s + 1]),
                )
            } else {
                Ok(InstructionArgumentTypeV::MemoryAddress(tok_value(toks[s]) as u16))
            }
        },
        TokenTypeV::Immediate => {
            if e - s == 1 {
                Err(tok_err(ErrorKind::ExpectedNumberAfterImmediate, toks[s]))
            } else {
                match toks[s + 1].kind {
                    TokenTypeV::Binary(_) | TokenTypeV::Decimal(_) | TokenTypeV::Hex(_) => {
                        if tok_value(toks[s + 1]) > 65535 {
                            Err(overflow_err(toks[s + 1]))
                        } else if e - s > 2 {
                            Err(
                                tok_err_text(
                                    ErrorKind::UnexpectedAfterImmediateNumber,
                                    toks[s + 2].value,
                                    toks[s + 2],
                                ),
                            )
                        } else {
                            Ok(InstructionArgumentTypeV::Immediate(tok_value(toks[s + 1]) as u16))
                        }
                    },
                    _ => Err(
                        tok_err_text(
                            ErrorKind::UnexpectedAfterImmediateSpecifier,
                            toks[s + 1].value,
                            toks[s + 1],
                        ),
                    ),
                }
            }
        },
        TokenTypeV::OpenParenthesis => {
            if e - s == 1 {
                Err(tok_err(ErrorKind::ExpectedAddressAfterParenthesis, toks[s]))
            } else {
                match toks[s + 1].kind {
                    TokenTypeV::Binary(_) | TokenTypeV::Decimal(_) | TokenTypeV::Hex(_) => {
                        if tok_value(toks[s + 1]) > 65535 {
                            Err(overflow_err(toks[s + 1]))
                        } else if e - s == 2 {
                            Err(tok_err(ErrorKind::ExpectedCloseParenthesis, toks[s + 1]))
                        } else {
                            match toks[s + 2].kind {
                                TokenTypeV::CloseParenthesis => {
                                    if e - s > 3 {
                                        Err(
                                            tok_err_text(
                                                ErrorKind::UnexpectedAfterIndirectAddress,
                                                toks[s + 3].value,
                                                toks[s + 3],
                                            ),
                                        )
                                    } else {
                                        Ok(
                                            InstructionArgumentTypeV::MemoryAddressIndirect(
                                                tok_value(toks[s + 1]) as u16,
                                            ),
                                        )
                                    }
                                },
                                _ => Err(
                                    tok_err_text(
                                        ErrorKind::UnexpectedInsteadOfCloseParenthesis,
                                        toks[s + 2].value,
                                        toks[s + 2],
                                    ),
                                ),
                            }
                        }
                    },
                    _ => Err(
                        tok_err_text(
                            ErrorKind::UnexpectedAfterParenthesis,
                            toks[s + 1].value,
                            toks[s + 1],
                        ),
                    ),
                }
            }
        },
        TokenTypeV::Identifier(name) => {
            if e - s > 1 {
                Err(
                    tok_err_text(
                        ErrorKind::UnexpectedAfterLabelIdentifier,
                        toks[s + 1].value,
                        toks[s + 1],
                    ),
                )
            } else {
                Ok(InstructionArgumentTypeV::LabelAddress(name))
            }
        },
        TokenTypeV::OpenBracket => {
            if e - s == 1 {
                Err(tok_err(ErrorKind::ExpectedIdentifierAfterBracket, toks[s]))
            } else {
                match toks[s + 1].kind {
                    TokenTypeV::Identifier(name) => {
                        if e - s == 2 {
                            Err(tok_err(ErrorKind::ExpectedCloseBracket, toks[s + 1]))
                        } else {
                            match toks[s + 2].kind {
                                TokenTypeV::CloseBracket => {
                                    if e - s > 3 {
                                        Err(
                                            tok_err_text(
                                                ErrorKind::UnexpectedAfterLabelValue,
                                                toks[s + 3].value,
                                                toks[s + 3],
                                            ),
                                        )
                                    } else {
                                        Ok(InstructionArgumentTypeV::LabelValue(name))
                                    }
                                },
                                _ => Err(
                                    tok_err_text(
                                        ErrorKind::UnexpectedInsteadOfCloseBracket,
                                        toks[s + 2].value,
                                        toks[s + 2],
                                    ),
                                ),
                            }
                        }
                    },
                    _ => Err(
                        tok_err_text(
                            ErrorKind::UnexpectedAfterBracket,
                            toks[s + 1].value,
                            toks[s + 1],
                        ),
                    ),
                }
            }
        },
        TokenTypeV::Register(name) => {
            if e - s > 1 {
                Err(
                    tok_err_text(
                        ErrorKind::UnexpectedAfterRegister,
                        toks[s + 1].value,
                        toks[s + 1],
                    ),
                )
            } else {
                match spec_register_of(name) {
                    Some(reg) => Ok(InstructionArgumentTypeV::Register(reg)),
                    None => Err(tok_err_text(ErrorKind::InvalidRegisterName, name, toks[s])),
                }
            }
        },
        _ => Err(tok_err_text(ErrorKind::UnexpectedArgumentToken, toks[s].value, toks[s])),
    }
}

/// The operands of the argument ranges from index `k` on.
pub open spec fn spec_args_of(toks: Seq<TokenV>, ranges: Seq<(int, int)>, k: int) -> Result<
    Seq<InstructionArgumentTypeV>,
    ErrV,
>
    decreases ranges.len() - k,
{
    if k < 0 || k >= ranges.len() {
        Ok(Seq::empty())
    } else {
        cons_parsed(
            spec_parse_arg(toks, ranges[k].0, ranges[k].1),
            spec_args_of(toks, ranges, k + 1),
        )
    }
}

/// The whole argument list of an instruction line: split on commas, then
/// parse each range into one operand.
pub open spec fn spec_parse_arg_list(toks: Seq<TokenV>, s: int, e: int) -> Result<
    Seq<InstructionArgumentTypeV>,
    ErrV,
> {
    match spec_split_args(toks, s, e) {
        Err(err) => Err(err),
        Ok(ranges) => spec_args_of(toks, ranges, 0),
    }
}

// ---------------------------------------------------------------------------
// Instruction overload resolution
// ---------------------------------------------------------------------------

/// Resolve a mnemonic and its parsed operands to the matching instruction
/// variant: dispatch on the mnemonic, check the arity, then match the
/// operand shape tuple against the mnemonic's supported overloads.  The
/// span `(ln, cs, ce)` covers the whole instruction line.
pub open spec fn spec_instr(
    m: Seq<char>,
    args: Seq<InstructionArgumentTypeV>,
    ln: nat,
    cs: nat,
    ce: nat,
) -> Result<InstructionV, ErrV> {
    if m == "nop"@ {
        if args.len() != 0 {
            Err(err_text(ErrorKind::NopArgumentCount, dec_rep(args.len()), ln, cs, ce))
        } else {
            Ok(InstructionV::nop)
        }
    } else if m == "mov"@ {
        if args.len() != 2 {
            Err(err_text(ErrorKind::MovArgumentCount, dec_rep(args.len()), ln, cs, ce))
        } else {
            match (args[0], args[1]) {
                (
                    InstructionArgumentTypeV::MemoryAddress(address),
                    InstructionArgumentTypeV::Register(register),
                ) => Ok(InstructionV::mov_RegisterToMemory(address, register)),
                (
                    InstructionArgumentTypeV::Register(register),
                    InstructionArgumentTypeV::MemoryAddress(address),
                ) => Ok(InstructionV::mov_MemoryToRegister(register, address)),
                (
                    InstructionArgumentTypeV::Register(register),
                    InstructionArgumentTypeV::Immediate(immediate),
                ) => Ok(InstructionV::mov_ImmediateToRegister(register, immediate)),
                (
                    InstructionArgumentTypeV::Register(dest),
                    InstructionArgumentTypeV::Register(src),
                ) => Ok(InstructionV::mov_RegisterToRegister(dest, src)),
                (
                    InstructionArgumentTypeV::MemoryAddress(address),
                    InstructionArgumentTypeV::Immediate(immediate),
                ) => Ok(InstructionV::mov_ImmediateToMemory16(address, immediate)),
                _ => Err(err_text(ErrorKind::NoOverload, m, ln, cs, ce)),
            }
        }
    } else if m == "add"@ {
        if args.len() < 1 || args.len() > 2 {
            Err(err_text(ErrorKind::AddArgumentCount, dec_rep(args.len()), ln, cs, ce))
        } else if args.len() == 1 {
            match args[0] {
                InstructionArgumentTypeV::Register(register) => Ok(
                    InstructionV::add_RegisterToAccumulator(register),
                ),
                InstructionArgumentTypeV::Immediate(immediate) => Ok(
                    InstructionV::add_ImmediateToAccumulator(immediate),
                ),
                _ => Err(err_text(ErrorKind::NoOverload, m, ln, cs, ce)),
            }
        } else {
            match (args[0], args[1]) {
                (
                    InstructionArgumentTypeV::Register(dest),
                    InstructionArgumentTypeV::Register(src),
                ) => Ok(InstructionV::add_RegisterToRegister(dest, src)),
                (
                    InstructionArgumentTypeV::Register(register),
                    InstructionArgumentTypeV::Immediate(immediate),
                ) => Ok(InstructionV::add_ImmediateToRegister(register, immediate)),
                _ => Err(err_text(ErrorKind::NoOverload, m, ln, cs, ce)),
            }
        }
    } else {
        Err(err_text(ErrorKind::NotImplemented, m, ln, cs, ce))
    }
}

// ---------------------------------------------------------------------------
// Text section model
// ---------------------------------------------------------------------------

/// Instructions of one subroutine label, read one source line at a time
/// from the run `[j, e)`.
pub open spec fn spec_instr_lines(toks: Seq<TokenV>, j: int, e: int) -> Result<
    Seq<InstructionV>,
    ErrV,
>
    decreases e - j,
{
    if j < 0 || j >= e || e > toks.len() {
        Ok(Seq::empty())
    } else {
        let le = eol_at(toks, j, e);
        match toks[j].kind {
            TokenTypeV::Instruction(m) => {
                match spec_parse_arg_list(toks, j + 1, le) {
                    Err(err) => Err(err),
                    Ok(args) => {
                        match spec_instr(
                            m,
                            args,
                            toks[j].line,
                            toks[j].col_start,
                            toks[le - 1].col_end,
                        ) {
                            Err(err) => Err(err),
                            Ok(instr) => grow(seq![instr], spec_instr_lines(toks, le, e)),
                        }
                    },
                }
            },
            _ => Err(tok_err(ErrorKind::ExpectedInstruction, toks[j])),
        }
    }
}

/// Labels of the text section from position `i`, and the position of the
/// section boundary that ended it.
pub open spec fn spec_text_labels(toks: Seq<TokenV>, i: int) -> Result<
    (Seq<SubroutineLabelV>, int),
    ErrV,
>
    decreases toks.len() - i,
    via spec_text_labels_decreases
{
    if i < 0 || i >= toks.len() {
        Ok((Seq::empty(), toks.len() as int))
    } else if is_section_directive(toks[i]) {
        Ok((Seq::empty(), i))
    } else {
        match toks[i].kind {
            TokenTypeV::Directive(name) => Err(
                tok_err_text(ErrorKind::IllegalDirective, name, toks[i]),
            ),
            TokenTypeV::Label(name) => {
                let re = i + 1 + run_len(toks, i + 1);
                if re == i + 1 {
                    Err(tok_err_text(ErrorKind::EmptyLabel, name, toks[i]))
                } else {
                    match spec_instr_lines(toks, i + 1, re) {
                        Err(e) => Err(e),
                        Ok(instrs) => grow_at(
                            seq![SubroutineLabelV { name, instructions: instrs }],
                            spec_text_labels(toks, re),
                        ),
                    }
                }
            },
            _ => Err(tok_err_text(ErrorKind::UnexpectedTokenInText, toks[i].value, toks[i])),
        }
    }
}

#[via_fn]
proof fn spec_text_labels_decreases(toks: Seq<TokenV>, i: int) {
    if 0 <= i < toks.len() {
        lemma_run_len(toks, i + 1);
    }
}

// ---------------------------------------------------------------------------
// Whole-program model
// ---------------------------------------------------------------------------

/// Resume positions of the section parsers stay inside the stream and past
/// the position they started at.
proof fn lemma_data_labels_resume(toks: Seq<TokenV>, i: int)
    requires
        0 <= i <= toks.len(),
    ensures
        (spec_data_labels(toks, i) matches Ok((ls, j)) ==> i <= j <= toks.len()),
    decreases toks.len() - i,
{
    if i < toks.len() && !is_section_directive(toks[i]) {
        match toks[i].kind {
            TokenTypeV::Label(_) => {
                lemma_run_len(toks, i + 1);
                let re = i + 1 + run_len(toks, i + 1);
                if re > i + 1 {
                    lemma_data_labels_resume(toks, re);
                }
            },
            _ => {},
        }
    }
}

proof fn lemma_text_labels_resume(toks: Seq<TokenV>, i: int)
    requires
        0 <= i <= toks.len(),
    ensures
        (spec_text_labels(toks, i) matches Ok((ls, j)) ==> i <= j <= toks.len()),
    decreases toks.len() - i,
{
    if i < toks.len() && !is_section_directive(toks[i]) {
        match toks[i].kind {
            TokenTypeV::Label(_) => {
                lemma_run_len(toks, i + 1);
                let re = i + 1 + run_len(toks, i + 1);
                if re > i + 1 {
                    lemma_text_labels_resume(toks, re);
                }
            },
            _ => {},
        }
    }
}

/// Top level of the parser from position `i`: every leading token must be a
/// `.data` or `.text` directive, each section may appear at most once, and
/// each routes to its section parser.
pub open spec fn spec_program_loop(
    toks: Seq<TokenV>,
    i: int,
    dat: Option<DataSectionV>,
    txt: Option<TextSectionV>,
) -> Result<ProgramV, ErrV>
    decreases toks.len() - i,
    via spec_program_loop_decreases
{
    if i < 0 || i >= toks.len() {
        Ok(ProgramV { text: txt, data: dat })
    } else {
        match toks[i].kind {
            TokenTypeV::Directive(name) => {
                if name == "data"@ {
                    if dat is Some {
                        Err(tok_err(ErrorKind::DuplicateDataSection, toks[i]))
                    } else {
                        match spec_data_labels(toks, i + 1) {
                            Err(e) => Err(e),
                            Ok((ls, j)) => spec_program_loop(
                                toks,
                                j,
                                Some(DataSectionV { labels: ls }),
                                txt,
                            ),
                        }
                    }
                } else if name == "text"@ {
                    if txt is Some {
                        Err(tok_err(ErrorKind::DuplicateTextSection, toks[i]))
                    } else {
                        match spec_text_labels(toks, i + 1) {
                            Err(e) => Err(e),
                            Ok((ls, j)) => spec_program_loop(
                                toks,
                                j,
                                dat,
                                Some(TextSectionV { labels: ls }),
                            ),
                        }
                    }
                } else {
                    Err(tok_err(ErrorKind::ExpectedSectionDirective, toks[i]))
                }
            },
            _ => Err(tok_err_text(ErrorKind::ProgramStart, toks[i].value, toks[i])),
        }
    }
}

#[via_fn]
proof fn spec_program_loop_decreases(
    toks: Seq<TokenV>,
    i: int,
    dat: Option<DataSectionV>,
    txt: Option<TextSectionV>,
) {
    if 0 <= i < toks.len() {
        lemma_data_labels_resume(toks, i + 1);
        lemma_text_labels_resume(toks, i + 1);
    }
}

/// The program a token stream parses to, or its first structural error.
pub open spec fn spec_parse_program(toks: Seq<TokenV>) -> Result<ProgramV, ErrV> {
    spec_program_loop(toks, 0, None, None)
}

} // verus!

verus! {

// ---------------------------------------------------------------------------
// Token stream scanning
// ---------------------------------------------------------------------------

/// Is this token a `.data` or `.text` directive?
fn is_section_directive_tok(t: &Token) -> (r: bool)
    ensures
        r == is_section_directive(t@),
{
    match &t.token_type {
        TokenType::Directive(name) => {
            str_eq_str(name.as_str(), "data") || str_eq_str(name.as_str(), "text")
        },
        _ => false,
    }
}

/// Advance from `pos` to the next label or section directive, or to the end
/// of the stream: the tokens `[pos, end)` form the current label's run.
pub fn read_tokens_to_label_or_eos(tokens: &Vec<Token>, pos: usize) -> (end: usize)
    requires
        pos <= tokens@.len(),
    ensures
        end == pos + run_len(toks_view(tokens@), pos as int),
        pos <= end <= tokens@.len(),
{
    let ghost tv = toks_view(tokens@);
    let mut end: usize = pos;
    loop
        invariant
            pos <= end <= tokens@.len(),
            tv == toks_view(tokens@),
            run_len(tv, pos as int) == end - pos + run_len(tv, end as int),
        decreases tokens@.len() - end,
    {
        if end >= tokens.len() {
            return end;
        }
        let t = &tokens[end];
        assert(t@ == tv[end as int]);
        if is_section_directive_tok(t) {
            return end;
        }
        let stop = match &t.token_type {
            TokenType::Label(_) => true,
            _ => false,
        };
        if stop {
            return end;
        }
        end += 1;
    }
}

/// End of the instruction line starting at token `j`, capped at the run end
/// `e`: all tokens of `[j, end)` lie on `j`'s source line.
pub fn read_tokens_to_eol(tokens: &Vec<Token>, j: usize, e: usize) -> (le: usize)
    requires
        j < e <= tokens@.len(),
    ensures
        le == eol_at(toks_view(tokens@), j as int, e as int),
        j < le <= e,
{
    let ghost tv = toks_view(tokens@);
    let ln = tokens[j].line_number;
    let mut k: usize = j + 1;
    while k < e && tokens[k].line_number == ln
        invariant
            j + 1 <= k <= e <= tokens@.len(),
            tv == toks_view(tokens@),
            ln == tokens@[j as int].line_number,
            line_len(tv, j + 1 as int, tv[j as int].line) == k - (j + 1) + line_len(
                tv,
                k as int,
                tv[j as int].line,
            ),
        decreases e - k,
    {
        assert(tv[k as int] == tokens@[k as int]@);
        k += 1;
    }
    proof {
        if k < e {
            assert(line_len(tv, k as int, tv[j as int].line) == 0);
        } else {
            lemma_line_len(tv, k as int, tv[j as int].line);
        }
    }
    k
}

/// Position of the next comma token in `[s, e)`, or `e` when it holds none.
fn find_comma(tokens: &Vec<Token>, s: usize, e: usize) -> (c: usize)
    requires
        s <= e <= tokens@.len(),
    ensures
        c == s + comma_len(toks_view(tokens@), s as int, e as int),
        s <= c <= e,
{
    let ghost tv = toks_view(tokens@);
    let mut c: usize = s;
    loop
        invariant
            s <= c <= e <= tokens@.len(),
            tv == toks_view(tokens@),
            comma_len(tv, s as int, e as int) == c - s + comma_len(tv, c as int, e as int),
        decreases e - c,
    {
        if c >= e {
            return c;
        }
        assert(tv[c as int] == tokens@[c as int]@);
        let stop = match &tokens[c].token_type {
            TokenType::Comma => true,
            _ => false,
        };
        if stop {
            return c;
        }
        c += 1;
    }
}

/// View of a vector of argument token ranges.
pub open spec fn ranges_view(v: Seq<(usize, usize)>) -> Seq<(int, int)> {
    v.map_values(|p: (usize, usize)| (p.0 as int, p.1 as int))
}

proof fn lemma_ranges_push(s: Seq<(usize, usize)>, p: (usize, usize))
    ensures
        ranges_view(s.push(p)) == ranges_view(s) + seq![(p.0 as int, p.1 as int)],
{
    assert(ranges_view(s.push(p)) =~= ranges_view(s) + seq![(p.0 as int, p.1 as int)]);
}

/// Split the instruction line tokens `[start, end)` on commas into the
/// ranges of its arguments, rejecting empty arguments (a doubled, leading
/// or trailing comma).
pub fn split_tokens_by_commas(tokens: &Vec<Token>, start: usize, end: usize) -> (r: Result<
    Vec<(usize, usize)>,
    AsmError,
>)
    requires
        start <= end <= tokens@.len(),
    ensures
        (match r {
            Ok(v) => spec_split_args(toks_view(tokens@), start as int, end as int) == Ok::<
                _,
                ErrV,
            >(ranges_view(v@)) && (forall|k: int|
                0 <= k < v@.len() ==> start <= (#[trigger] v@[k]).0 < v@[k].1 <= end),
            Err(e) => spec_split_args(toks_view(tokens@), start as int, end as int) == Err::<
                Seq<(int, int)>,
                _,
            >(e@),
        }),
{
    let ghost tv = toks_view(tokens@);
    let mut ranges: Vec<(usize, usize)> = Vec::new();
    let mut cur = start;
    while cur < end
        invariant
            start <= cur <= end <= tokens@.len(),
            tv == toks_view(tokens@),
            spec_split_args(tv, start as int, end as int) == grow(
                ranges_view(ranges@),
                spec_split_args(tv, cur as int, end as int),
            ),
            forall|k: int| 0 <= k < ranges@.len() ==> start <= (#[trigger] ranges@[k]).0
                < ranges@[k].1 <= end,
        decreases end - cur,
    {
        let ghost prev = ranges@;
        let c = find_comma(tokens, cur, end);
        assert(tv[cur as int] == tokens@[cur as int]@);
        if c == cur {
            let t = &tokens[cur];
            return Err(
                AsmError::new_plain(
                    ErrorKind::UnexpectedArgumentSeparator,
                    t.line_number,
                    t.column_start,
                    t.column_end,
                ),
            );
        }
        if c >= end {
            ranges.push((cur, end));
            proof {
                lemma_ranges_push(prev, (cur, end));
                assert(spec_split_args(tv, cur as int, end as int) == Ok::<_, ErrV>(
                    seq![(cur as int, end as int)],
                ));
                assert(ranges_view(prev) + seq![(cur as int, end as int)] + Seq::<(
                    int,
                    int,
                )>::empty() =~= ranges_view(prev) + seq![(cur as int, end as int)]);
                assert(spec_split_args(tv, end as int, end as int) == Ok::<_, ErrV>(
                    Seq::<(int, int)>::empty(),
                ));
                lemma_grow_assoc(
                    ranges_view(prev),
                    seq![(cur as int, end as int)],
                    spec_split_args(tv, end as int, end as int),
                );
            }
            cur = end;
        } else if c == end - 1 {
            assert(tv[c as int] == tokens@[c as int]@);
            let t = &tokens[c];
            return Err(
                AsmError::new_plain(
                    ErrorKind::UnexpectedArgumentSeparator,
                    t.line_number,
                    t.column_start,
                    t.column_end,
                ),
            );
        } else {
            ranges.push((cur, c));
            proof {
                lemma_ranges_push(prev, (cur, c));
                lemma_grow_assoc(
                    ranges_view(prev),
                    seq![(cur as int, c as int)],
                    spec_split_args(tv, c + 1 as int, end as int),
                );
            }
            cur = c + 1;
        }
    }
    proof {
        assert(spec_split_args(tv, cur as int, end as int) == Ok::<_, ErrV>(
            Seq::<(int, int)>::empty(),
        ));
        assert(ranges_view(ranges@) + Seq::<(int, int)>::empty() =~= ranges_view(ranges@));
    }
    Ok(ranges)
}

} // verus!

verus! {

// ---------------------------------------------------------------------------
// Argument parsing
// ---------------------------------------------------------------------------

impl InstructionArgumentType {
    /// Parse the token range `[s, e)` (one comma-separated argument of an
    /// instruction line) into a single operand.
    pub fn parse(tokens: &Vec<Token>, s: usize, e: usize) -> (r: Result<
        InstructionArgumentType,
        AsmError,
    >)
        requires
            s < e <= tokens@.len(),
            tokens_wf(toks_view(tokens@)),
        ensures
            (match r {
                Ok(a) => spec_parse_arg(toks_view(tokens@), s as int, e as int) == Ok::<_, ErrV>(
                    a@,
                ),
                Err(err) => spec_parse_arg(toks_view(tokens@), s as int, e as int) == Err::<
                    InstructionArgumentTypeV,
                    _,
                >(err@),
            }),
    {
        let ghost tv = toks_view(tokens@);
        assert(tv[s as int] == tokens@[s as int]@);
        let first = &tokens[s];
        match &first.token_type {
            TokenType::Binary(_) | TokenType::Decimal(_) | TokenType::Hex(_) => {
                match first.parse_u16() {
                    Err(err) => Err(err),
                    Ok(value) => {
                        if e - s > 1 {
                            assert(tv[s + 1 as int] == tokens@[s + 1 as int]@);
                            let illegal = &tokens[s + 1];
                            Err(
                                AsmError::new_text(
                                    ErrorKind::UnexpectedAfterNumber,
                                    illegal.value.clone(),
                                    illegal.line_number,
                                    illegal.column_start,
                                    illegal.column_end,
                                ),
                            )
                        } else {
                            Ok(InstructionArgumentType::MemoryAddress(value))
                        }
                    },
                }
            },
            TokenType::Immediate => {
                if e - s == 1 {
                    Err(
                        AsmError::new_plain(
                            ErrorKind::ExpectedNumberAfterImmediate,
                            first.line_number,
                            first.column_start,
                            first.column_end,
                        ),
                    )
                } else {
                    assert(tv[s + 1 as int] == tokens@[s + 1 as int]@);
                    let number = &tokens[s + 1];
                    match &number.token_type {
                        TokenType::Binary(_) | TokenType::Decimal(_) | TokenType::Hex(_) => {
                            match number.parse_u16() {
                                Err(err) => Err(err),
                                Ok(value) => {
                                    if e - s > 2 {
                                        assert(tv[s + 2 as int] == tokens@[s + 2 as int]@);
                                        let illegal = &tokens[s + 2];
                                        Err(
                                            AsmError::new_text(
                                                ErrorKind::UnexpectedAfterImmediateNumber,
                                                illegal.value.clone(),
                                                illegal.line_number,
                                                illegal.column_start,
                                                illegal.column_end,
                                            ),
                                        )
                                    } else {
                                        Ok(InstructionArgumentType::Immediate(value))
                                    }
                                },
                            }
                        },
                        _ => Err(
                            AsmError::new_text(
                                ErrorKind::UnexpectedAfterImmediateSpecifier,
                                number.value.clone(),
                                number.line_number,
                                number.column_start,
                                number.column_end,
                            ),
                        ),
                    }
                }
            },
            TokenType::OpenParenthesis => {
                if e - s == 1 {
                    Err(
                        AsmError::new_plain(
                            ErrorKind::ExpectedAddressAfterParenthesis,
                            first.line_number,
                            first.column_start,
                            first.column_end,
                        ),
                    )
                } else {
                    assert(tv[s + 1 as int] == tokens@[s + 1 as int]@);
                    let address = &tokens[s + 1];
                    match &address.token_type {
                        TokenType::Binary(_) | TokenType::Decimal(_) | TokenType::Hex(_) => {
                            match address.parse_u16() {
                                Err(err) => Err(err),
                                Ok(value) => {
                                    if e - s == 2 {
                                        Err(
                                            AsmError::new_plain(
                                                ErrorKind::ExpectedCloseParenthesis,
                                                address.line_number,
                                                address.column_start,
                                                address.column_end,
                                            ),
                                        )
                                    } else {
                                        assert(tv[s + 2 as int] == tokens@[s + 2 as int]@);
                                        let close = &tokens[s + 2];
                                        match &close.token_type {
                                            TokenType::CloseParenthesis => {
                                                if e - s > 3 {
                                                    assert(tv[s + 3 as int] == tokens@[s + 3 as int]@);
                                                    let illegal = &tokens[s + 3];
                                                    Err(
                                                        AsmError::new_text(
                                                            ErrorKind::UnexpectedAfterIndirectAddress,
                                                            illegal.value.clone(),
                                                            illegal.line_number,
                                                            illegal.column_start,
                                                            illegal.column_end,
                                                        ),
                                                    )
                                                } else {
                                                    Ok(
                                                        InstructionArgumentType::MemoryAddressIndirect(
                                                            value,
                                                        ),
                                                    )
                                                }
                                            },
                                            _ => Err(
                                                AsmError::new_text(
                                                    ErrorKind::UnexpectedInsteadOfCloseParenthesis,
                                                    close.value.clone(),
                                                    close.line_number,
                                                    close.column_start,
                                                    close.column_end,
                                                ),
                                            ),
                                        }
                                    }
                                },
                            }
                        },
                        _ => Err(
                            AsmError::new_text(
                                ErrorKind::UnexpectedAfterParenthesis,
                                address.value.clone(),
                                address.line_number,
                                address.column_start,
                                address.column_end,
                            ),
                        ),
                    }
                }
            },
            TokenType::Identifier(name) => {
                if e - s > 1 {
                    assert(tv[s + 1 as int] == tokens@[s + 1 as int]@);
                    let illegal = &tokens[s + 1];
                    Err(
                        AsmError::new_text(
                            ErrorKind::UnexpectedAfterLabelIdentifier,
                            illegal.value.clone(),
                            illegal.line_number,
                            illegal.column_start,
                            illegal.column_end,
                        ),
                    )
                } else {
                    Ok(InstructionArgumentType::LabelAddress(name.clone()))
                }
            },
            TokenType::OpenBracket => {
                if e - s == 1 {
                    Err(
                        AsmError::new_plain(
                            ErrorKind::ExpectedIdentifierAfterBracket,
                            first.line_number,
                            first.column_start,
                            first.column_end,
                        ),
                    )
                } else {
                    assert(tv[s + 1 as int] == tokens@[s + 1 as int]@);
                    let ident = &tokens[s + 1];
                    match &ident.token_type {
                        TokenType::Identifier(name) => {
                            if e - s == 2 {
                                Err(
                                    AsmError::new_plain(
                                        ErrorKind::ExpectedCloseBracket,
                                        ident.line_number,
                                        ident.column_start,
                                        ident.column_end,
                                    ),
                                )
                            } else {
                                assert(tv[s + 2 as int] == tokens@[s + 2 as int]@);
                                let close = &tokens[s + 2];
                                match &close.token_type {
                                    TokenType::CloseBracket => {
                                        if e - s > 3 {
                                            assert(tv[s + 3 as int] == tokens@[s + 3 as int]@);
                                            let illegal = &tokens[s + 3];
                                            Err(
                                                AsmError::new_text(
                                                    ErrorKind::UnexpectedAfterLabelValue,
                                                    illegal.value.clone(),
                                                    illegal.line_number,
                                                    illegal.column_start,
                                                    illegal.column_end,
                                                ),
                                            )
                                        } else {
                                            Ok(
                                                InstructionArgumentType::LabelValue(name.clone()),
                                            )
                                        }
                                    },
                                    _ => Err(
                                        AsmError::new_text(
                                            ErrorKind::UnexpectedInsteadOfCloseBracket,
                                            close.value.clone(),
                                            close.line_number,
                                            close.column_start,
                                            close.column_end,
                                        ),
                                    ),
                                }
                            }
                        },
                        _ => Err(
                            AsmError::new_text(
                                ErrorKind::UnexpectedAfterBracket,
                                ident.value.clone(),
                                ident.line_number,
                                ident.column_start,
                                ident.column_end,
                            ),
                        ),
                    }
                }
            },
            TokenType::Register(name) => {
                if e - s > 1 {
                    assert(tv[s + 1 as int] == tokens@[s + 1 as int]@);
                    let illegal = &tokens[s + 1];
                    Err(
                        AsmError::new_text(
                            ErrorKind::UnexpectedAfterRegister,
                            illegal.value.clone(),
                            illegal.line_number,
                            illegal.column_start,
                            illegal.column_end,
                        ),
                    )
                } else {
                    match Register::from_name(name) {
                        Some(register) => Ok(InstructionArgumentType::Register(register)),
                        None => Err(
                            AsmError::new_text(
                                ErrorKind::InvalidRegisterName,
                                name.clone(),
                                first.line_number,
                                first.column_start,
                                first.column_end,
                            ),
                        ),
                    }
                }
            },
            _ => Err(
                AsmError::new_text(
                    ErrorKind::UnexpectedArgumentToken,
                    first.value.clone(),
                    first.line_number,
                    first.column_start,
                    first.column_end,
                ),
            ),
        }
    }
}

proof fn lemma_args_push(s: Seq<InstructionArgumentType>, a: InstructionArgumentType)
    ensures
        args_view(s.push(a)) == args_view(s) + seq![a@],
{
    assert(args_view(s.push(a)) =~= args_view(s) + seq![a@]);
}

/// Parse the whole argument list of an instruction line: split the token
/// range `[start, end)` on commas, then parse each piece into one operand.
pub fn parse_instruction_arguments(tokens: &Vec<Token>, start: usize, end: usize) -> (r: Result<
    Vec<InstructionArgumentType>,
    AsmError,
>)
    requires
        start <= end <= tokens@.len(),
        tokens_wf(toks_view(tokens@)),
    ensures
        (match r {
            Ok(v) => spec_parse_arg_list(toks_view(tokens@), start as int, end as int) == Ok::<
                _,
                ErrV,
            >(args_view(v@)),
            Err(e) => spec_parse_arg_list(toks_view(tokens@), start as int, end as int) == Err::<
                Seq<InstructionArgumentTypeV>,
                _,
            >(e@),
        }),
{
    let ghost tv = toks_view(tokens@);
    let ranges = match split_tokens_by_commas(tokens, start, end) {
        Ok(v) => v,
        Err(e) => {
            return Err(e);
        },
    };
    let ghost rv = ranges_view(ranges@);
    let mut args: Vec<InstructionArgumentType> = Vec::new();
    let mut k: usize = 0;
    while k < ranges.len()
        invariant
            k <= ranges@.len(),
            tv == toks_view(tokens@),
            rv == ranges_view(ranges@),
            spec_split_args(tv, start as int, end as int) == Ok::<_, ErrV>(rv),
            tokens_wf(tv),
            forall|i: int| 0 <= i < ranges@.len() ==> start <= (#[trigger] ranges@[i]).0
                < ranges@[i].1 <= end <= tokens@.len(),
            spec_args_of(tv, rv, 0) == grow(args_view(args@), spec_args_of(tv, rv, k as int)),
        decreases ranges@.len() - k,
    {
        let ghost prev = args@;
        let (rs, re) = (ranges[k].0, ranges[k].1);
        assert(rv[k as int] == (ranges@[k as int].0 as int, ranges@[k as int].1 as int));
        let a = match InstructionArgumentType::parse(tokens, rs, re) {
            Ok(a) => a,
            Err(e) => {
                return Err(e);
            },
        };
        args.push(a);
        proof {
            lemma_args_push(prev, a);
            lemma_grow_assoc(args_view(prev), seq![a@], spec_args_of(tv, rv, k + 1 as int));
        }
        k += 1;
    }
    proof {
        assert(spec_args_of(tv, rv, k as int) == Ok::<_, ErrV>(
            Seq::<InstructionArgumentTypeV>::empty(),
        ));
        assert(args_view(args@) + Seq::<InstructionArgumentTypeV>::empty() =~= args_view(args@));
    }
    Ok(args)
}

// ---------------------------------------------------------------------------
// Instruction overload resolution
// ---------------------------------------------------------------------------

impl Instruction {
    /// Resolve a mnemonic and its parsed argument list to the matching
    /// instruction variant, or report an arity mismatch, a missing overload
    /// for the supplied argument shapes, or an unimplemented mnemonic.  The
    /// span `(line_number, col_start, col_end)` covers the instruction line.
    pub fn parse(
        mnemonic: &String,
        args: Vec<InstructionArgumentType>,
        line_number: u32,
        col_start: u32,
        col_end: u32,
    ) -> (r: Result<Instruction, AsmError>)
        ensures
            (match r {
                Ok(ins) => spec_instr(
                    mnemonic@,
                    args_view(args@),
                    line_number as nat,
                    col_start as nat,
                    col_end as nat,
                ) == Ok::<_, ErrV>(ins@),
                Err(err) => spec_instr(
                    mnemonic@,
                    args_view(args@),
                    line_number as nat,
                    col_start as nat,
                    col_end as nat,
                ) == Err::<InstructionV, _>(err@),
            }),
    {
        let num_args = args.len();
        let mut rest = args;
        if str_eq_str(mnemonic.as_str(), "nop") {
            if num_args != 0 {
                Err(
                    AsmError::new_text(
                        ErrorKind::NopArgumentCount,
                        u64_to_string(num_args as u64),
                        line_number,
                        col_start,
                        col_end,
                    ),
                )
            } else {
                Ok(Instruction::nop)
            }
        } else if str_eq_str(mnemonic.as_str(), "mov") {
            if num_args != 2 {
                Err(
                    AsmError::new_text(
                        ErrorKind::MovArgumentCount,
                        u64_to_string(num_args as u64),
                        line_number,
                        col_start,
                        col_end,
                    ),
                )
            } else {
                let arg2 = rest.pop().unwrap();
                let arg1 = rest.pop().unwrap();
                assert(arg1@ == args_view(args@)[0] && arg2@ == args_view(args@)[1]);
                match (arg1, arg2) {
                    (
                        InstructionArgumentType::MemoryAddress(address),
                        InstructionArgumentType::Register(register),
                    ) => Ok(Instruction::mov_RegisterToMemory(address, register)),
                    (
                        InstructionArgumentType::Register(register),
                        InstructionArgumentType::MemoryAddress(address),
                    ) => Ok(Instruction::mov_MemoryToRegister(register, address)),
                    (
                        InstructionArgumentType::Register(register),
                        InstructionArgumentType::Immediate(immediate),
                    ) => Ok(Instruction::mov_ImmediateToRegister(register, immediate)),
                    (
                        InstructionArgumentType::Register(dest),
                        InstructionArgumentType::Register(src),
                    ) => Ok(Instruction::mov_RegisterToRegister(dest, src)),
                    (
                        InstructionArgumentType::MemoryAddress(address),
                        InstructionArgumentType::Immediate(immediate),
                    ) => Ok(Instruction::mov_ImmediateToMemory16(address, immediate)),
                    _ => Err(
                        AsmError::new_text(
                            ErrorKind::NoOverload,
                            mnemonic.clone(),
                            line_number,
                            col_start,
                            col_end,
                        ),
                    ),
                }
            }
        } else if str_eq_str(mnemonic.as_str(), "add") {
            if num_args < 1 || num_args > 2 {
                Err(
                    AsmError::new_text(
                        ErrorKind::AddArgumentCount,
                        u64_to_string(num_args as u64),
                        line_number,
                        col_start,
                        col_end,
                    ),
                )
            } else if num_args == 1 {
                let arg = rest.pop().unwrap();
                assert(arg@ == args_view(args@)[0]);
                match arg {
                    InstructionArgumentType::Register(register) => Ok(
                        Instruction::add_RegisterToAccumulator(register),
                    ),
                    InstructionArgumentType::Immediate(immediate) => Ok(
                        Instruction::add_ImmediateToAccumulator(immediate),
                    ),
                    _ => Err(
                        AsmError::new_text(
                            ErrorKind::NoOverload,
                            mnemonic.clone(),
                            line_number,
                            col_start,
                            col_end,
                        ),
                    ),
                }
            } else {
                let arg2 = rest.pop().unwrap();
                let arg1 = rest.pop().unwrap();
                assert(arg1@ == args_view(args@)[0] && arg2@ == args_view(args@)[1]);
                match (arg1, arg2) {
                    (
                        InstructionArgumentType::Register(dest),
                        InstructionArgumentType::Register(src),
                    ) => Ok(Instruction::add_RegisterToRegister(dest, src)),
                    (
                        InstructionArgumentType::Register(register),
                        InstructionArgumentType::Immediate(immediate),
                    ) => Ok(Instruction::add_ImmediateToRegister(register, immediate)),
                    _ => Err(
                        AsmError::new_text(
                            ErrorKind::NoOverload,
                            mnemonic.clone(),
                            line_number,
                            col_start,
                            col_end,
                        ),
                    ),
                }
            }
        } else {
            Err(
                AsmError::new_text(
                    ErrorKind::NotImplemented,
                    mnemonic.clone(),
                    line_number,
                    col_start,
                    col_end,
                ),
            )
        }
    }
}

} // verus!

verus! {

proof fn lemma_consts_push(s: Seq<ConstantLabelType>, c: ConstantLabelType)
    ensures
        consts_view(s.push(c)) == consts_view(s) + seq![c@],
{
    assert(consts_view(s.push(c)) =~= consts_view(s) + seq![c@]);
}

proof fn lemma_clabels_push(s: Seq<ConstantLabel>, l: ConstantLabel)
    ensures
        clabels_view(s.push(l)) == clabels_view(s) + seq![l@],
{
    assert(clabels_view(s.push(l)) =~= clabels_view(s) + seq![l@]);
}

proof fn lemma_instrs_push(s: Seq<Instruction>, i: Instruction)
    ensures
        instrs_view(s.push(i)) == instrs_view(s) + seq![i@],
{
    assert(instrs_view(s.push(i)) =~= instrs_view(s) + seq![i@]);
}

proof fn lemma_slabels_push(s: Seq<SubroutineLabel>, l: SubroutineLabel)
    ensures
        slabels_view(s.push(l)) == slabels_view(s) + seq![l@],
{
    assert(slabels_view(s.push(l)) =~= slabels_view(s) + seq![l@]);
}

// ---------------------------------------------------------------------------
// Section parsers
// ---------------------------------------------------------------------------

impl DataSection {
    /// Parse the labels of a `.data` section from position `start` up to
    /// the next section directive (not consumed) or the end of the stream;
    /// also return the position parsing stopped at.
    #[verifier::loop_isolation(false)]
    pub fn parse(tokens: &Vec<Token>, start: usize) -> (r: Result<(DataSection, usize), AsmError>)
        requires
            start <= tokens@.len(),
            tokens_wf(toks_view(tokens@)),
        ensures
            (match r {
                Ok((d, j)) => spec_data_labels(toks_view(tokens@), start as int) == Ok::<_, ErrV>(
                    (d@.labels, j as int),
                ) && start <= j <= tokens@.len(),
                Err(e) => spec_data_labels(toks_view(tokens@), start as int) == Err::<
                    (Seq<ConstantLabelV>, int),
                    _,
                >(e@),
            }),
    {
        let ghost tv = toks_view(tokens@);
        let mut labels: Vec<ConstantLabel> = Vec::new();
        let mut pos = start;
        while pos < tokens.len()
            invariant
                start <= pos <= tokens@.len(),
                tv == toks_view(tokens@),
                tokens_wf(tv),
                spec_data_labels(tv, start as int) == grow_at(
                    clabels_view(labels@),
                    spec_data_labels(tv, pos as int),
                ),
            decreases tokens@.len() - pos,
        {
            let ghost prev = labels@;
            assert(tv[pos as int] == tokens@[pos as int]@);
            if is_section_directive_tok(&tokens[pos]) {
                proof {
                    assert(spec_data_labels(tv, pos as int) == Ok::<_, ErrV>(
                        (Seq::<ConstantLabelV>::empty(), pos as int),
                    ));
                    assert(clabels_view(labels@) + Seq::<ConstantLabelV>::empty() =~= clabels_view(
                        labels@,
                    ));
                }
                return Ok((DataSection { labels }, pos));
            }
            match &tokens[pos].token_type {
                TokenType::Directive(name) => {
                    let t = &tokens[pos];
                    return Err(
                        AsmError::new_text(
                            ErrorKind::IllegalDirective,
                            name.clone(),
                            t.line_number,
                            t.column_start,
                            t.column_end,
                        ),
                    );
                },
                TokenType::Label(name) => {
                    let re = read_tokens_to_label_or_eos(tokens, pos + 1);
                    if re == pos + 1 {
                        let t = &tokens[pos];
                        return Err(
                            AsmError::new_text(
                                ErrorKind::EmptyLabel,
                                name.clone(),
                                t.line_number,
                                t.column_start,
                                t.column_end,
                            ),
                        );
                    }
                    let mut constants: Vec<ConstantLabelType> = Vec::new();
                    let mut j = pos + 1;
                    while j < re
                        invariant
                            pos + 1 <= j <= re <= tokens@.len(),
                            tv == toks_view(tokens@),
                            tokens_wf(tv),
                            spec_constants(tv, pos + 1 as int, re as int) == grow(
                                consts_view(constants@),
                                spec_constants(tv, j as int, re as int),
                            ),
                        decreases re - j,
                    {
                        let ghost cprev = constants@;
                        assert(tv[j as int] == tokens@[j as int]@);
                        if re - j == 1 {
                            let t = &tokens[j];
                            return Err(
                                AsmError::new_plain(
                                    ErrorKind::ConstantTooShort,
                                    t.line_number,
                                    t.column_start,
                                    t.column_end,
                                ),
                            );
                        }
                        assert(tv[j + 1 as int] == tokens@[j + 1 as int]@);
                        match &tokens[j].token_type {
                            TokenType::Directive(d) => {
                                if str_eq_str(d.as_str(), "ascii") {
                                    match &tokens[j + 1].token_type {
                                        TokenType::AsciiString(s) => {
                                            let c = ConstantLabelType::StringLiteral(s.clone());
                                            constants.push(c);
                                            proof {
                                                lemma_consts_push(cprev, c);
                                                lemma_grow_assoc(
                                                    consts_view(cprev),
                                                    seq![ConstantLabelTypeV::StringLiteral(s@)],
                                                    spec_constants(tv, j + 2 as int, re as int),
                                                );
                                            }
                                            j += 2;
                                        },
                                        _ => {
                                            let t = &tokens[j + 1];
                                            return Err(
                                                AsmError::new_plain(
                                                    ErrorKind::ExpectedStringAfterAscii,
                                                    t.line_number,
                                                    t.column_start,
                                                    t.column_end,
                                                ),
                                            );
                                        },
                                    }
                                } else if str_eq_str(d.as_str(), "word") {
                                    match &tokens[j + 1].token_type {
                                        TokenType::Binary(_)
                                        | TokenType::Decimal(_)
                                        | TokenType::Hex(_) => {
                                            match tokens[j + 1].parse_u16() {
                                                Ok(value) => {
                                                    constants.push(ConstantLabelType::Word(value));
                                                    proof {
                                                        lemma_consts_push(
                                                            cprev,
                                                            ConstantLabelType::Word(value),
                                                        );
                                                        lemma_grow_assoc(
                                                            consts_view(cprev),
                                                            seq![ConstantLabelTypeV::Word(value)],
                                                            spec_constants(
                                                                tv,
                                                                j + 2 as int,
                                                                re as int,
                                                            ),
                                                        );
                                                    }
                                                    j += 2;
                                                },
                                                Err(e) => {
                                                    return Err(e);
                                                },
                                            }
                                        },
                                        TokenType::Immediate => {
                                            let t = &tokens[j + 1];
                                            return Err(
                                                AsmError::new_plain(
                                                    ErrorKind::WordWithImmediateMarker,
                                                    t.line_number,
                                                    t.column_start,
                                                    t.column_end,
                                                ),
                                            );
                                        },
                                        _ => {
                                            let t = &tokens[j + 1];
                                            return Err(
                                                AsmError::new_plain(
                                                    ErrorKind::ExpectedNumberAfterWord,
                                                    t.line_number,
                                                    t.column_start,
                                                    t.column_end,
                                                ),
                                            );
                                        },
                                    }
                                } else {
                                    let t = &tokens[j];
                                    return Err(
                                        AsmError::new_text(
                                            ErrorKind::UnknownConstantDirective,
                                            d.clone(),
                                            t.line_number,
                                            t.column_start,
                                            t.column_end,
                                        ),
                                    );
                                }
                            },
                            _ => {
                                let t = &tokens[j];
                                return Err(
                                    AsmError::new_plain(
                                        ErrorKind::ConstantMissingDirective,
                                        t.line_number,
                                        t.column_start,
                                        t.column_end,
                                    ),
                                );
                            },
                        }
                    }
                    let ghost cfinal = consts_view(constants@);
                    let label = ConstantLabel { name: name.clone(), constants };
                    labels.push(label);
                    proof {
                        assert(spec_constants(tv, j as int, re as int) == Ok::<_, ErrV>(
                            Seq::<ConstantLabelTypeV>::empty(),
                        ));
                        assert(cfinal + Seq::<ConstantLabelTypeV>::empty() =~= cfinal);
                        lemma_clabels_push(prev, label);
                        lemma_grow_at_assoc(
                            clabels_view(prev),
                            seq![ConstantLabelV { name: name@, constants: cfinal }],
                            spec_data_labels(tv, re as int),
                        );
                    }
                    pos = re;
                },
                _ => {
                    let t = &tokens[pos];
                    return Err(
                        AsmError::new_text(
                            ErrorKind::UnexpectedTokenInData,
                            t.value.clone(),
                            t.line_number,
                            t.column_start,
                            t.column_end,
                        ),
                    );
                },
            }
        }
        proof {
            assert(spec_data_labels(tv, pos as int) == Ok::<_, ErrV>(
                (Seq::<ConstantLabelV>::empty(), tokens@.len() as int),
            ));
            assert(clabels_view(labels@) + Seq::<ConstantLabelV>::empty() =~= clabels_view(
                labels@,
            ));
        }
        Ok((DataSection { labels }, pos))
    }
}

} // verus!

verus! {

impl TextSection {
    /// Parse the labels of a `.text` section from position `start` up to
    /// the next section directive (not consumed) or the end of the stream;
    /// also return the position parsing stopped at.  Each label's run is
    /// consumed one source line at a time: every line must start with an
    /// instruction mnemonic, the rest of the line is its argument list.
    #[verifier::loop_isolation(false)]
    pub fn parse(tokens: &Vec<Token>, start: usize) -> (r: Result<(TextSection, usize), AsmError>)
        requires
            start <= tokens@.len(),
            tokens_wf(toks_view(tokens@)),
        ensures
            (match r {
                Ok((t, j)) => spec_text_labels(toks_view(tokens@), start as int) == Ok::<_, ErrV>(
                    (t@.labels, j as int),
                ) && start <= j <= tokens@.len(),
                Err(e) => spec_text_labels(toks_view(tokens@), start as int) == Err::<
                    (Seq<SubroutineLabelV>, int),
                    _,
                >(e@),
            }),
    {
        let ghost tv = toks_view(tokens@);
        let mut labels: Vec<SubroutineLabel> = Vec::new();
        let mut pos = start;
        while pos < tokens.len()
            invariant
                start <= pos <= tokens@.len(),
                spec_text_labels(tv, start as int) == grow_at(
                    slabels_view(labels@),
                    spec_text_labels(tv, pos as int),
                ),
            decreases tokens@.len() - pos,
        {
            let ghost prev = labels@;
            assert(tv[pos as int] == tokens@[pos as int]@);
            if is_section_directive_tok(&tokens[pos]) {
                proof {
                    assert(spec_text_labels(tv, pos as int) == Ok::<_, ErrV>(
                        (Seq::<SubroutineLabelV>::empty(), pos as int),
                    ));
                    assert(slabels_view(labels@) + Seq::<SubroutineLabelV>::empty()
                        =~= slabels_view(labels@));
                }
                return Ok((TextSection { labels }, pos));
            }
            match &tokens[pos].token_type {
                TokenType::Directive(name) => {
                    let t = &tokens[pos];
                    return Err(
                        AsmError::new_text(
                            ErrorKind::IllegalDirective,
                            name.clone(),
                            t.line_number,
                            t.column_start,
                            t.column_end,
                        ),
                    );
                },
                TokenType::Label(name) => {
                    let re = read_tokens_to_label_or_eos(tokens, pos + 1);
                    if re == pos + 1 {
                        let t = &tokens[pos];
                        return Err(
                            AsmError::new_text(
                                ErrorKind::EmptyLabel,
                                name.clone(),
                                t.line_number,
                                t.column_start,
                                t.column_end,
                            ),
                        );
                    }
                    let mut instructions: Vec<Instruction> = Vec::new();
                    let mut j = pos + 1;
                    while j < re
                        invariant
                            pos + 1 <= j <= re,
                            spec_instr_lines(tv, pos + 1 as int, re as int) == grow(
                                instrs_view(instructions@),
                                spec_instr_lines(tv, j as int, re as int),
                            ),
                        decreases re - j,
                    {
                        let ghost iprev = instructions@;
                        assert(tv[j as int] == tokens@[j as int]@);
                        let le = read_tokens_to_eol(tokens, j, re);
                        match &tokens[j].token_type {
                            TokenType::Instruction(mnemonic) => {
                                let args = match parse_instruction_arguments(tokens, j + 1, le) {
                                    Ok(a) => a,
                                    Err(e) => {
                                        return Err(e);
                                    },
                                };
                                assert(tv[le - 1 as int] == tokens@[le - 1 as int]@);
                                let ins = match Instruction::parse(
                                    mnemonic,
                                    args,
                                    tokens[j].line_number,
                                    tokens[j].column_start,
                                    tokens[le - 1].column_end,
                                ) {
                                    Ok(i) => i,
                                    Err(e) => {
                                        return Err(e);
                                    },
                                };
                                instructions.push(ins);
                                proof {
                                    lemma_instrs_push(iprev, ins);
                                    lemma_grow_assoc(
                                        instrs_view(iprev),
                                        seq![ins@],
                                        spec_instr_lines(tv, le as int, re as int),
                                    );
                                }
                                j = le;
                            },
                            _ => {
                                let t = &tokens[j];
                                return Err(
                                    AsmError::new_plain(
                                        ErrorKind::ExpectedInstruction,
                                        t.line_number,
                                        t.column_start,
                                        t.column_end,
                                    ),
                                );
                            },
                        }
                    }
                    let ghost ifinal = instrs_view(instructions@);
                    let label = SubroutineLabel { name: name.clone(), instructions };
                    labels.push(label);
                    proof {
                        assert(spec_instr_lines(tv, j as int, re as int) == Ok::<_, ErrV>(
                            Seq::<InstructionV>::empty(),
                        ));
                        assert(ifinal + Seq::<InstructionV>::empty() =~= ifinal);
                        lemma_slabels_push(prev, label);
                        lemma_grow_at_assoc(
                            slabels_view(prev),
                            seq![SubroutineLabelV { name: name@, instructions: ifinal }],
                            spec_text_labels(tv, re as int),
                        );
                    }
                    pos = re;
                },
                _ => {
                    let t = &tokens[pos];
                    return Err(
                        AsmError::new_text(
                            ErrorKind::UnexpectedTokenInText,
                            t.value.clone(),
                            t.line_number,
                            t.column_start,
                            t.column_end,
                        ),
                    );
                },
            }
        }
        proof {
            assert(spec_text_labels(tv, pos as int) == Ok::<_, ErrV>(
                (Seq::<SubroutineLabelV>::empty(), tokens@.len() as int),
            ));
            assert(slabels_view(labels@) + Seq::<SubroutineLabelV>::empty() =~= slabels_view(
                labels@,
            ));
        }
        Ok((TextSection { labels }, pos))
    }
}

// ---------------------------------------------------------------------------
// The whole program
// ---------------------------------------------------------------------------

/// Parse the token stream of a whole source into a [`Program`]: a sequence
/// of `.data` / `.text` sections, each present at most once, or the first
/// structural error.  The result is exactly the value of
/// [`spec_parse_program`] on the tokens' views.
#[verifier::loop_isolation(false)]
pub fn build_program(tokens: &Vec<Token>) -> (r: Result<Program, AsmError>)
    requires
        tokens_wf(toks_view(tokens@)),
    ensures
        (match r {
            Ok(p) => spec_parse_program(toks_view(tokens@)) == Ok::<_, ErrV>(p@),
            Err(e) => spec_parse_program(toks_view(tokens@)) == Err::<ProgramV, _>(e@),
        }),
{
    let ghost tv = toks_view(tokens@);
    let mut data: Option<DataSection> = None;
    let mut text: Option<TextSection> = None;
    let mut pos: usize = 0;
    while pos < tokens.len()
        invariant
            pos <= tokens@.len(),
            spec_parse_program(tv) == spec_program_loop(
                tv,
                pos as int,
                data_opt_view(data),
                text_opt_view(text),
            ),
        decreases tokens@.len() - pos,
    {
        assert(tv[pos as int] == tokens@[pos as int]@);
        match &tokens[pos].token_type {
            TokenType::Directive(name) => {
                if str_eq_str(name.as_str(), "data") {
                    if data.is_some() {
                        let t = &tokens[pos];
                        return Err(
                            AsmError::new_plain(
                                ErrorKind::DuplicateDataSection,
                                t.line_number,
                                t.column_start,
                                t.column_end,
                            ),
                        );
                    }
                    match DataSection::parse(tokens, pos + 1) {
                        Ok((d, j)) => {
                            data = Some(d);
                            pos = j;
                        },
                        Err(e) => {
                            return Err(e);
                        },
                    }
                } else if str_eq_str(name.as_str(), "text") {
                    if text.is_some() {
                        let t = &tokens[pos];
                        return Err(
                            AsmError::new_plain(
                                ErrorKind::DuplicateTextSection,
                                t.line_number,
                                t.column_start,
                                t.column_end,
                            ),
                        );
                    }
                    match TextSection::parse(tokens, pos + 1) {
                        Ok((t, j)) => {
                            text = Some(t);
                            pos = j;
                        },
                        Err(e) => {
                            return Err(e);
                        },
                    }
                } else {
                    let t = &tokens[pos];
                    return Err(
                        AsmError::new_plain(
                            ErrorKind::ExpectedSectionDirective,
                            t.line_number,
                            t.column_start,
                            t.column_end,
                        ),
                    );
                }
            },
            _ => {
                let t = &tokens[pos];
                return Err(
                    AsmError::new_text(
                        ErrorKind::ProgramStart,
                        t.value.clone(),
                        t.line_number,
                        t.column_start,
                        t.column_end,
                    ),
                );
            },
        }
    }
    Ok(Program { text, data })
}

} // verus!

verus! {

// ---------------------------------------------------------------------------
// Structural laws of accepted programs
// ---------------------------------------------------------------------------

/// A data label carries at least one constant.
pub open spec fn constant_label_wf(l: ConstantLabelV) -> bool {
    l.constants.len() > 0
}

/// A subroutine label carries at least one instruction.
pub open spec fn subroutine_label_wf(l: SubroutineLabelV) -> bool {
    l.instructions.len() > 0
}

/// No label of an accepted program has an empty body.
pub open spec fn program_wf(p: ProgramV) -> bool {
    (match p.data {
        Some(d) => forall|i: int|
            0 <= i < d.labels.len() ==> constant_label_wf(#[trigger] d.labels[i]),
        None => true,
    }) && (match p.text {
        Some(t) => forall|i: int|
            0 <= i < t.labels.len() ==> subroutine_label_wf(#[trigger] t.labels[i]),
        None => true,
    })
}

/// A successfully parsed non-empty constant run yields at least one
/// constant.
proof fn lemma_constants_len(toks: Seq<TokenV>, j: int, e: int)
    requires
        0 <= j < e <= toks.len(),
    ensures
        (spec_constants(toks, j, e) matches Ok(cs) ==> cs.len() > 0),
{
}

proof fn lemma_data_labels_wf(toks: Seq<TokenV>, i: int)
    requires
        0 <= i <= toks.len(),
    ensures
        (spec_data_labels(toks, i) matches Ok((ls, j)) ==> forall|k: int|
            0 <= k < ls.len() ==> constant_label_wf(#[trigger] ls[k])),
    decreases toks.len() - i,
{
    if i < toks.len() && !is_section_directive(toks[i]) {
        match toks[i].kind {
            TokenTypeV::Label(name) => {
                lemma_run_len(toks, i + 1);
                let re = i + 1 + run_len(toks, i + 1);
                if re > i + 1 {
                    lemma_constants_len(toks, i + 1, re);
                    lemma_data_labels_wf(toks, re);
                    match spec_constants(toks, i + 1, re) {
                        Ok(cs) => {
                            match spec_data_labels(toks, re) {
                                Ok((rest, _)) => {
                                    let one = seq![
                                        ConstantLabelV { name, constants: cs },
                                    ];
                                    assert forall|k: int| 0 <= k < (one + rest).len() implies
                                        constant_label_wf(#[trigger] (one + rest)[k]) by {
                                        if k > 0 {
                                            assert((one + rest)[k] == rest[k - 1]);
                                        }
                                    }
                                },
                                Err(_) => {},
                            }
                        },
                        Err(_) => {},
                    }
                }
            },
            _ => {},
        }
    }
}

/// A successfully parsed non-empty instruction run yields at least one
/// instruction.
proof fn lemma_instr_lines_len(toks: Seq<TokenV>, j: int, e: int)
    requires
        0 <= j < e <= toks.len(),
    ensures
        (spec_instr_lines(toks, j, e) matches Ok(ins) ==> ins.len() > 0),
{
}

proof fn lemma_text_labels_wf(toks: Seq<TokenV>, i: int)
    requires
        0 <= i <= toks.len(),
    ensures
        (spec_text_labels(toks, i) matches Ok((ls, j)) ==> forall|k: int|
            0 <= k < ls.len() ==> subroutine_label_wf(#[trigger] ls[k])),
    decreases toks.len() - i,
{
    if i < toks.len() && !is_section_directive(toks[i]) {
        match toks[i].kind {
            TokenTypeV::Label(name) => {
                lemma_run_len(toks, i + 1);
                let re = i + 1 + run_len(toks, i + 1);
                if re > i + 1 {
                    lemma_instr_lines_len(toks, i + 1, re);
                    lemma_text_labels_wf(toks, re);
                    match spec_instr_lines(toks, i + 1, re) {
                        Ok(ins) => {
                            match spec_text_labels(toks, re) {
                                Ok((rest, _)) => {
                                    let one = seq![
                                        SubroutineLabelV { name, instructions: ins },
                                    ];
                                    assert forall|k: int| 0 <= k < (one + rest).len() implies
                                        subroutine_label_wf(#[trigger] (one + rest)[k]) by {
                                        if k > 0 {
                                            assert((one + rest)[k] == rest[k - 1]);
                                        }
                                    }
                                },
                                Err(_) => {},
                            }
                        },
                        Err(_) => {},
                    }
                }
            },
            _ => {},
        }
    }
}

proof fn lemma_program_loop_wf(
    toks: Seq<TokenV>,
    i: int,
    dat: Option<DataSectionV>,
    txt: Option<TextSectionV>,
)
    requires
        0 <= i <= toks.len(),
        (dat matches Some(d) ==> forall|k: int|
            0 <= k < d.labels.len() ==> constant_label_wf(#[trigger] d.labels[k])),
        (txt matches Some(t) ==> forall|k: int|
            0 <= k < t.labels.len() ==> subroutine_label_wf(#[trigger] t.labels[k])),
    ensures
        (spec_program_loop(toks, i, dat, txt) matches Ok(p) ==> program_wf(p)),
    decreases toks.len() - i,
{
    if 0 <= i < toks.len() {
        match toks[i].kind {
            TokenTypeV::Directive(name) => {
                if name == "data"@ && dat is None {
                    lemma_data_labels_resume(toks, i + 1);
                    lemma_data_labels_wf(toks, i + 1);
                    match spec_data_labels(toks, i + 1) {
                        Ok((ls, j)) => {
                            lemma_program_loop_wf(toks, j, Some(DataSectionV { labels: ls }), txt);
                        },
                        Err(_) => {},
                    }
                } else if name == "text"@ && txt is None {
                    lemma_text_labels_resume(toks, i + 1);
                    lemma_text_labels_wf(toks, i + 1);
                    match spec_text_labels(toks, i + 1) {
                        Ok((ls, j)) => {
                            lemma_program_loop_wf(toks, j, dat, Some(TextSectionV { labels: ls }));
                        },
                        Err(_) => {},
                    }
                }
            },
            _ => {},
        }
    }
}

/// Every program the parser accepts is well-formed: no data label has an
/// empty constant list and no subroutine label has an empty instruction
/// list — a label with an empty body is always rejected.
pub proof fn lemma_parse_program_wf(toks: Seq<TokenV>)
    ensures
        (spec_parse_program(toks) matches Ok(p) ==> program_wf(p)),
{
    lemma_program_loop_wf(toks, 0, None, None);
}

} // verus!

verus! {

/// Is `t` a directive token with exactly this name?
pub open spec fn is_dir_named(t: TokenV, name: Seq<char>) -> bool {
    match t.kind {
        TokenTypeV::Directive(n) => n == name,
        _ => false,
    }
}

/// Number of directive tokens named `name` from position `i` on.
pub open spec fn count_dir_from(toks: Seq<TokenV>, i: int, name: Seq<char>) -> nat
    decreases toks.len() - i,
{
    if i < 0 || i >= toks.len() {
        0
    } else {
        (if is_dir_named(toks[i], name) {
            1nat
        } else {
            0nat
        }) + count_dir_from(toks, i + 1, name)
    }
}

/// A segment free of directives named `name` contributes nothing to the
/// count.
proof fn lemma_count_segment(toks: Seq<TokenV>, a: int, b: int, name: Seq<char>)
    requires
        0 <= a <= b <= toks.len(),
        forall|k: int| a <= k < b ==> !is_dir_named(#[trigger] toks[k], name),
    ensures
        count_dir_from(toks, a, name) == count_dir_from(toks, b, name),
    decreases b - a,
{
    if a < b {
        lemma_count_segment(toks, a + 1, b, name);
    }
}

/// A successfully parsed section body holds no section directive, so the
/// counts of `.data` and `.text` directives are unchanged across it.
proof fn lemma_data_labels_count(toks: Seq<TokenV>, i: int, name: Seq<char>)
    requires
        0 <= i <= toks.len(),
        name == "data"@ || name == "text"@,
    ensures
        (spec_data_labels(toks, i) matches Ok((ls, j)) ==> count_dir_from(toks, i, name)
            == count_dir_from(toks, j, name)),
    decreases toks.len() - i,
{
    if i < toks.len() && !is_section_directive(toks[i]) {
        match toks[i].kind {
            TokenTypeV::Label(_) => {
                lemma_run_len(toks, i + 1);
                let re = i + 1 + run_len(toks, i + 1);
                if re > i + 1 {
                    match spec_constants(toks, i + 1, re) {
                        Ok(_) => {
                            lemma_data_labels_count(toks, re, name);
                            assert forall|k: int| i <= k < re implies !is_dir_named(
                                #[trigger] toks[k],
                                name,
                            ) by {
                                if k > i {
                                    assert(!is_section_directive(toks[k]));
                                }
                            }
                            lemma_count_segment(toks, i, re, name);
                        },
                        Err(_) => {},
                    }
                }
            },
            _ => {},
        }
    }
}

proof fn lemma_text_labels_count(toks: Seq<TokenV>, i: int, name: Seq<char>)
    requires
        0 <= i <= toks.len(),
        name == "data"@ || name == "text"@,
    ensures
        (spec_text_labels(toks, i) matches Ok((ls, j)) ==> count_dir_from(toks, i, name)
            == count_dir_from(toks, j, name)),
    decreases toks.len() - i,
{
    if i < toks.len() && !is_section_directive(toks[i]) {
        match toks[i].kind {
            TokenTypeV::Label(_) => {
                lemma_run_len(toks, i + 1);
                let re = i + 1 + run_len(toks, i + 1);
                if re > i + 1 {
                    match spec_instr_lines(toks, i + 1, re) {
                        Ok(_) => {
                            lemma_text_labels_count(toks, re, name);
                            assert forall|k: int| i <= k < re implies !is_dir_named(
                                #[trigger] toks[k],
                                name,
                            ) by {
                                if k > i {
                                    assert(!is_section_directive(toks[k]));
                                }
                            }
                            lemma_count_segment(toks, i, re, name);
                        },
                        Err(_) => {},
                    }
                }
            },
            _ => {},
        }
    }
}

proof fn lemma_program_loop_count(
    toks: Seq<TokenV>,
    i: int,
    dat: Option<DataSectionV>,
    txt: Option<TextSectionV>,
)
    requires
        0 <= i <= toks.len(),
    ensures
        (spec_program_loop(toks, i, dat, txt) matches Ok(p) ==> count_dir_from(toks, i, "data"@)
            + (if dat is Some {
            1nat
        } else {
            0nat
        }) <= 1 && count_dir_from(toks, i, "text"@) + (if txt is Some {
            1nat
        } else {
            0nat
        }) <= 1),
    decreases toks.len() - i,
{
    reveal_strlit("data");
    reveal_strlit("text");
    assert("data"@[0] == 'd' && "text"@[0] == 't');
    assert("data"@ != "text"@);
    if 0 <= i < toks.len() {
        match toks[i].kind {
            TokenTypeV::Directive(name) => {
                if name == "data"@ && dat is None {
                    lemma_data_labels_resume(toks, i + 1);
                    lemma_data_labels_count(toks, i + 1, "data"@);
                    lemma_data_labels_count(toks, i + 1, "text"@);
                    match spec_data_labels(toks, i + 1) {
                        Ok((ls, j)) => {
                            lemma_program_loop_count(
                                toks,
                                j,
                                Some(DataSectionV { labels: ls }),
                                txt,
                            );
                        },
                        Err(_) => {},
                    }
                } else if name == "text"@ && txt is None {
                    lemma_text_labels_resume(toks, i + 1);
                    lemma_text_labels_count(toks, i + 1, "data"@);
                    lemma_text_labels_count(toks, i + 1, "text"@);
                    match spec_text_labels(toks, i + 1) {
                        Ok((ls, j)) => {
                            lemma_program_loop_count(
                                toks,
                                j,
                                dat,
                                Some(TextSectionV { labels: ls }),
                            );
                        },
                        Err(_) => {},
                    }
                }
            },
            _ => {},
        }
    }
}

/// A token stream the parser accepts holds at most one `.data` and at most
/// one `.text` directive.  Contrapositive: a source with two `.data`
/// directives is always rejected, whatever stands between them — either
/// some earlier error, or the duplicate-section error itself.
pub proof fn lemma_no_duplicate_sections(toks: Seq<TokenV>)
    ensures
        (spec_parse_program(toks) matches Ok(p) ==> count_dir_from(toks, 0, "data"@) <= 1
            && count_dir_from(toks, 0, "text"@) <= 1),
{
    lemma_program_loop_count(toks, 0, None, None);
}

} // verus!

verus! {

/// First constant label named `name` from index `i` on.
pub open spec fn find_clabel_from(ls: Seq<ConstantLabelV>, name: Seq<char>, i: int) -> Option<
    ConstantLabelV,
>
    decreases ls.len() - i,
{
    if i < 0 || i >= ls.len() {
        None
    } else if ls[i].name == name {
        Some(ls[i])
    } else {
        find_clabel_from(ls, name, i + 1)
    }
}

/// First subroutine label named `name` from index `i` on.
pub open spec fn find_slabel_from(ls: Seq<SubroutineLabelV>, name: Seq<char>, i: int) -> Option<
    SubroutineLabelV,
>
    decreases ls.len() - i,
{
    if i < 0 || i >= ls.len() {
        None
    } else if ls[i].name == name {
        Some(ls[i])
    } else {
        find_slabel_from(ls, name, i + 1)
    }
}

/// The constant label of the program's data section named `name`, if any.
pub open spec fn spec_find_constant_label(p: ProgramV, name: Seq<char>) -> Option<ConstantLabelV> {
    match p.data {
        Some(d) => find_clabel_from(d.labels, name, 0),
        None => None,
    }
}

/// The subroutine label of the program's text section named `name`, if any.
pub open spec fn spec_find_subroutine_label(p: ProgramV, name: Seq<char>) -> Option<
    SubroutineLabelV,
> {
    match p.text {
        Some(t) => find_slabel_from(t.labels, name, 0),
        None => None,
    }
}

impl Program {
    /// The empty program, with neither section present.
    pub fn new() -> (r: Program)
        ensures
            r@ == (ProgramV { text: None, data: None }),
    {
        Program { text: None, data: None }
    }

    /// Resolve a constant label of the data section by name.
    #[verifier::loop_isolation(false)]
    pub fn find_constant_label(&self, name: &str) -> (r: Option<&ConstantLabel>)
        ensures
            (match r {
                Some(l) => spec_find_constant_label(self@, name@) == Some(l@),
                None => spec_find_constant_label(self@, name@) is None,
            }),
    {
        let data = match &self.data {
            Some(d) => d,
            None => {
                return None;
            },
        };
        let ghost ls = data@.labels;
        let mut i: usize = 0;
        while i < data.labels.len()
            invariant
                i <= data.labels@.len(),
                find_clabel_from(ls, name@, 0) == find_clabel_from(ls, name@, i as int),
            decreases data.labels@.len() - i,
        {
            assert(ls[i as int] == data.labels@[i as int]@);
            if str_eq_str(data.labels[i].name.as_str(), name) {
                return Some(&data.labels[i]);
            }
            i += 1;
        }
        None
    }

    /// Resolve a subroutine label of the text section by name.
    #[verifier::loop_isolation(false)]
    pub fn find_subroutine_label(&self, name: &str) -> (r: Option<&SubroutineLabel>)
        ensures
            (match r {
                Some(l) => spec_find_subroutine_label(self@, name@) == Some(l@),
                None => spec_find_subroutine_label(self@, name@) is None,
            }),
    {
        let text = match &self.text {
            Some(t) => t,
            None => {
                return None;
            },
        };
        let ghost ls = text@.labels;
        let mut i: usize = 0;
        while i < text.labels.len()
            invariant
                i <= text.labels@.len(),
                find_slabel_from(ls, name@, 0) == find_slabel_from(ls, name@, i as int),
            decreases text.labels@.len() - i,
        {
            assert(ls[i as int] == text.labels@[i as int]@);
            if str_eq_str(text.labels[i].name.as_str(), name) {
                return Some(&text.labels[i]);
            }
            i += 1;
        }
        None
    }
}

} // verus!

verus! {

/// Splitting an argument list can fail only with the
/// unexpected-argument-separator diagnostic.
proof fn lemma_split_err_kind(toks: Seq<TokenV>, s: int, e: int)
    ensures
        (spec_split_args(toks, s, e) matches Err(err) ==> err.kind
            == ErrorKind::UnexpectedArgumentSeparator),
    decreases e - s,
{
    if 0 <= s < e <= toks.len() {
        lemma_comma_len(toks, s, e);
        let c = s + comma_len(toks, s, e);
        if s < c < e - 1 {
            lemma_split_err_kind(toks, c + 1, e);
        }
    }
}

/// An argument list with two adjacent commas never splits successfully.
proof fn lemma_adjacent_commas_reject(toks: Seq<TokenV>, s: int, e: int, k: int)
    requires
        0 <= s <= k,
        k + 1 < e <= toks.len(),
        is_comma_tok(toks[k]),
        is_comma_tok(toks[k + 1]),
    ensures
        spec_split_args(toks, s, e) is Err,
    decreases e - s,
{
    lemma_comma_len(toks, s, e);
    let c = s + comma_len(toks, s, e);
    assert(c <= k);
    if c > s && c < e - 1 {
        if c < k {
            lemma_adjacent_commas_reject(toks, c + 1, e, k);
        } else {
            assert(toks[c + 1] == toks[k + 1]);
            lemma_comma_len(toks, c + 1, e);
            assert(comma_len(toks, c + 1, e) == 0);
        }
    }
}

/// Two consecutive commas in an instruction line's argument tokens are
/// always rejected with the unexpected-argument-separator diagnostic, and
/// no argument list is produced.
pub proof fn lemma_double_comma_rejected(toks: Seq<TokenV>, s: int, e: int, k: int)
    requires
        0 <= s <= k,
        k + 1 < e <= toks.len(),
        is_comma_tok(toks[k]),
        is_comma_tok(toks[k + 1]),
    ensures
        spec_parse_arg_list(toks, s, e) is Err,
        (spec_parse_arg_list(toks, s, e) matches Err(err) ==> err.kind
            == ErrorKind::UnexpectedArgumentSeparator),
{
    lemma_adjacent_commas_reject(toks, s, e, k);
    lemma_split_err_kind(toks, s, e);
}

} // verus!
