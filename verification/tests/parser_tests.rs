use spasm::assemble_lines;
use spasm::diag::{AsmError, ErrorKind};
use spasm::parse::{
    build_program, ConstantLabelType, Instruction, InstructionArgumentType, Program, Register,
};
use spasm::token::{tokenize_lines, Token, TokenType};

fn lines(v: &[&str]) -> Vec<String> {
    v.iter().map(|s| s.to_string()).collect()
}

fn parse_source(v: &[&str]) -> Result<Program, AsmError> {
    assemble_lines(&lines(v))
}

fn parse_source_err(v: &[&str]) -> AsmError {
    parse_source(v).unwrap_err()
}

fn text_err(line: &str) -> AsmError {
    parse_source_err(&[".text", "f:", line])
}

fn first_instruction(v: &[&str]) -> Instruction {
    let p = parse_source(v).unwrap();
    let text = p.text.unwrap();
    text.labels[0].instructions[0].clone()
}

#[test]
fn empty_source_is_an_empty_program() {
    let p = parse_source(&[]).unwrap();
    assert_eq!(p, Program { text: None, data: None });
    let p2 = parse_source(&["", "; nothing here"]).unwrap();
    assert_eq!(p2, Program { text: None, data: None });
}

#[test]
fn mov_immediate_hex_into_register() {
    let ins = first_instruction(&[".text", "main:", "mov %eax, #$00FF"]);
    assert_eq!(ins, Instruction::mov_ImmediateToRegister(Register::EAX, 0x00FF));
}

#[test]
fn add_register_to_register() {
    let ins = first_instruction(&[".text", "main:", "add %ebx, %ecx"]);
    assert_eq!(ins, Instruction::add_RegisterToRegister(Register::EBX, Register::ECX));
}

#[test]
fn add_immediate_to_accumulator() {
    let ins = first_instruction(&[".text", "main:", "add #2"]);
    assert_eq!(ins, Instruction::add_ImmediateToAccumulator(2));
}

#[test]
fn add_register_to_accumulator() {
    let ins = first_instruction(&[".text", "main:", "add %dx"]);
    assert_eq!(ins, Instruction::add_RegisterToAccumulator(Register::DX));
}

#[test]
fn add_immediate_to_register() {
    let ins = first_instruction(&[".text", "main:", "add %ebx, #2"]);
    assert_eq!(ins, Instruction::add_ImmediateToRegister(Register::EBX, 2));
}

#[test]
fn mov_register_into_memory() {
    let ins = first_instruction(&[".text", "main:", "mov $F354, %eax"]);
    assert_eq!(ins, Instruction::mov_RegisterToMemory(0xF354, Register::EAX));
}

#[test]
fn mov_memory_into_register() {
    let ins = first_instruction(&[".text", "main:", "mov %eax, $F354"]);
    assert_eq!(ins, Instruction::mov_MemoryToRegister(Register::EAX, 0xF354));
}

#[test]
fn mov_register_to_register() {
    let ins = first_instruction(&[".text", "main:", "mov %eax, %ebx"]);
    assert_eq!(ins, Instruction::mov_RegisterToRegister(Register::EAX, Register::EBX));
}

#[test]
fn mov_immediate_into_memory() {
    let ins = first_instruction(&[".text", "main:", "mov 100, #420"]);
    assert_eq!(ins, Instruction::mov_ImmediateToMemory16(100, 420));
}

#[test]
fn nop_parses_alone() {
    let ins = first_instruction(&[".text", "main:", "nop"]);
    assert_eq!(ins, Instruction::nop);
}

#[test]
fn double_comma_is_an_unexpected_separator() {
    let e = text_err("mov %eax,, %ebx");
    assert_eq!(e.kind, ErrorKind::UnexpectedArgumentSeparator);
}

#[test]
fn leading_comma_is_an_unexpected_separator() {
    assert_eq!(text_err("mov , %ebx").kind, ErrorKind::UnexpectedArgumentSeparator);
}

#[test]
fn trailing_comma_is_an_unexpected_separator() {
    assert_eq!(text_err("mov %eax,").kind, ErrorKind::UnexpectedArgumentSeparator);
}

#[test]
fn duplicate_data_section_is_rejected() {
    let e = parse_source_err(&[".data", "x: .word 1", ".data", "y: .word 2"]);
    assert_eq!(e.kind, ErrorKind::DuplicateDataSection);
}

#[test]
fn duplicate_empty_data_sections_are_rejected() {
    let e = parse_source_err(&[".data", ".data"]);
    assert_eq!(e.kind, ErrorKind::DuplicateDataSection);
}

#[test]
fn duplicate_text_section_is_rejected() {
    let e = parse_source_err(&[".text", "f: nop", ".text", "g: nop"]);
    assert_eq!(e.kind, ErrorKind::DuplicateTextSection);
}

#[test]
fn data_label_with_empty_body_is_rejected() {
    let e = parse_source_err(&[".data", "foo:", ".text"]);
    assert_eq!(e.kind, ErrorKind::EmptyLabel);
    assert_eq!(e.detail.as_deref(), Some("foo"));
}

#[test]
fn data_label_followed_by_label_is_rejected() {
    let e = parse_source_err(&[".data", "foo:", "bar: .word 1"]);
    assert_eq!(e.kind, ErrorKind::EmptyLabel);
    assert_eq!(e.detail.as_deref(), Some("foo"));
}

#[test]
fn text_label_at_end_of_source_is_rejected() {
    let e = parse_source_err(&[".text", "foo:"]);
    assert_eq!(e.kind, ErrorKind::EmptyLabel);
}

#[test]
fn program_must_start_with_a_section_directive() {
    assert_eq!(parse_source_err(&["mov"]).kind, ErrorKind::ProgramStart);
    assert_eq!(parse_source_err(&[".foo"]).kind, ErrorKind::ExpectedSectionDirective);
}

#[test]
fn stray_directive_inside_data_section_is_illegal() {
    let e = parse_source_err(&[".data", ".foo"]);
    assert_eq!(e.kind, ErrorKind::IllegalDirective);
    assert_eq!(e.detail.as_deref(), Some("foo"));
}

#[test]
fn non_label_in_data_section_is_rejected() {
    let e = parse_source_err(&[".data", "5"]);
    assert_eq!(e.kind, ErrorKind::UnexpectedTokenInData);
    assert_eq!(e.detail.as_deref(), Some("5"));
}

#[test]
fn non_label_in_text_section_is_rejected() {
    let e = parse_source_err(&[".text", "5"]);
    assert_eq!(e.kind, ErrorKind::UnexpectedTokenInText);
}

#[test]
fn constant_needs_directive_and_value() {
    assert_eq!(parse_source_err(&[".data", "x:", ".word"]).kind, ErrorKind::ConstantTooShort);
}

#[test]
fn constant_must_start_with_a_directive() {
    assert_eq!(parse_source_err(&[".data", "x:", "1 2"]).kind, ErrorKind::ConstantMissingDirective);
}

#[test]
fn ascii_directive_needs_a_string() {
    assert_eq!(parse_source_err(&[".data", "x:", ".ascii 5"]).kind, ErrorKind::ExpectedStringAfterAscii);
}

#[test]
fn word_directive_refuses_immediate_marker() {
    assert_eq!(parse_source_err(&[".data", "x:", ".word #5"]).kind, ErrorKind::WordWithImmediateMarker);
}

#[test]
fn word_directive_needs_a_number() {
    assert_eq!(parse_source_err(&[".data", "x:", ".word \"a\""]).kind, ErrorKind::ExpectedNumberAfterWord);
}

#[test]
fn unknown_constant_directive_is_rejected() {
    let e = parse_source_err(&[".data", "x:", ".foo 1"]);
    assert_eq!(e.kind, ErrorKind::UnknownConstantDirective);
    assert_eq!(e.detail.as_deref(), Some("foo"));
}

#[test]
fn word_overflow_reports_the_radix() {
    assert_eq!(parse_source_err(&[".data", "x:", ".word 65536"]).kind, ErrorKind::DecimalOverflow);
    assert_eq!(
        parse_source_err(&[".data", "x:", ".word %11111111111111111"]).kind,
        ErrorKind::BinaryOverflow
    );
    assert_eq!(parse_source_err(&[".data", "x:", ".word $10000"]).kind, ErrorKind::HexOverflow);
}

#[test]
fn word_accepts_all_radixes_up_to_the_word_limit() {
    let p = parse_source(&[".data", "x: .word 65535 .word %0110 .word $ff"]).unwrap();
    let d = p.data.unwrap();
    assert_eq!(
        d.labels[0].constants,
        vec![
            ConstantLabelType::Word(65535),
            ConstantLabelType::Word(6),
            ConstantLabelType::Word(255)
        ]
    );
}

#[test]
fn lines_in_subroutines_start_with_instructions() {
    assert_eq!(parse_source_err(&[".text", "f:", "5"]).kind, ErrorKind::ExpectedInstruction);
}

#[test]
fn trailing_token_after_number_argument() {
    assert_eq!(text_err("mov 5 6, %ax").kind, ErrorKind::UnexpectedAfterNumber);
}

#[test]
fn immediate_marker_needs_a_number() {
    assert_eq!(text_err("add #").kind, ErrorKind::ExpectedNumberAfterImmediate);
}

#[test]
fn immediate_marker_rejects_non_numbers() {
    assert_eq!(text_err("add # foo").kind, ErrorKind::UnexpectedAfterImmediateSpecifier);
}

#[test]
fn trailing_token_after_immediate_number() {
    assert_eq!(text_err("add #5 6").kind, ErrorKind::UnexpectedAfterImmediateNumber);
}

#[test]
fn open_parenthesis_needs_an_address() {
    assert_eq!(text_err("add (").kind, ErrorKind::ExpectedAddressAfterParenthesis);
}

#[test]
fn open_parenthesis_rejects_non_numbers() {
    assert_eq!(text_err("add ( foo").kind, ErrorKind::UnexpectedAfterParenthesis);
}

#[test]
fn indirect_address_needs_closing_parenthesis() {
    assert_eq!(text_err("add (5").kind, ErrorKind::ExpectedCloseParenthesis);
}

#[test]
fn indirect_address_rejects_other_closers() {
    assert_eq!(text_err("add (5 x").kind, ErrorKind::UnexpectedInsteadOfCloseParenthesis);
}

#[test]
fn trailing_token_after_indirect_address() {
    assert_eq!(text_err("add (5) x").kind, ErrorKind::UnexpectedAfterIndirectAddress);
}

#[test]
fn trailing_token_after_label_identifier() {
    assert_eq!(text_err("add foo 5").kind, ErrorKind::UnexpectedAfterLabelIdentifier);
}

#[test]
fn open_bracket_needs_an_identifier() {
    assert_eq!(text_err("add [").kind, ErrorKind::ExpectedIdentifierAfterBracket);
}

#[test]
fn open_bracket_rejects_non_identifiers() {
    assert_eq!(text_err("add [ 5 ]").kind, ErrorKind::UnexpectedAfterBracket);
}

#[test]
fn label_value_needs_closing_bracket() {
    assert_eq!(text_err("add [foo").kind, ErrorKind::ExpectedCloseBracket);
}

#[test]
fn label_value_rejects_other_closers() {
    assert_eq!(text_err("add [foo 5").kind, ErrorKind::UnexpectedInsteadOfCloseBracket);
}

#[test]
fn trailing_token_after_label_value() {
    assert_eq!(text_err("add [foo] 5").kind, ErrorKind::UnexpectedAfterLabelValue);
}

#[test]
fn trailing_token_after_register() {
    assert_eq!(text_err("add %ax 5").kind, ErrorKind::UnexpectedAfterRegister);
}

#[test]
fn invalid_register_name_is_its_own_error() {
    let e = text_err("add %zz");
    assert_eq!(e.kind, ErrorKind::InvalidRegisterName);
    assert_eq!(e.detail.as_deref(), Some("zz"));
}

#[test]
fn stray_closer_starts_no_argument() {
    assert_eq!(text_err("add )").kind, ErrorKind::UnexpectedArgumentToken);
}

#[test]
fn nop_arity_is_checked() {
    let e = text_err("nop 5");
    assert_eq!(e.kind, ErrorKind::NopArgumentCount);
    assert_eq!(e.detail.as_deref(), Some("1"));
}

#[test]
fn mov_arity_is_checked() {
    let e = text_err("mov %ax");
    assert_eq!(e.kind, ErrorKind::MovArgumentCount);
    assert_eq!(e.detail.as_deref(), Some("1"));
}

#[test]
fn add_arity_is_checked() {
    let e = text_err("add %ax, %bx, %cx");
    assert_eq!(e.kind, ErrorKind::AddArgumentCount);
    assert_eq!(e.detail.as_deref(), Some("3"));
}

#[test]
fn mov_rejects_unsupported_operand_shapes() {
    let e = text_err("mov #5, %ax");
    assert_eq!(e.kind, ErrorKind::NoOverload);
    assert_eq!(e.detail.as_deref(), Some("mov"));
}

#[test]
fn add_rejects_unsupported_operand_shapes() {
    assert_eq!(text_err("add 5").kind, ErrorKind::NoOverload);
    assert_eq!(text_err("add %ax, foo").kind, ErrorKind::NoOverload);
}

#[test]
fn unknown_mnemonics_are_not_implemented() {
    let e = text_err("jmp foo");
    assert_eq!(e.kind, ErrorKind::NotImplemented);
    assert_eq!(e.detail.as_deref(), Some("jmp"));
    assert_eq!(text_err("inc").kind, ErrorKind::NotImplemented);
}

#[test]
fn overflowing_argument_reports_the_radix() {
    assert_eq!(text_err("mov %ax, #65536").kind, ErrorKind::DecimalOverflow);
    assert_eq!(text_err("mov %ax, $10000").kind, ErrorKind::HexOverflow);
}

#[test]
fn register_names_resolve_case_insensitively() {
    assert_eq!(Register::from_name(&"EAX".to_string()), Some(Register::EAX));
    assert_eq!(Register::from_name(&"Eax".to_string()), Some(Register::EAX));
    assert_eq!(Register::from_name(&"ax".to_string()), Some(Register::AX));
    assert_eq!(Register::from_name(&"bX".to_string()), Some(Register::BX));
    assert_eq!(Register::from_name(&"cx".to_string()), Some(Register::CX));
    assert_eq!(Register::from_name(&"DX".to_string()), Some(Register::DX));
    assert_eq!(Register::from_name(&"ex".to_string()), Some(Register::EX));
    assert_eq!(Register::from_name(&"ebx".to_string()), Some(Register::EBX));
    assert_eq!(Register::from_name(&"ECX".to_string()), Some(Register::ECX));
    assert_eq!(Register::from_name(&"edx".to_string()), Some(Register::EDX));
    assert_eq!(Register::from_name(&"eex".to_string()), Some(Register::EEX));
    assert_eq!(Register::from_name(&"foo".to_string()), None);
    assert_eq!(Register::from_name(&"axx".to_string()), None);
    assert_eq!(Register::from_name(&"".to_string()), None);
}

#[test]
fn case_insensitive_register_in_a_full_line() {
    let ins = first_instruction(&[".text", "main:", "mov %EAX, #1"]);
    assert_eq!(ins, Instruction::mov_ImmediateToRegister(Register::EAX, 1));
}

#[test]
fn whole_program_round_trip() {
    let src = &[
        ".data",
        "greeting: .ascii \"Hi\" .word 42",
        "nums: .word %0110",
        ".text",
        "main: nop",
        "  mov %ax, #1",
        "loop1: add %bx, %cx",
    ];
    let p = parse_source(src).unwrap();
    let d = p.data.as_ref().unwrap();
    assert_eq!(d.labels.len(), 2);
    assert_eq!(d.labels[0].name, "greeting");
    assert_eq!(
        d.labels[0].constants,
        vec![
            ConstantLabelType::StringLiteral("Hi".to_string()),
            ConstantLabelType::Word(42)
        ]
    );
    assert_eq!(d.labels[1].name, "nums");
    let t = p.text.as_ref().unwrap();
    assert_eq!(t.labels.len(), 2);
    assert_eq!(t.labels[0].name, "main");
    assert_eq!(
        t.labels[0].instructions,
        vec![
            Instruction::nop,
            Instruction::mov_ImmediateToRegister(Register::AX, 1)
        ]
    );
    assert_eq!(t.labels[1].name, "loop1");
    assert_eq!(
        t.labels[1].instructions,
        vec![Instruction::add_RegisterToRegister(Register::BX, Register::CX)]
    );
}

#[test]
fn text_before_data_is_accepted() {
    let p = parse_source(&[".text", "main: nop", ".data", "x: .word 1"]).unwrap();
    assert!(p.text.is_some());
    assert!(p.data.is_some());
}

#[test]
fn reparsing_the_same_source_yields_an_equal_program() {
    let src = &[
        ".data",
        "greeting: .ascii \"Hi\" .word 42",
        ".text",
        "main: nop",
        "  mov %ax, #1",
    ];
    let a = parse_source(src).unwrap();
    let b = parse_source(src).unwrap();
    assert_eq!(a, b);
}

#[test]
fn find_constant_label_resolves_by_name() {
    let p = parse_source(&[".data", "a: .word 1", "b: .word 2"]).unwrap();
    assert_eq!(p.find_constant_label("b").unwrap().constants, vec![ConstantLabelType::Word(2)]);
    assert!(p.find_constant_label("c").is_none());
    let empty = Program::new();
    assert!(empty.find_constant_label("a").is_none());
}

#[test]
fn find_subroutine_label_resolves_by_name() {
    let p = parse_source(&[".text", "main: nop", "aux: add #1"]).unwrap();
    assert_eq!(
        p.find_subroutine_label("aux").unwrap().instructions,
        vec![Instruction::add_ImmediateToAccumulator(1)]
    );
    assert!(p.find_subroutine_label("gone").is_none());
    assert!(Program::new().find_subroutine_label("main").is_none());
}

#[test]
fn instruction_boundaries_follow_source_lines() {
    let p = parse_source(&[".text", "main:", "nop", "nop", "add #1"]).unwrap();
    let t = p.text.unwrap();
    assert_eq!(t.labels[0].instructions.len(), 3);
}

#[test]
fn arguments_parse_each_operand_shape() {
    let toks = tokenize_lines(&lines(&["mov (5) [foo] bar #2 %ax 7"])).unwrap();
    // each shape parsed in isolation from its token range
    let arg = InstructionArgumentType::parse(&toks, 1, 4).unwrap();
    assert_eq!(arg, InstructionArgumentType::MemoryAddressIndirect(5));
    let arg = InstructionArgumentType::parse(&toks, 4, 7).unwrap();
    assert_eq!(arg, InstructionArgumentType::LabelValue("foo".to_string()));
    let arg = InstructionArgumentType::parse(&toks, 7, 8).unwrap();
    assert_eq!(arg, InstructionArgumentType::LabelAddress("bar".to_string()));
    let arg = InstructionArgumentType::parse(&toks, 8, 10).unwrap();
    assert_eq!(arg, InstructionArgumentType::Immediate(2));
    let arg = InstructionArgumentType::parse(&toks, 10, 11).unwrap();
    assert_eq!(arg, InstructionArgumentType::Register(Register::AX));
    let arg = InstructionArgumentType::parse(&toks, 11, 12).unwrap();
    assert_eq!(arg, InstructionArgumentType::MemoryAddress(7));
}

#[test]
fn build_program_consumes_a_prelexed_stream() {
    let toks = vec![Token {
        line_number: 0,
        column_start: 0,
        column_end: 5,
        value: ".data".to_string(),
        token_type: TokenType::Directive("data".to_string()),
    }];
    let p = build_program(&toks).unwrap();
    assert!(p.data.is_some());
    assert!(p.data.unwrap().labels.is_empty());
}

#[test]
fn duplicate_section_error_spans_the_second_directive() {
    let e = parse_source_err(&[".data", ".data"]);
    assert_eq!(e.line, 1);
    assert_eq!((e.col_start, e.col_end), (0, 5));
}

#[test]
fn empty_sections_are_legal() {
    let p = parse_source(&[".data"]).unwrap();
    assert!(p.data.as_ref().unwrap().labels.is_empty());
    assert!(p.text.is_none());
    let p2 = parse_source(&[".data", ".text"]).unwrap();
    assert!(p2.data.is_some());
    assert!(p2.text.as_ref().unwrap().labels.is_empty());
}

#[test]
fn comments_between_sections_are_ignored()
{
    let p = parse_source(&["; header", ".text", "main: nop ; does nothing", "; trailer"]).unwrap();
    assert_eq!(p.text.unwrap().labels[0].instructions, vec![Instruction::nop]);
}
