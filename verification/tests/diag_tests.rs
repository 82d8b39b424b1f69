use spasm::assemble_lines;
use spasm::diag::{u64_to_string, AsmError, ErrorKind};

fn lines(v: &[&str]) -> Vec<String> {
    v.iter().map(|s| s.to_string()).collect()
}

fn asm_err(v: &[&str]) -> AsmError {
    assemble_lines(&lines(v)).unwrap_err()
}

#[test]
fn numbers_render_in_decimal() {
    assert_eq!(u64_to_string(0), "0");
    assert_eq!(u64_to_string(7), "7");
    assert_eq!(u64_to_string(42), "42");
    assert_eq!(u64_to_string(65535), "65535");
    assert_eq!(u64_to_string(1000000), "1000000");
}

#[test]
fn separator_message_is_exact() {
    let e = asm_err(&[".text", "f:", "mov %eax,, %ebx"]);
    assert_eq!(e.message(), "Unexpected argument separator `,`!");
}

#[test]
fn overflow_messages_name_the_radix_maximum() {
    assert_eq!(
        asm_err(&[".data", "x:", ".word 65536"]).message(),
        "Decimal literal is larger than expected 16-bit word! (Max is 65535)"
    );
    assert_eq!(
        asm_err(&[".data", "x:", ".word %11111111111111111"]).message(),
        "Binary literal is larger than expected 16-bit word! (Max is %1111111111111111)"
    );
    assert_eq!(
        asm_err(&[".data", "x:", ".word $10000"]).message(),
        "Hexadecimal literal is larger than expected 16-bit word! (Max is $FFFF)"
    );
}

#[test]
fn messages_splice_in_the_offending_text() {
    assert_eq!(
        asm_err(&[".text", "f:", "add %zz"]).message(),
        "Register name `zz` is invalid!"
    );
    assert_eq!(
        asm_err(&[".data", "foo:", ".text"]).message(),
        "Label `foo` cannot be empty!"
    );
    assert_eq!(
        asm_err(&[".text", "f:", "jsr start"]).message(),
        "Instruction `jsr` not implemented"
    );
    assert_eq!(
        asm_err(&["&"]).message(),
        "Unexpected value '&' at start of token"
    );
}

#[test]
fn arity_messages_carry_the_counts() {
    assert_eq!(
        asm_err(&[".text", "f:", "nop 1, 2"]).message(),
        "`nop` instruction expects 0 arguments, but got 2"
    );
    assert_eq!(
        asm_err(&[".text", "f:", "mov %ax"]).message(),
        "`mov` instruction expects 2 arguments, but got 1"
    );
    assert_eq!(
        asm_err(&[".text", "f:", "add %ax, %bx, %cx"]).message(),
        "`add` instruction expects 1 or 2 arguments, but got 3"
    );
}

#[test]
fn duplicate_section_message_is_exact() {
    assert_eq!(asm_err(&[".data", ".data"]).message(), "Duplicate section '.data'");
    assert_eq!(
        asm_err(&[".text", "f: nop", ".text"]).message(),
        "Duplicate section '.text'"
    );
}

#[test]
fn no_overload_message_names_the_mnemonic() {
    assert_eq!(
        asm_err(&[".text", "f:", "mov #5, %ax"]).message(),
        "Could not find valid overload of `mov` instruction for supplied argument types"
    );
}

#[test]
fn report_shows_location_context_and_caret() {
    let src = lines(&[".text", "f:", "add %zz"]);
    let e = assemble_lines(&src).unwrap_err();
    assert_eq!((e.line, e.col_start, e.col_end), (2, 4, 7));
    let report = e.report("/tmp/prog.asm", &src);
    assert_eq!(
        report,
        vec![
            "[ERROR] Register name `zz` is invalid!".to_string(),
            "/tmp/prog.asm:3:5".to_string(),
            "  1: .text".to_string(),
            "  2: f:".to_string(),
            "  3: add %zz".to_string(),
            "         ^^^".to_string(),
            "         here".to_string(),
        ]
    );
}

#[test]
fn report_on_the_first_line_shows_one_context_line() {
    let src = lines(&["&"]);
    let e = assemble_lines(&src).unwrap_err();
    let report = e.report("a.asm", &src);
    assert_eq!(
        report,
        vec![
            "[ERROR] Unexpected value '&' at start of token".to_string(),
            "a.asm:1:1".to_string(),
            "  1: &".to_string(),
            "     ^".to_string(),
            "     here".to_string(),
        ]
    );
}

#[test]
fn report_on_the_second_line_shows_two_context_lines() {
    let src = lines(&["; intro", "  &"]);
    let e = assemble_lines(&src).unwrap_err();
    let report = e.report("b.asm", &src);
    assert_eq!(report.len(), 6);
    assert_eq!(report[1], "b.asm:2:3");
    assert_eq!(report[2], "  1: ; intro");
    assert_eq!(report[3], "  2:   &");
    assert_eq!(report[4], "       ^");
    assert_eq!(report[5], "       here");
}

#[test]
fn error_values_carry_kind_detail_and_span() {
    let e = asm_err(&[".text", "f:", "jsr start"]);
    assert_eq!(e.kind, ErrorKind::NotImplemented);
    assert_eq!(e.detail.as_deref(), Some("jsr"));
    // the span covers the whole instruction line
    assert_eq!(e.line, 2);
    assert_eq!((e.col_start, e.col_end), (0, 9));
}

#[test]
fn lexer_messages_are_exact() {
    assert_eq!(asm_err(&["%012"]).message(), "'%' Can only be used for binary literals!");
    assert_eq!(asm_err(&["$xyz"]).message(), "'$' Can only be used for hex literals!");
    assert_eq!(asm_err(&["\"abc"]).message(), "Expected closing '\"' for string literal");
    assert_eq!(
        asm_err(&["1a2"]).message(),
        "Unexpected non-numeric characters in decimal literal!"
    );
}

#[test]
fn report_pads_wide_line_numbers() {
    let mut v: Vec<String> = Vec::new();
    for _ in 0..104 {
        v.push(";".to_string());
    }
    v.push("&".to_string()); // line index 104, printed as 105
    let e = assemble_lines(&v).unwrap_err();
    assert_eq!(e.line, 104);
    let report = e.report("c.asm", &v);
    assert_eq!(report[1], "c.asm:105:1");
    assert_eq!(report[2], "103: ;");
    assert_eq!(report[3], "104: ;");
    assert_eq!(report[4], "105: &");
    assert_eq!(report[5], "     ^");
}

#[test]
fn two_digit_line_numbers_get_one_pad_space() {
    let mut v: Vec<String> = Vec::new();
    for _ in 0..9 {
        v.push(";".to_string());
    }
    v.push("&".to_string()); // line index 9, printed as 10
    let e = assemble_lines(&v).unwrap_err();
    let report = e.report("d.asm", &v);
    assert_eq!(report[2], "  8: ;");
    assert_eq!(report[3], "  9: ;");
    assert_eq!(report[4], " 10: &");
}
