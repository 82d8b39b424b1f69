use spasm::diag::ErrorKind;
use spasm::token::{str_is_alphanumeric, str_is_binary, str_is_hex, str_is_numeric, tokenize_lines, Token, TokenType};

fn lines(v: &[&str]) -> Vec<String> {
    v.iter().map(|s| s.to_string()).collect()
}

fn lex(v: &[&str]) -> Vec<Token> {
    tokenize_lines(&lines(v)).unwrap()
}

fn lex_err(v: &[&str]) -> spasm::diag::AsmError {
    tokenize_lines(&lines(v)).unwrap_err()
}

#[test]
fn classifies_the_mov_immediate_line_exactly() {
    let toks = lex(&["mov %eax, #$00FF"]);
    assert_eq!(toks.len(), 5);
    assert_eq!(toks[0].token_type, TokenType::Instruction("mov".to_string()));
    assert_eq!(toks[1].token_type, TokenType::Register("eax".to_string()));
    assert_eq!(toks[2].token_type, TokenType::Comma);
    assert_eq!(toks[3].token_type, TokenType::Immediate);
    assert_eq!(toks[4].token_type, TokenType::Hex("00FF".to_string()));
}

#[test]
fn records_spans_and_raw_text() {
    let toks = lex(&["mov %eax, #$00FF"]);
    assert_eq!((toks[0].column_start, toks[0].column_end, toks[0].value.as_str()), (0, 3, "mov"));
    assert_eq!((toks[1].column_start, toks[1].column_end, toks[1].value.as_str()), (4, 8, "%eax"));
    assert_eq!((toks[2].column_start, toks[2].column_end, toks[2].value.as_str()), (8, 9, ","));
    assert_eq!((toks[3].column_start, toks[3].column_end, toks[3].value.as_str()), (10, 11, "#"));
    assert_eq!((toks[4].column_start, toks[4].column_end, toks[4].value.as_str()), (11, 16, "$00FF"));
    assert!(toks.iter().all(|t| t.line_number == 0));
}

#[test]
fn first_bare_word_is_instruction_later_ones_identifiers() {
    let toks = lex(&["mov foo bar"]);
    assert_eq!(toks[0].token_type, TokenType::Instruction("mov".to_string()));
    assert_eq!(toks[1].token_type, TokenType::Identifier("foo".to_string()));
    assert_eq!(toks[2].token_type, TokenType::Identifier("bar".to_string()));
}

#[test]
fn label_does_not_take_the_instruction_slot() {
    let toks = lex(&["loop1: mov count"]);
    assert_eq!(toks[0].token_type, TokenType::Label("loop1".to_string()));
    assert_eq!(toks[1].token_type, TokenType::Instruction("mov".to_string()));
    assert_eq!(toks[2].token_type, TokenType::Identifier("count".to_string()));
}

#[test]
fn directive_takes_the_instruction_slot() {
    let toks = lex(&[".word count"]);
    assert_eq!(toks[0].token_type, TokenType::Directive("word".to_string()));
    assert_eq!(toks[1].token_type, TokenType::Identifier("count".to_string()));
}

#[test]
fn classification_is_per_line() {
    let toks = lex(&["mov foo", "add bar"]);
    assert_eq!(toks[0].token_type, TokenType::Instruction("mov".to_string()));
    assert_eq!(toks[1].token_type, TokenType::Identifier("foo".to_string()));
    assert_eq!(toks[2].token_type, TokenType::Instruction("add".to_string()));
    assert_eq!(toks[2].line_number, 1);
    assert_eq!(toks[3].token_type, TokenType::Identifier("bar".to_string()));
}

#[test]
fn empty_lines_and_comments_yield_no_tokens() {
    assert!(lex(&[""]).is_empty());
    assert!(lex(&["   "]).is_empty());
    assert!(lex(&["; a comment"]).is_empty());
    let toks = lex(&["nop ; trailing comment"]);
    assert_eq!(toks.len(), 1);
    assert_eq!(toks[0].token_type, TokenType::Instruction("nop".to_string()));
}

#[test]
fn string_literal_keeps_inner_spaces() {
    let toks = lex(&["\"hello world\""]);
    assert_eq!(toks.len(), 1);
    assert_eq!(toks[0].token_type, TokenType::AsciiString("hello world".to_string()));
    assert_eq!(toks[0].value, "\"hello world\"");
    assert_eq!((toks[0].column_start, toks[0].column_end), (0, 13));
}

#[test]
fn empty_string_literal_is_accepted() {
    let toks = lex(&["\"\""]);
    assert_eq!(toks[0].token_type, TokenType::AsciiString("".to_string()));
}

#[test]
fn brackets_and_parens_are_single_tokens() {
    let toks = lex(&["add [x] (5)"]);
    let kinds: Vec<&TokenType> = toks.iter().map(|t| &t.token_type).collect();
    assert!(matches!(kinds[1], TokenType::OpenBracket));
    assert!(matches!(kinds[2], TokenType::Identifier(n) if n == "x"));
    assert!(matches!(kinds[3], TokenType::CloseBracket));
    assert!(matches!(kinds[4], TokenType::OpenParenthesis));
    assert!(matches!(kinds[5], TokenType::Decimal(n) if n == "5"));
    assert!(matches!(kinds[6], TokenType::CloseParenthesis));
}

#[test]
fn percent_digits_make_a_binary_token() {
    let toks = lex(&["%0110"]);
    assert_eq!(toks[0].token_type, TokenType::Binary("0110".to_string()));
    assert_eq!(toks[0].value, "%0110");
}

#[test]
fn percent_letters_make_a_register_token() {
    let toks = lex(&["%e1x"]);
    assert_eq!(toks[0].token_type, TokenType::Register("e1x".to_string()));
}

#[test]
fn decimal_token_keeps_all_digits() {
    let toks = lex(&["12345"]);
    assert_eq!(toks[0].token_type, TokenType::Decimal("12345".to_string()));
    assert_eq!(toks[0].value, "12345");
}

#[test]
fn unterminated_directive_is_rejected() {
    assert_eq!(lex_err(&["."]).kind, ErrorKind::EndOfDirectiveToken);
    assert_eq!(lex_err(&[". foo"]).kind, ErrorKind::EndOfDirectiveToken);
}

#[test]
fn directive_name_must_be_alphanumeric() {
    assert_eq!(lex_err(&[".da-ta"]).kind, ErrorKind::DirectiveNotAlphanumeric);
}

#[test]
fn label_name_must_be_alphanumeric() {
    assert_eq!(lex_err(&["a-b:"]).kind, ErrorKind::LabelNotAlphanumeric);
}

#[test]
fn instruction_name_must_be_alphanumeric() {
    assert_eq!(lex_err(&["a-b"]).kind, ErrorKind::InstructionNotAlphanumeric);
}

#[test]
fn identifier_name_must_be_alphanumeric() {
    assert_eq!(lex_err(&["mov a-b"]).kind, ErrorKind::IdentifierNotAlphanumeric);
}

#[test]
fn unterminated_string_is_rejected() {
    assert_eq!(lex_err(&["\"abc"]).kind, ErrorKind::UnterminatedString);
}

#[test]
fn bare_percent_is_rejected() {
    assert_eq!(lex_err(&["%"]).kind, ErrorKind::EndOfToken);
    assert_eq!(lex_err(&["%,"]).kind, ErrorKind::EndOfToken);
}

#[test]
fn percent_with_nonbinary_digits_is_rejected() {
    assert_eq!(lex_err(&["%012"]).kind, ErrorKind::BinaryLiteralInvalid);
}

#[test]
fn register_name_must_be_alphanumeric() {
    assert_eq!(lex_err(&["%a-b"]).kind, ErrorKind::RegisterNotAlphanumeric);
}

#[test]
fn bare_dollar_is_rejected() {
    assert_eq!(lex_err(&["$"]).kind, ErrorKind::EndOfHexToken);
}

#[test]
fn hex_must_be_alphanumeric() {
    assert_eq!(lex_err(&["$a-b"]).kind, ErrorKind::HexNotAlphanumeric);
}

#[test]
fn hex_must_hold_hex_digits() {
    assert_eq!(lex_err(&["$xyz"]).kind, ErrorKind::HexLiteralInvalid);
}

#[test]
fn decimal_must_hold_only_digits() {
    assert_eq!(lex_err(&["1a2"]).kind, ErrorKind::DecimalLiteralInvalid);
}

#[test]
fn unknown_leading_character_is_rejected() {
    let e = lex_err(&["&"]);
    assert_eq!(e.kind, ErrorKind::UnexpectedTokenStart);
    assert_eq!(e.detail.as_deref(), Some("&"));
}

#[test]
fn lexical_error_carries_its_span() {
    let e = lex_err(&["nop", "  &"]);
    assert_eq!(e.line, 1);
    assert_eq!((e.col_start, e.col_end), (2, 3));
}

#[test]
fn parse_u16_recovers_decimal_values() {
    let t = Token {
        line_number: 0,
        column_start: 0,
        column_end: 5,
        value: "65535".to_string(),
        token_type: TokenType::Decimal("65535".to_string()),
    };
    assert_eq!(t.parse_u16().unwrap(), 65535);
}

#[test]
fn parse_u16_recovers_binary_values() {
    let t = Token {
        line_number: 0,
        column_start: 0,
        column_end: 5,
        value: "%0110".to_string(),
        token_type: TokenType::Binary("0110".to_string()),
    };
    assert_eq!(t.parse_u16().unwrap(), 6);
}

#[test]
fn parse_u16_recovers_hex_values() {
    let t = Token {
        line_number: 0,
        column_start: 0,
        column_end: 5,
        value: "$00FF".to_string(),
        token_type: TokenType::Hex("00FF".to_string()),
    };
    assert_eq!(t.parse_u16().unwrap(), 255);
    let m = Token {
        line_number: 0,
        column_start: 0,
        column_end: 5,
        value: "$FfFf".to_string(),
        token_type: TokenType::Hex("FfFf".to_string()),
    };
    assert_eq!(m.parse_u16().unwrap(), 65535);
}

#[test]
fn parse_u16_rejects_decimal_overflow() {
    let t = Token {
        line_number: 3,
        column_start: 1,
        column_end: 6,
        value: "65536".to_string(),
        token_type: TokenType::Decimal("65536".to_string()),
    };
    let e = t.parse_u16().unwrap_err();
    assert_eq!(e.kind, ErrorKind::DecimalOverflow);
    assert_eq!((e.line, e.col_start, e.col_end), (3, 1, 6));
}

#[test]
fn parse_u16_rejects_binary_overflow() {
    let t = Token {
        line_number: 0,
        column_start: 0,
        column_end: 18,
        value: "%11111111111111111".to_string(),
        token_type: TokenType::Binary("11111111111111111".to_string()),
    };
    assert_eq!(t.parse_u16().unwrap_err().kind, ErrorKind::BinaryOverflow);
}

#[test]
fn parse_u16_rejects_hex_overflow() {
    let t = Token {
        line_number: 0,
        column_start: 0,
        column_end: 6,
        value: "$10000".to_string(),
        token_type: TokenType::Hex("10000".to_string()),
    };
    assert_eq!(t.parse_u16().unwrap_err().kind, ErrorKind::HexOverflow);
}

#[test]
fn character_classes_match_their_definitions() {
    assert!(str_is_alphanumeric("abz_AZ09"));
    assert!(str_is_alphanumeric(""));
    assert!(!str_is_alphanumeric("a-b"));
    assert!(str_is_numeric("0123456789"));
    assert!(!str_is_numeric("12a"));
    assert!(str_is_binary("0101"));
    assert!(!str_is_binary("012"));
    assert!(str_is_hex("09afAF"));
    assert!(!str_is_hex("g"));
}

#[test]
fn tokenizing_twice_gives_equal_streams() {
    let src = lines(&[".data", "hello: .ascii \"hi\"", ".text", "main: nop"]);
    let a = tokenize_lines(&src).unwrap();
    let b = tokenize_lines(&src).unwrap();
    assert_eq!(a, b);
}

#[test]
fn comment_delimits_a_label() {
    let toks = lex(&["foo:;rest is comment"]);
    assert_eq!(toks.len(), 1);
    assert_eq!(toks[0].token_type, TokenType::Label("foo".to_string()));
}

#[test]
fn structural_delimiters_end_word_scans_without_spaces() {
    let toks = lex(&["mov(x)"]);
    assert_eq!(toks[0].token_type, TokenType::Instruction("mov".to_string()));
    assert!(matches!(toks[1].token_type, TokenType::OpenParenthesis));
    assert_eq!(toks[2].token_type, TokenType::Identifier("x".to_string()));
    assert!(matches!(toks[3].token_type, TokenType::CloseParenthesis));
}
