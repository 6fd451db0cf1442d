use vmasm::lexer::{is_name, lex, CharKind, ExtProcRef, LexError, Opcode, Token};

fn invalid(text: &str) -> Result<Vec<Token>, LexError> {
    Err(LexError::InvalidToken(text.to_string()))
}

#[test]
fn empty_source_is_end_of_input() {
    assert_eq!(lex(""), Ok(vec![Token::EOF]));
    assert_eq!(lex("  \t "), Ok(vec![Token::EOF]));
}

#[test]
fn lexes_a_small_procedure() {
    let tokens = lex("proc a:\npush_u8 5\nhalt\nend proc").unwrap();
    assert_eq!(
        tokens,
        vec![
            Token::Proc,
            Token::Label("a".to_string()),
            Token::NewLine,
            Token::Opcode(Opcode::PushU8),
            Token::IntLiteral(5),
            Token::NewLine,
            Token::Opcode(Opcode::Halt),
            Token::NewLine,
            Token::End,
            Token::Proc,
            Token::EOF,
        ]
    );
}

#[test]
fn every_mnemonic_is_an_opcode() {
    let tokens =
        lex("jmp jmps jmp_true cmp_u8 spi spd push_u8 push_u64 pop_u8 set_u8 cpl_u8 cpg_u8 halt")
            .unwrap();
    assert_eq!(
        tokens,
        vec![
            Token::Opcode(Opcode::Jmp),
            Token::Opcode(Opcode::Jmps),
            Token::Opcode(Opcode::JmpTrue),
            Token::Opcode(Opcode::CmpU8),
            Token::Opcode(Opcode::Spi),
            Token::Opcode(Opcode::Spd),
            Token::Opcode(Opcode::PushU8),
            Token::Opcode(Opcode::PushU64),
            Token::Opcode(Opcode::PopU8),
            Token::Opcode(Opcode::SetU8),
            Token::Opcode(Opcode::CplU8),
            Token::Opcode(Opcode::CpgU8),
            Token::Opcode(Opcode::Halt),
            Token::EOF,
        ]
    );
}

#[test]
fn decimal_literals() {
    assert_eq!(lex("0"), Ok(vec![Token::IntLiteral(0), Token::EOF]));
    assert_eq!(lex("00012"), Ok(vec![Token::IntLiteral(12), Token::EOF]));
    assert_eq!(lex("+5"), Ok(vec![Token::IntLiteral(5), Token::EOF]));
    assert_eq!(
        lex("18446744073709551615"),
        Ok(vec![Token::IntLiteral(u64::MAX), Token::EOF])
    );
}

#[test]
fn decimal_literal_out_of_range_is_no_token() {
    assert_eq!(lex("18446744073709551616"), invalid("18446744073709551616"));
    assert_eq!(lex("99999999999999999999999"), invalid("99999999999999999999999"));
}

#[test]
fn malformed_numbers_are_no_tokens() {
    assert_eq!(lex("+"), invalid("+"));
    assert_eq!(lex("-1"), invalid("-1"));
    assert_eq!(lex("12a"), invalid("12a"));
    assert_eq!(lex("1_000"), invalid("1_000"));
    assert_eq!(lex("++1"), invalid("++1"));
}

#[test]
fn hexadecimal_literals() {
    assert_eq!(lex("0x1F"), Ok(vec![Token::IntLiteral(31), Token::EOF]));
    assert_eq!(lex("0xff"), Ok(vec![Token::IntLiteral(255), Token::EOF]));
    assert_eq!(lex("0x+a"), Ok(vec![Token::IntLiteral(10), Token::EOF]));
    assert_eq!(
        lex("0xFFFFFFFFFFFFFFFF"),
        Ok(vec![Token::IntLiteral(u64::MAX), Token::EOF])
    );
    assert_eq!(lex("0x0102030405060708"), Ok(vec![Token::IntLiteral(0x0102030405060708), Token::EOF]));
}

#[test]
fn malformed_hexadecimal_literals_are_no_tokens() {
    assert_eq!(lex("0x"), invalid("0x"));
    assert_eq!(lex("0X1F"), invalid("0X1F"));
    assert_eq!(lex("0x1G"), invalid("0x1G"));
    assert_eq!(lex("0x10000000000000000"), invalid("0x10000000000000000"));
}

#[test]
fn keywords() {
    assert_eq!(lex("proc end"), Ok(vec![Token::Proc, Token::End, Token::EOF]));
}

#[test]
fn labels() {
    assert_eq!(lex("a:"), Ok(vec![Token::Label("a".to_string()), Token::EOF]));
    assert_eq!(lex("loop2:"), Ok(vec![Token::Label("loop2".to_string()), Token::EOF]));
}

#[test]
fn label_needs_a_name_of_lowercase_and_numeric_characters() {
    assert_eq!(lex(":"), invalid(":"));
    assert_eq!(lex("A:"), invalid("A:"));
    assert_eq!(lex("aB:"), invalid("aB:"));
    assert_eq!(lex("2a:"), invalid("2a:"));
    assert_eq!(lex("a_b:"), invalid("a_b:"));
    assert_eq!(lex("a::"), invalid("a::"));
}

#[test]
fn names_may_hold_lowercase_letters_of_any_script() {
    assert_eq!(lex("é:"), Ok(vec![Token::Label("é".to_string()), Token::EOF]));
    assert_eq!(lex("&ßa"), Ok(vec![Token::LabelRef("ßa".to_string()), Token::EOF]));
    assert_eq!(lex("É:"), invalid("É:"));
}

#[test]
fn label_references() {
    assert_eq!(lex("&l"), Ok(vec![Token::LabelRef("l".to_string()), Token::EOF]));
    assert_eq!(lex("&loop1"), Ok(vec![Token::LabelRef("loop1".to_string()), Token::EOF]));
    assert_eq!(lex("&"), invalid("&"));
    assert_eq!(lex("&1a"), invalid("&1a"));
    assert_eq!(lex("&aB"), invalid("&aB"));
}

#[test]
fn procedure_references() {
    assert_eq!(lex("&this.foo"), Ok(vec![Token::ProcRef("foo".to_string()), Token::EOF]));
    assert_eq!(
        lex("&ext.foo"),
        Ok(vec![
            Token::ExtProcRef(ExtProcRef {
                module: "ext".to_string(),
                procedure: "foo".to_string()
            }),
            Token::EOF
        ])
    );
    assert_eq!(
        lex("&thi.s"),
        Ok(vec![
            Token::ExtProcRef(ExtProcRef { module: "thi".to_string(), procedure: "s".to_string() }),
            Token::EOF
        ])
    );
}

#[test]
fn malformed_procedure_references_are_no_tokens() {
    assert_eq!(lex("&ab."), invalid("&ab."));
    assert_eq!(lex("&.ab"), invalid("&.ab"));
    assert_eq!(lex("&a.b.c"), invalid("&a.b.c"));
    assert_eq!(lex("&this."), invalid("&this."));
    assert_eq!(lex("&A.b"), invalid("&A.b"));
    assert_eq!(lex("this.foo"), invalid("this.foo"));
}

#[test]
fn a_bare_name_is_no_token() {
    assert_eq!(lex("proc a\npush_u8 5\nhalt\nend proc\n"), invalid("a"));
    assert_eq!(lex("proc a\njmp &l\nl:\nhalt\nend proc\n"), invalid("a"));
}

#[test]
fn first_invalid_word_is_reported() {
    assert_eq!(lex("halt foo bar"), invalid("foo"));
}

#[test]
fn every_line_end_is_one_newline() {
    let one = vec![Token::Opcode(Opcode::Halt), Token::NewLine, Token::Opcode(Opcode::Halt), Token::EOF];
    assert_eq!(lex("halt\nhalt"), Ok(one.clone()));
    assert_eq!(lex("halt\r\nhalt"), Ok(one.clone()));
    assert_eq!(lex("halt\n\rhalt"), Ok(one.clone()));
    assert_eq!(lex("halt\rhalt"), Ok(one));
}

#[test]
fn line_ends_are_replaced_in_three_passes() {
    let two = vec![Token::NewLine, Token::NewLine, Token::EOF];
    let one = vec![Token::NewLine, Token::EOF];
    assert_eq!(lex("\n\n"), Ok(two.clone()));
    assert_eq!(lex("\r\r"), Ok(two.clone()));
    assert_eq!(lex("\r\n\r"), Ok(one));
    assert_eq!(lex("\n\r\n"), Ok(two.clone()));
    assert_eq!(lex("\r\n\r\n"), Ok(two));
}

#[test]
fn blanks_separate_words() {
    assert_eq!(
        lex(" \tpush_u8\t \t7  \n"),
        Ok(vec![Token::Opcode(Opcode::PushU8), Token::IntLiteral(7), Token::NewLine, Token::EOF])
    );
}

#[test]
fn other_white_space_is_part_of_a_word() {
    assert_eq!(lex("halt\u{b}halt"), invalid("halt\u{b}halt"));
}

#[test]
fn a_name_starts_lowercase_and_goes_on_lowercase_or_numeric() {
    let lower = CharKind { lowercase: true, numeric: false };
    let digit = CharKind { lowercase: false, numeric: true };
    let other = CharKind { lowercase: false, numeric: false };
    assert!(is_name(&[lower]));
    assert!(is_name(&[lower, digit, lower, digit]));
    assert!(!is_name(&[]));
    assert!(!is_name(&[digit]));
    assert!(!is_name(&[digit, lower]));
    assert!(!is_name(&[other]));
    assert!(!is_name(&[lower, other]));
    assert!(!is_name(&[lower, digit, other, lower]));
}
