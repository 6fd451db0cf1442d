use vmasm::lexer::{
    text_to_end, text_to_extprocref, text_to_intliteraldec, text_to_intliteralhex, text_to_label,
    text_to_labelref, text_to_newline, text_to_opcode, text_to_proc, text_to_procref,
    text_to_token, ExtProcRef, Opcode, Token,
};

fn chars(s: &str) -> Vec<char> {
    s.chars().collect()
}

fn external(module: &str, procedure: &str) -> Option<Token> {
    Some(Token::ExtProcRef(ExtProcRef {
        module: module.to_string(),
        procedure: procedure.to_string(),
    }))
}

#[test]
fn an_external_reference_names_a_module_other_than_this() {
    assert_eq!(text_to_extprocref(&chars("&this.foo")), None);
    assert_eq!(text_to_extprocref(&chars("&this.a1")), None);
    assert_eq!(text_to_extprocref(&chars("&ext.foo")), external("ext", "foo"));
    assert_eq!(text_to_extprocref(&chars("&thi.s")), external("thi", "s"));
    assert_eq!(text_to_extprocref(&chars("&thiss.foo")), external("thiss", "foo"));
    assert_eq!(text_to_extprocref(&chars("&m2.p3")), external("m2", "p3"));
}

#[test]
fn an_external_reference_needs_two_names_and_one_dot() {
    assert_eq!(text_to_extprocref(&chars("")), None);
    assert_eq!(text_to_extprocref(&chars("&")), None);
    assert_eq!(text_to_extprocref(&chars("&ext")), None);
    assert_eq!(text_to_extprocref(&chars("&ext.")), None);
    assert_eq!(text_to_extprocref(&chars("&.foo")), None);
    assert_eq!(text_to_extprocref(&chars("ext.foo")), None);
    assert_eq!(text_to_extprocref(&chars("&ext.foo.bar")), None);
    assert_eq!(text_to_extprocref(&chars("&Ext.foo")), None);
    assert_eq!(text_to_extprocref(&chars("&ext.Foo")), None);
    assert_eq!(text_to_extprocref(&chars("&1ext.foo")), None);
    assert_eq!(text_to_extprocref(&chars("&ext.1foo")), None);
}

#[test]
fn a_local_reference_names_the_module_this() {
    assert_eq!(text_to_procref(&chars("&this.foo")), Some(Token::ProcRef("foo".to_string())));
    assert_eq!(text_to_procref(&chars("&this.a1")), Some(Token::ProcRef("a1".to_string())));
    assert_eq!(text_to_procref(&chars("&ext.foo")), None);
    assert_eq!(text_to_procref(&chars("&thiss.foo")), None);
    assert_eq!(text_to_procref(&chars("&this.")), None);
    assert_eq!(text_to_procref(&chars("&this.Foo")), None);
    assert_eq!(text_to_procref(&chars("this.foo")), None);
}

#[test]
fn every_reference_with_a_dot_is_local_or_external_and_not_both() {
    for text in ["&this.foo", "&ext.foo", "&thi.s", "&a.b"] {
        let local = text_to_procref(&chars(text));
        let other = text_to_extprocref(&chars(text));
        assert!(local.is_some() != other.is_some());
    }
}

#[test]
fn a_label_reference_has_no_dot() {
    assert_eq!(text_to_labelref(&chars("&l")), Some(Token::LabelRef("l".to_string())));
    assert_eq!(text_to_labelref(&chars("&l2")), Some(Token::LabelRef("l2".to_string())));
    assert_eq!(text_to_labelref(&chars("&")), None);
    assert_eq!(text_to_labelref(&chars("l")), None);
    assert_eq!(text_to_labelref(&chars("&this.foo")), None);
    assert_eq!(text_to_labelref(&chars("&ab.")), None);
    assert_eq!(text_to_labelref(&chars("&2l")), None);
}

#[test]
fn a_label_is_a_name_and_a_colon() {
    assert_eq!(text_to_label(&chars("a:")), Some(Token::Label("a".to_string())));
    assert_eq!(text_to_label(&chars("ab1:")), Some(Token::Label("ab1".to_string())));
    assert_eq!(text_to_label(&chars("a")), None);
    assert_eq!(text_to_label(&chars(":")), None);
    assert_eq!(text_to_label(&chars("")), None);
    assert_eq!(text_to_label(&chars("aB:")), None);
    assert_eq!(text_to_label(&chars("a:b")), None);
}

#[test]
fn numbers_by_themselves() {
    assert_eq!(text_to_intliteraldec(&chars("42")), Some(Token::IntLiteral(42)));
    assert_eq!(text_to_intliteraldec(&chars("0x2a")), None);
    assert_eq!(text_to_intliteraldec(&chars("")), None);
    assert_eq!(text_to_intliteralhex(&chars("0x2a")), Some(Token::IntLiteral(42)));
    assert_eq!(text_to_intliteralhex(&chars("2a")), None);
    assert_eq!(text_to_intliteralhex(&chars("42")), None);
    assert_eq!(text_to_intliteralhex(&chars("0x")), None);
    assert_eq!(text_to_intliteralhex(&chars("0")), None);
}

#[test]
fn keywords_newline_and_mnemonics_by_themselves() {
    assert_eq!(text_to_proc(&chars("proc")), Some(Token::Proc));
    assert_eq!(text_to_proc(&chars("end")), None);
    assert_eq!(text_to_proc(&chars("procs")), None);
    assert_eq!(text_to_end(&chars("end")), Some(Token::End));
    assert_eq!(text_to_end(&chars("proc")), None);
    assert_eq!(text_to_end(&chars("en")), None);
    assert_eq!(text_to_newline(&chars("\n")), Some(Token::NewLine));
    assert_eq!(text_to_newline(&chars("\n\n")), None);
    assert_eq!(text_to_newline(&chars(" ")), None);
    assert_eq!(text_to_opcode(&chars("jmp")), Some(Token::Opcode(Opcode::Jmp)));
    assert_eq!(text_to_opcode(&chars("cmp_u8")), Some(Token::Opcode(Opcode::CmpU8)));
    assert_eq!(text_to_opcode(&chars("halt")), Some(Token::Opcode(Opcode::Halt)));
    assert_eq!(text_to_opcode(&chars("JMP")), None);
    assert_eq!(text_to_opcode(&chars("jump")), None);
    assert_eq!(text_to_opcode(&chars("proc")), None);
}

#[test]
fn a_word_is_the_first_kind_that_it_fits() {
    assert_eq!(text_to_token(&chars("7")), Some(Token::IntLiteral(7)));
    assert_eq!(text_to_token(&chars("0x7")), Some(Token::IntLiteral(7)));
    assert_eq!(text_to_token(&chars("proc")), Some(Token::Proc));
    assert_eq!(text_to_token(&chars("spi")), Some(Token::Opcode(Opcode::Spi)));
    assert_eq!(text_to_token(&chars("\n")), Some(Token::NewLine));
    assert_eq!(text_to_token(&chars("proc:")), Some(Token::Label("proc".to_string())));
    assert_eq!(text_to_token(&chars("&end")), Some(Token::LabelRef("end".to_string())));
    assert_eq!(text_to_token(&chars("&this.foo")), Some(Token::ProcRef("foo".to_string())));
    assert_eq!(text_to_token(&chars("&ext.foo")), external("ext", "foo"));
    assert_eq!(text_to_token(&chars("end")), Some(Token::End));
    assert_eq!(text_to_token(&chars("foo")), None);
    assert_eq!(text_to_token(&chars("")), None);
}
