use vmasm::ast::{
    Address, CpgU8, CplU8, ExtProcRef, Jmp, JmpTrue, Operation, Procedure, PushU64, PushU8,
    SetU8, Spd, Spi, Tree,
};
use vmasm::lexer::{lex, Opcode, Token};
use vmasm::parser::{parse, ParseError};

fn parse_text(source: &str) -> Result<Tree, ParseError> {
    parse(&lex(source).unwrap())
}

fn single(name: &str, labels: Vec<(String, usize)>, operations: Vec<Operation>) -> Tree {
    Tree { procedures: vec![(name.to_string(), Procedure { labels, operations })] }
}

#[test]
fn end_of_input_alone_is_the_empty_program() {
    assert_eq!(parse(&vec![Token::EOF]), Ok(Tree { procedures: vec![] }));
}

#[test]
fn tokens_without_end_of_input_are_a_syntax_error() {
    assert_eq!(parse(&vec![]), Err(ParseError::SyntaxError));
    assert_eq!(parse(&vec![Token::Proc]), Err(ParseError::SyntaxError));
    assert_eq!(
        parse(&vec![Token::Opcode(Opcode::Halt), Token::NewLine]),
        Err(ParseError::SyntaxError)
    );
}

#[test]
fn what_follows_end_of_input_is_not_read() {
    assert_eq!(
        parse(&vec![Token::EOF, Token::Opcode(Opcode::Halt)]),
        Ok(Tree { procedures: vec![] })
    );
}

#[test]
fn parses_a_small_procedure() {
    assert_eq!(
        parse_text("proc a:\npush_u8 5\nhalt\nend proc"),
        Ok(single(
            "a",
            vec![],
            vec![Operation::PushU8(PushU8 { value: 5 }), Operation::Halt]
        ))
    );
}

#[test]
fn a_label_records_the_number_of_operations_before_it() {
    assert_eq!(
        parse_text("proc a: start:\nhalt\nmid: again:\nhalt\nhalt\nlast:\nend proc"),
        Ok(single(
            "a",
            vec![
                ("start".to_string(), 0),
                ("mid".to_string(), 1),
                ("again".to_string(), 1),
                ("last".to_string(), 3)
            ],
            vec![Operation::Halt, Operation::Halt, Operation::Halt]
        ))
    );
}

#[test]
fn every_instruction_with_its_operand() {
    let tree = parse_text(
        "proc a: cmp_u8 halt jmps pop_u8 jmp 1 jmp_true &l push_u64 &this.b set_u8 &m.p cpg_u8 0x10 cpl_u8 7 push_u8 255 spi 8 spd 9 end proc",
    )
    .unwrap();
    assert_eq!(
        tree.procedures[0].1.operations,
        vec![
            Operation::CmpU8,
            Operation::Halt,
            Operation::Jmps,
            Operation::PopU8,
            Operation::Jmp(Jmp { address: Address::IntLiteral(1) }),
            Operation::JmpTrue(JmpTrue { address: Address::Label("l".to_string()) }),
            Operation::PushU64(PushU64 { address: Address::ProcRef("b".to_string()) }),
            Operation::SetU8(SetU8 {
                address: Address::ExtProcRef(ExtProcRef {
                    module: "m".to_string(),
                    procedure: "p".to_string()
                })
            }),
            Operation::CpgU8(CpgU8 { address: Address::IntLiteral(16) }),
            Operation::CplU8(CplU8 { address: Address::IntLiteral(7) }),
            Operation::PushU8(PushU8 { value: 255 }),
            Operation::Spi(Spi { value: 8 }),
            Operation::Spd(Spd { value: 9 }),
        ]
    );
}

#[test]
fn push_u8_keeps_the_low_eight_bits() {
    let tree = parse_text("proc a: push_u8 300 push_u8 256 push_u8 0xffffffffffffff07 end proc")
        .unwrap();
    assert_eq!(
        tree.procedures[0].1.operations,
        vec![
            Operation::PushU8(PushU8 { value: 44 }),
            Operation::PushU8(PushU8 { value: 0 }),
            Operation::PushU8(PushU8 { value: 7 }),
        ]
    );
}

#[test]
fn cpl_u8_takes_any_address_when_parsed() {
    assert_eq!(
        parse_text("proc a: cpl_u8 &l end proc"),
        Ok(single(
            "a",
            vec![],
            vec![Operation::CplU8(CplU8 { address: Address::Label("l".to_string()) })]
        ))
    );
}

#[test]
fn literal_only_instructions_refuse_references() {
    assert_eq!(parse_text("proc a: push_u8 &l end proc"), Err(ParseError::UnknownProcedure));
    assert_eq!(parse_text("proc a: spi &l end proc"), Err(ParseError::UnknownProcedure));
    assert_eq!(parse_text("proc a: spd &this.b end proc"), Err(ParseError::UnknownProcedure));
}

#[test]
fn a_missing_operand_is_refused() {
    assert_eq!(parse_text("proc a: jmp\nhalt end proc"), Err(ParseError::UnknownProcedure));
    assert_eq!(parse_text("proc a: jmp"), Err(ParseError::UnknownProcedure));
    assert_eq!(parse_text("proc a: push_u8 end proc"), Err(ParseError::UnknownProcedure));
}

#[test]
fn several_procedures() {
    let tree = parse_text("proc a: halt end proc\n\nproc b: jmps end proc").unwrap();
    assert_eq!(
        tree,
        Tree {
            procedures: vec![
                ("a".to_string(), Procedure { labels: vec![], operations: vec![Operation::Halt] }),
                ("b".to_string(), Procedure { labels: vec![], operations: vec![Operation::Jmps] }),
            ]
        }
    );
}

#[test]
fn newlines_before_a_procedure_are_passed_over() {
    assert_eq!(
        parse_text("\n\n\nproc a: halt end proc"),
        Ok(single("a", vec![], vec![Operation::Halt]))
    );
}

#[test]
fn a_newline_behind_the_last_procedure_is_refused() {
    assert_eq!(parse_text("proc a:\nhalt\nend proc\n"), Err(ParseError::UnknownProcedure));
}

#[test]
fn a_procedure_without_rules_closes_at_once() {
    assert_eq!(parse_text("proc a: end proc"), Ok(single("a", vec![], vec![])));
    assert_eq!(parse_text("proc a:\nend proc"), Err(ParseError::UnknownProcedure));
}

#[test]
fn malformed_procedures_are_refused() {
    assert_eq!(parse_text("halt"), Err(ParseError::UnknownProcedure));
    assert_eq!(parse_text("proc halt end proc"), Err(ParseError::UnknownProcedure));
    assert_eq!(parse_text("proc a:\nhalt"), Err(ParseError::UnknownProcedure));
    assert_eq!(parse_text("proc a:\nhalt\nend"), Err(ParseError::UnknownProcedure));
    assert_eq!(parse_text("proc a:\nhalt\nend\nproc"), Err(ParseError::UnknownProcedure));
    assert_eq!(parse_text("proc\na:\nhalt\nend proc"), Err(ParseError::UnknownProcedure));
    assert_eq!(parse_text("proc a: 5 end proc"), Err(ParseError::UnknownProcedure));
    assert_eq!(parse_text("proc a: halt end proc proc"), Err(ParseError::UnknownProcedure));
}
