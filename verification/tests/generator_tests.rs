use vmasm::assembler::{assemble, AssembleError};
use vmasm::ast::{
    Address, CpgU8, CplU8, ExtProcRef, Jmp, JmpTrue, Operation, Procedure, PushU64, PushU8,
    SetU8, Spd, Spi, Tree,
};
use vmasm::format_vmw::{ExternalProcedure, VMW};
use vmasm::generator::{generate, generate_operation, GenerateError};
use vmasm::lexer::{lex, LexError};
use vmasm::parser::{parse, ParseError};
use vmasm::vm::OpcodeValues;

fn build(source: &str) -> Result<VMW, GenerateError> {
    generate(&parse(&lex(source).unwrap()).unwrap())
}

fn be64(value: u64) -> Vec<u8> {
    value.to_be_bytes().to_vec()
}

fn code(parts: &[&[u8]]) -> Vec<u8> {
    parts.concat()
}

#[test]
fn opcode_numbers() {
    assert_eq!(OpcodeValues::Jmp.value(), 0);
    assert_eq!(OpcodeValues::Jmps.value(), 1);
    assert_eq!(OpcodeValues::JmpTrue.value(), 2);
    assert_eq!(OpcodeValues::CmpU8.value(), 3);
    assert_eq!(OpcodeValues::Spi.value(), 4);
    assert_eq!(OpcodeValues::Spd.value(), 5);
    assert_eq!(OpcodeValues::PushU8.value(), 6);
    assert_eq!(OpcodeValues::PushU64.value(), 7);
    assert_eq!(OpcodeValues::PopU8.value(), 8);
    assert_eq!(OpcodeValues::SetU8.value(), 9);
    assert_eq!(OpcodeValues::CplU8.value(), 10);
    assert_eq!(OpcodeValues::CpgU8.value(), 11);
    assert_eq!(OpcodeValues::Halt.value(), 12);
}

#[test]
fn push_and_halt() {
    let module = build("proc a:\npush_u8 5\nhalt\nend proc").unwrap();
    assert_eq!(module.bin(), &vec![0u8, 6, 5, 0, 12]);
    assert_eq!(module.procedures(), &vec![("a".to_string(), 0u64)]);
    assert!(module.local_addresses().is_empty());
    assert!(module.external_procedures().is_empty());
}

#[test]
fn push_and_halt_from_a_tree() {
    let tree = Tree {
        procedures: vec![(
            "a".to_string(),
            Procedure {
                labels: vec![],
                operations: vec![Operation::PushU8(PushU8 { value: 5 }), Operation::Halt],
            },
        )],
    };
    let module = generate(&tree).unwrap();
    assert_eq!(module.bin(), &vec![0u8, 6, 5, 0, 12]);
    assert_eq!(module.procedures(), &vec![("a".to_string(), 0u64)]);
    assert!(module.local_addresses().is_empty());
    assert!(module.external_procedures().is_empty());
}

#[test]
fn jump_to_a_label_declared_later() {
    let module = build("proc a:\njmp &l\nl:\nhalt\nend proc").unwrap();
    assert_eq!(module.bin(), &code(&[&[0, 0], &be64(10), &[0, 12]]));
    assert_eq!(module.local_addresses(), &vec![2u64]);
    assert_eq!(module.procedures(), &vec![("a".to_string(), 0u64)]);
}

#[test]
fn jump_to_a_label_declared_earlier() {
    let module = build("proc a:\nhalt\nl:\nhalt\njmp &l\nend proc").unwrap();
    assert_eq!(module.bin(), &code(&[&[0, 12], &[0, 12], &[0, 0], &be64(2)]));
    assert_eq!(module.local_addresses(), &vec![6u64]);
}

#[test]
fn a_label_resolves_alike_before_and_behind_its_reference() {
    let module = build("proc a:\njmp &l\nhalt\nl:\nhalt\njmp &l\nend proc").unwrap();
    let bin = module.bin();
    assert_eq!(&bin[2..10], &be64(12)[..]);
    assert_eq!(&bin[16..24], &be64(12)[..]);
    assert_eq!(module.local_addresses(), &vec![2u64, 16]);
}

#[test]
fn label_offsets_count_from_the_start_of_the_module() {
    let module =
        build("proc a:\nhalt\nend proc\nproc b:\nhalt\nl:\njmp &l\nend proc").unwrap();
    assert_eq!(module.bin(), &code(&[&[0, 12], &[0, 12], &[0, 0], &be64(4)]));
    assert_eq!(
        module.procedures(),
        &vec![("a".to_string(), 0u64), ("b".to_string(), 2)]
    );
    assert_eq!(module.local_addresses(), &vec![6u64]);
}

#[test]
fn a_label_at_the_end_stands_for_the_end_of_the_procedure() {
    let module = build("proc a:\njmp &done\nhalt\ndone: end proc").unwrap();
    assert_eq!(module.bin(), &code(&[&[0, 0], &be64(12), &[0, 12]]));
}

#[test]
fn two_labels_before_one_operation_share_its_offset() {
    let module = build("proc a:\nhalt\nx: y:\nhalt\njmp &x\njmp &y\nend proc").unwrap();
    assert_eq!(
        module.bin(),
        &code(&[&[0, 12], &[0, 12], &[0, 0], &be64(2), &[0, 0], &be64(2)])
    );
}

#[test]
fn the_same_label_name_in_two_procedures() {
    let module =
        build("proc a:\nl:\njmp &l\nend proc\nproc b:\nhalt\nl:\njmp &l\nend proc").unwrap();
    assert_eq!(
        module.bin(),
        &code(&[&[0, 0], &be64(0), &[0, 12], &[0, 0], &be64(12)])
    );
    assert_eq!(module.local_addresses(), &vec![2u64, 14]);
}

#[test]
fn call_of_a_procedure_declared_later() {
    let module =
        build("proc a:\njmp &this.b\nend proc\nproc b:\nhalt\nend proc").unwrap();
    assert_eq!(module.bin(), &code(&[&[0, 0], &be64(10), &[0, 12]]));
    assert_eq!(
        module.procedures(),
        &vec![("a".to_string(), 0u64), ("b".to_string(), 10)]
    );
    assert_eq!(module.local_addresses(), &vec![2u64]);
}

#[test]
fn call_of_a_procedure_declared_earlier_and_of_itself() {
    let module = build(
        "proc a:\nhalt\nend proc\nproc b:\npush_u64 &this.a\npush_u64 &this.b\nend proc",
    )
    .unwrap();
    assert_eq!(
        module.bin(),
        &code(&[&[0, 12], &[0, 7], &be64(0), &[0, 7], &be64(2)])
    );
    assert_eq!(module.local_addresses(), &vec![4u64, 14]);
}

#[test]
fn label_relocations_come_before_procedure_relocations() {
    let module = build(
        "proc a:\njmp &this.b\nl:\njmp &l\nend proc\nproc b:\nm:\njmp &m\njmp &this.a\nend proc",
    )
    .unwrap();
    assert_eq!(
        module.bin(),
        &code(&[
            &[0, 0],
            &be64(20),
            &[0, 0],
            &be64(10),
            &[0, 0],
            &be64(20),
            &[0, 0],
            &be64(0)
        ])
    );
    assert_eq!(module.local_addresses(), &vec![12u64, 22, 2, 32]);
}

#[test]
fn external_reference_is_left_for_a_loader() {
    let module = build("proc a:\njmp &ext.foo\nhalt\nend proc").unwrap();
    assert_eq!(module.bin(), &code(&[&[0, 0], &be64(0), &[0, 12]]));
    assert_eq!(
        module.external_procedures(),
        &vec![(
            ExternalProcedure { module: "ext".to_string(), procedure: "foo".to_string() },
            2u64
        )]
    );
    assert!(module.local_addresses().is_empty());
}

#[test]
fn external_references_in_program_order() {
    let module = build(
        "proc a:\nhalt\ncpg_u8 &m.p\nend proc\nproc b:\nset_u8 &n.q\nend proc",
    )
    .unwrap();
    assert_eq!(
        module.external_procedures(),
        &vec![
            (ExternalProcedure { module: "m".to_string(), procedure: "p".to_string() }, 4u64),
            (ExternalProcedure { module: "n".to_string(), procedure: "q".to_string() }, 14u64),
        ]
    );
}

#[test]
fn every_operation_is_encoded() {
    let module = build(
        "proc a: jmp 1 jmps jmp_true 2 cmp_u8 spi 3 spd 4 push_u8 5 push_u64 0x0102030405060708 pop_u8 set_u8 6 cpl_u8 7 cpg_u8 8 halt end proc",
    )
    .unwrap();
    assert_eq!(
        module.bin(),
        &code(&[
            &[0, 0],
            &be64(1),
            &[0, 1],
            &[0, 2],
            &be64(2),
            &[0, 3],
            &[0, 4],
            &be64(3),
            &[0, 5],
            &be64(4),
            &[0, 6, 5],
            &[0, 7],
            &[1, 2, 3, 4, 5, 6, 7, 8],
            &[0, 8],
            &[0, 9],
            &be64(6),
            &[0, 10],
            &be64(7),
            &[0, 11],
            &be64(8),
            &[0, 12],
        ])
    );
}

#[test]
fn the_empty_program_is_the_empty_module() {
    let module = generate(&Tree { procedures: vec![] }).unwrap();
    assert!(module.bin().is_empty());
    assert!(module.procedures().is_empty());
    assert!(module.local_addresses().is_empty());
    assert!(module.external_procedures().is_empty());
}

#[test]
fn two_procedures_of_one_name() {
    assert_eq!(
        build("proc a:\nhalt\nend proc\nproc a:\nhalt\nend proc"),
        Err(GenerateError::DuplicateSymbol("a".to_string()))
    );
}

#[test]
fn two_labels_of_one_name_in_a_procedure() {
    assert_eq!(
        build("proc a:\nl:\nhalt\nl:\nhalt\nend proc"),
        Err(GenerateError::DuplicateSymbol("l".to_string()))
    );
    assert_eq!(
        build("proc a:\nl: l:\nhalt\nend proc"),
        Err(GenerateError::DuplicateSymbol("l".to_string()))
    );
    assert_eq!(
        build("proc a:\nhalt\nl: l: end proc"),
        Err(GenerateError::DuplicateSymbol("l".to_string()))
    );
}

#[test]
fn a_label_with_the_name_of_a_procedure() {
    assert_eq!(
        build("proc a:\na:\nhalt\nend proc"),
        Err(GenerateError::DuplicateSymbol("a".to_string()))
    );
    assert_eq!(
        build("proc a:\nhalt\nend proc\nproc b:\na:\nhalt\nend proc"),
        Err(GenerateError::DuplicateSymbol("a".to_string()))
    );
    assert_eq!(
        build("proc a:\nb:\nhalt\nend proc\nproc b:\nhalt\nend proc"),
        Err(GenerateError::DuplicateSymbol("b".to_string()))
    );
}

#[test]
fn reference_to_an_undeclared_label() {
    assert_eq!(
        build("proc a:\njmp &nowhere\nend proc"),
        Err(GenerateError::UnresolvedLabel("nowhere".to_string()))
    );
}

#[test]
fn a_label_of_another_procedure_is_not_seen() {
    assert_eq!(
        build("proc a:\nl:\nhalt\nend proc\nproc b:\njmp &l\nend proc"),
        Err(GenerateError::UnresolvedLabel("l".to_string()))
    );
}

#[test]
fn reference_to_an_undeclared_procedure() {
    assert_eq!(
        build("proc a:\njmp &this.nowhere\nend proc"),
        Err(GenerateError::UnresolvedProcedure("nowhere".to_string()))
    );
}

#[test]
fn a_label_is_no_procedure_and_a_procedure_no_label() {
    assert_eq!(
        build("proc a:\nl:\njmp &this.l\nend proc"),
        Err(GenerateError::UnresolvedProcedure("l".to_string()))
    );
    assert_eq!(
        build("proc a:\njmp &a\nend proc"),
        Err(GenerateError::UnresolvedLabel("a".to_string()))
    );
}

#[test]
fn cpl_u8_refuses_references() {
    assert_eq!(build("proc a:\nl:\ncpl_u8 &l\nend proc"), Err(GenerateError::IllegalOperand));
    assert_eq!(build("proc a:\ncpl_u8 &this.a\nend proc"), Err(GenerateError::IllegalOperand));
    assert_eq!(build("proc a:\ncpl_u8 &ext.foo\nend proc"), Err(GenerateError::IllegalOperand));
}

#[test]
fn cpl_u8_with_a_literal_takes_ten_bytes() {
    let module = build("proc a:\ncpl_u8 258\nend proc").unwrap();
    assert_eq!(module.bin(), &code(&[&[0, 10], &be64(258)]));
    assert_eq!(module.bin().len(), 10);
}

#[test]
fn the_error_that_comes_first_in_the_text_is_reported() {
    assert_eq!(
        build("proc a:\ncpl_u8 &l\nl:\nhalt\nl:\nend proc"),
        Err(GenerateError::IllegalOperand)
    );
    assert_eq!(
        build("proc a:\nl:\nhalt\nl:\ncpl_u8 &l\nend proc"),
        Err(GenerateError::DuplicateSymbol("l".to_string()))
    );
    assert_eq!(
        build("proc a:\njmp &x\nend proc\nproc a:\nhalt\nend proc"),
        Err(GenerateError::UnresolvedLabel("x".to_string()))
    );
    assert_eq!(
        build("proc a:\njmp &this.x\nend proc\nproc a:\nhalt\nend proc"),
        Err(GenerateError::DuplicateSymbol("a".to_string()))
    );
}

#[test]
fn generate_operation_without_operand() {
    let (bin, calls, proccalls, extcalls) = generate_operation(40, &Operation::CmpU8).unwrap();
    assert_eq!(bin, vec![0u8, 3]);
    assert!(calls.is_empty() && proccalls.is_empty() && extcalls.is_empty());
    let (bin, _, _, _) = generate_operation(0, &Operation::Jmps).unwrap();
    assert_eq!(bin, vec![0u8, 1]);
    let (bin, _, _, _) = generate_operation(0, &Operation::PopU8).unwrap();
    assert_eq!(bin, vec![0u8, 8]);
    let (bin, _, _, _) = generate_operation(0, &Operation::Halt).unwrap();
    assert_eq!(bin, vec![0u8, 12]);
}

#[test]
fn generate_operation_with_literals() {
    let (bin, _, _, _) =
        generate_operation(0, &Operation::PushU8(PushU8 { value: 200 })).unwrap();
    assert_eq!(bin, vec![0u8, 6, 200]);
    let (bin, _, _, _) = generate_operation(0, &Operation::Spi(Spi { value: 1 << 40 })).unwrap();
    assert_eq!(bin, code(&[&[0, 4], &be64(1 << 40)]));
    let (bin, _, _, _) = generate_operation(0, &Operation::Spd(Spd { value: u64::MAX })).unwrap();
    assert_eq!(bin, code(&[&[0, 5], &be64(u64::MAX)]));
    let (bin, calls, proccalls, extcalls) = generate_operation(
        0,
        &Operation::CpgU8(CpgU8 { address: Address::IntLiteral(0x1122334455667788) }),
    )
    .unwrap();
    assert_eq!(bin, vec![0u8, 11, 0x11, 0x22, 0x33, 0x44, 0x55, 0x66, 0x77, 0x88]);
    assert!(calls.is_empty() && proccalls.is_empty() && extcalls.is_empty());
}

#[test]
fn generate_operation_with_references() {
    let (bin, calls, proccalls, extcalls) = generate_operation(
        100,
        &Operation::Jmp(Jmp { address: Address::Label("l".to_string()) }),
    )
    .unwrap();
    assert_eq!(bin, code(&[&[0, 0], &be64(0)]));
    assert_eq!(calls, vec![("l".to_string(), 102u64)]);
    assert!(proccalls.is_empty() && extcalls.is_empty());

    let (bin, calls, proccalls, extcalls) = generate_operation(
        7,
        &Operation::JmpTrue(JmpTrue { address: Address::ProcRef("p".to_string()) }),
    )
    .unwrap();
    assert_eq!(bin, code(&[&[0, 2], &be64(0)]));
    assert_eq!(proccalls, vec![("p".to_string(), 9u64)]);
    assert!(calls.is_empty() && extcalls.is_empty());

    let (bin, calls, proccalls, extcalls) = generate_operation(
        0,
        &Operation::SetU8(SetU8 {
            address: Address::ExtProcRef(ExtProcRef {
                module: "m".to_string(),
                procedure: "p".to_string(),
            }),
        }),
    )
    .unwrap();
    assert_eq!(bin, code(&[&[0, 9], &be64(0)]));
    assert_eq!(
        extcalls,
        vec![(ExternalProcedure { module: "m".to_string(), procedure: "p".to_string() }, 2u64)]
    );
    assert!(calls.is_empty() && proccalls.is_empty());

    let (_, _, proccalls, _) = generate_operation(
        u64::MAX,
        &Operation::PushU64(PushU64 { address: Address::ProcRef("p".to_string()) }),
    )
    .unwrap();
    assert_eq!(proccalls, vec![("p".to_string(), 1u64)]);
}

#[test]
fn generate_operation_cpl_u8() {
    let (bin, calls, proccalls, extcalls) =
        generate_operation(0, &Operation::CplU8(CplU8 { address: Address::IntLiteral(5) }))
            .unwrap();
    assert_eq!(bin.len(), 10);
    assert_eq!(bin, code(&[&[0, 10], &be64(5)]));
    assert!(calls.is_empty() && proccalls.is_empty() && extcalls.is_empty());
    assert_eq!(
        generate_operation(0, &Operation::CplU8(CplU8 { address: Address::Label("l".to_string()) })),
        Err(GenerateError::IllegalOperand)
    );
    assert_eq!(
        generate_operation(
            0,
            &Operation::CplU8(CplU8 { address: Address::ProcRef("p".to_string()) })
        ),
        Err(GenerateError::IllegalOperand)
    );
    assert_eq!(
        generate_operation(
            0,
            &Operation::CplU8(CplU8 {
                address: Address::ExtProcRef(ExtProcRef {
                    module: "m".to_string(),
                    procedure: "p".to_string()
                })
            })
        ),
        Err(GenerateError::IllegalOperand)
    );
}

#[test]
fn assembling_twice_gives_the_same_module() {
    let source = "proc a:\npush_u8 5\nspi 8\npop_u8\nhalt\nend proc";
    let first = assemble(source).unwrap();
    let second = assemble(source).unwrap();
    assert_eq!(first, second);
    assert_eq!(first.bin(), second.bin());
    assert_eq!(first.bin(), &code(&[&[0, 6, 5], &[0, 4], &be64(8), &[0, 8], &[0, 12]]));
}

#[test]
fn assemble_reports_the_stage_that_failed() {
    assert_eq!(
        assemble("proc a\nhalt\nend proc"),
        Err(AssembleError::Lex(LexError::InvalidToken("a".to_string())))
    );
    assert_eq!(
        assemble("proc a:\nhalt\nend proc\n"),
        Err(AssembleError::Parse(ParseError::UnknownProcedure))
    );
    assert_eq!(
        assemble("proc a:\njmp &l\nend proc"),
        Err(AssembleError::Generate(GenerateError::UnresolvedLabel("l".to_string())))
    );
    assert_eq!(
        assemble("proc a:\nhalt\nend proc").unwrap().bin(),
        &vec![0u8, 12]
    );
}
