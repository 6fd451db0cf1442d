use vmasm::ast::{procedure_is_well_formed, Operation, Procedure, Tree};
use vmasm::lexer::lex;
use vmasm::parser::parse;

fn procedure(labels: Vec<(&str, usize)>, operations: usize) -> Procedure {
    Procedure {
        labels: labels.into_iter().map(|(name, index)| (name.to_string(), index)).collect(),
        operations: (0..operations).map(|_| Operation::Halt).collect(),
    }
}

#[test]
fn labels_in_order_and_in_range_are_well_formed() {
    assert!(procedure_is_well_formed(&procedure(vec![], 0)));
    assert!(procedure_is_well_formed(&procedure(vec![("a", 0)], 0)));
    assert!(procedure_is_well_formed(&procedure(vec![("a", 0), ("b", 0), ("c", 2), ("d", 3)], 3)));
}

#[test]
fn a_label_behind_the_end_is_not_well_formed() {
    assert!(!procedure_is_well_formed(&procedure(vec![("a", 1)], 0)));
    assert!(!procedure_is_well_formed(&procedure(vec![("a", 0), ("b", 4)], 3)));
}

#[test]
fn labels_out_of_order_are_not_well_formed() {
    assert!(!procedure_is_well_formed(&procedure(vec![("a", 2), ("b", 1)], 3)));
    assert!(!procedure_is_well_formed(&procedure(vec![("a", 0), ("b", 2), ("c", 1)], 3)));
}

#[test]
fn a_program_is_well_formed_where_each_procedure_is() {
    let good = procedure(vec![("a", 1)], 2);
    let bad = procedure(vec![("a", 3)], 2);
    assert!(Tree { procedures: vec![] }.is_well_formed());
    assert!(Tree { procedures: vec![("p".to_string(), good.clone())] }.is_well_formed());
    assert!(!Tree {
        procedures: vec![("p".to_string(), good), ("q".to_string(), bad)]
    }
    .is_well_formed());
}

#[test]
fn what_is_parsed_is_well_formed() {
    let tree =
        parse(&lex("proc a: x:\nhalt\ny: z:\nhalt\nw: end proc\nproc b: end proc").unwrap())
            .unwrap();
    assert!(tree.is_well_formed());
}
