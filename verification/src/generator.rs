use crate::ast::{
    entry_view, label_view, Address, AddressView, Operation, OperationView, Procedure, Tree,
    TreeView,
};
use crate::binary::{be_bytes_u64, overwrite_u64, write_u16, write_u64, write_u8};
use crate::encoding::{
    encode, lemma_code_len_take, lemma_encode_push, lemma_operation_bytes_len, operation_bytes,
    operation_len,
};
use crate::format_vmw::{
    externals_view, symbols_view, ExternalProcedure, ExternalProcedureView, VMWView, VMW,
};
use crate::linking::{
    code, dangling_labels, dangling_procedures, emission_error, external_placeholders, generated,
    illegal_operand, illegal_operations, in_procedure, label_error, label_name_taken,
    label_names, label_table, labels_before, link_error, literal_operand, lookup, names_of,
    offsets, operand_site, operation_offset, operations_of, pending, pending_external,
    placeholder, placeholders, procedure_error, procedure_names, procedure_offset,
    procedure_table, program_sites, reference_kind, rejected_procedures, sites, taken_labels,
    GenerateErrorView, ReferenceKind,
};
use crate::search::{
    first_index, lemma_first_index, lemma_first_index_is, lemma_first_index_none, lemma_position,
    lemma_position_contains,
};
use crate::staging::{
    fits, image, lemma_image_agree, lemma_image_len, lemma_image_overwrite,
    lemma_image_resolved, lemma_operand_inside, lemma_procedure_offset_monotonic,
    lemma_program_sites_complete, lemma_program_sites_sound, lemma_sites_complete,
    lemma_sites_sound, lemma_sites_step, staged_operand, staged_operands,
};
use crate::vm::OpcodeValues;
use vstd::prelude::*;

verus! {

/// Why a program cannot be assembled.
#[derive(Clone, Debug, PartialEq, Eq)]
pub enum GenerateError {
    /// A procedure or a label has a name that is already in use.
    DuplicateSymbol(String),
    /// A reference to a label that its procedure does not declare.
    UnresolvedLabel(String),
    /// A reference to a procedure that the program does not hold.
    UnresolvedProcedure(String),
    /// An operation that takes a literal only was given a reference.
    IllegalOperand,
}

impl View for GenerateError {
    type V = GenerateErrorView;

    open spec fn view(&self) -> GenerateErrorView {
        match self {
            GenerateError::DuplicateSymbol(name) => GenerateErrorView::DuplicateSymbol(name@),
            GenerateError::UnresolvedLabel(name) => GenerateErrorView::UnresolvedLabel(name@),
            GenerateError::UnresolvedProcedure(name) => GenerateErrorView::UnresolvedProcedure(
                name@,
            ),
            GenerateError::IllegalOperand => GenerateErrorView::IllegalOperand,
        }
    }
}

/// The offset that `table` holds for `name`, if it holds one.
fn find_symbol(table: &Vec<(String, u64)>, name: &String) -> (found: Option<u64>)
    ensures
        found == lookup(symbols_view(table@), name@),
{
    let ghost names = names_of(symbols_view(table@));
    let mut j: usize = 0;
    while j < table.len()
        invariant
            j <= table.len(),
            names == names_of(symbols_view(table@)),
            forall|l: int| 0 <= l < j ==> names[l] != name@,
        decreases table.len() - j,
    {
        if table[j].0 == *name {
            proof {
                lemma_position(names, name@);
                assert(names[j as int] == name@);
            }
            return Some(table[j].1);
        }
        j += 1;
    }
    proof {
        lemma_position(names, name@);
    }
    None
}

/// The parts that one operation adds to a module under construction.
struct Emitted {
    /// The encoding of the operation, references written as zero.
    bin: Vec<u8>,
    /// The label that the operation refers to, with the offset of the
    /// address to resolve.
    call_placeholders: Vec<(String, u64)>,
    /// The procedure of this module that the operation refers to, with the
    /// offset of the address to resolve.
    proccall_placeholders: Vec<(String, u64)>,
    /// The procedure of another module that the operation refers to, with
    /// the offset of the address that a loader has to fill in.
    extcall_placeholders: Vec<(ExternalProcedure, u64)>,
}

/// Appends the address operand of an operation that starts at `bin_offset`
/// and whose opcode is already in `emitted.bin`: a literal as it stands, a
/// reference as zero and as an entry of the list that is resolved later.
fn generate_address(bin_offset: u64, address: &Address, emitted: &mut Emitted)
    ensures
        final(emitted).bin@ == old(emitted).bin@ + be_bytes_u64(
            match address@ {
                AddressView::IntLiteral(value) => value,
                _ => 0,
            },
        ),
        symbols_view(final(emitted).call_placeholders@) == symbols_view(
            old(emitted).call_placeholders@,
        ) + (match address@ {
            AddressView::Label(name) => seq![(name, operand_site(bin_offset))],
            _ => Seq::empty(),
        }),
        symbols_view(final(emitted).proccall_placeholders@) == symbols_view(
            old(emitted).proccall_placeholders@,
        ) + (match address@ {
            AddressView::ProcRef(name) => seq![(name, operand_site(bin_offset))],
            _ => Seq::empty(),
        }),
        externals_view(final(emitted).extcall_placeholders@) == externals_view(
            old(emitted).extcall_placeholders@,
        ) + (match address@ {
            AddressView::ExtProcRef { module, procedure } => seq![
                (
                    ExternalProcedureView { module, procedure },
                    operand_site(bin_offset),
                ),
            ],
            _ => Seq::empty(),
        }),
{
    let site = bin_offset.wrapping_add(2);
    let ghost calls = symbols_view(emitted.call_placeholders@);
    let ghost proccalls = symbols_view(emitted.proccall_placeholders@);
    let ghost extcalls = externals_view(emitted.extcall_placeholders@);
    match address {
        Address::Label(name) => {
            emitted.call_placeholders.push((name.clone(), site));
            write_u64(&mut emitted.bin, 0);
            assert(symbols_view(emitted.call_placeholders@) =~= calls + seq![(name@, site)]);
            assert(symbols_view(emitted.proccall_placeholders@) =~= proccalls + Seq::empty());
            assert(externals_view(emitted.extcall_placeholders@) =~= extcalls + Seq::empty());
        },
        Address::IntLiteral(value) => {
            write_u64(&mut emitted.bin, *value);
            assert(symbols_view(emitted.call_placeholders@) =~= calls + Seq::empty());
            assert(symbols_view(emitted.proccall_placeholders@) =~= proccalls + Seq::empty());
            assert(externals_view(emitted.extcall_placeholders@) =~= extcalls + Seq::empty());
        },
        Address::ProcRef(name) => {
            emitted.proccall_placeholders.push((name.clone(), site));
            write_u64(&mut emitted.bin, 0);
            assert(symbols_view(emitted.call_placeholders@) =~= calls + Seq::empty());
            assert(symbols_view(emitted.proccall_placeholders@) =~= proccalls + seq![
                (name@, site),
            ]);
            assert(externals_view(emitted.extcall_placeholders@) =~= extcalls + Seq::empty());
        },
        Address::ExtProcRef(r) => {
            let external = ExternalProcedure {
                module: r.module.clone(),
                procedure: r.procedure.clone(),
            };
            emitted.extcall_placeholders.push((external, site));
            write_u64(&mut emitted.bin, 0);
            assert(symbols_view(emitted.call_placeholders@) =~= calls + Seq::empty());
            assert(symbols_view(emitted.proccall_placeholders@) =~= proccalls + Seq::empty());
            assert(externals_view(emitted.extcall_placeholders@) =~= extcalls + seq![
                (
                    ExternalProcedureView {
                        module: r.module@,
                        procedure: r.procedure@,
                    },
                    site,
                ),
            ]);
        },
    }
}

/// Encodes one operation that is to stand at `bin_offset`. Returns its bytes,
/// references written as zero, and the work that it leaves: the label, the
/// procedure of this module and the procedure of another module that it
/// refers to, each with the offset of the address operand. An operation that
/// copies from a local address and is given anything but a literal is
/// refused.
pub fn generate_operation(bin_offset: u64, operation: &Operation) -> (result: Result<
    (Vec<u8>, Vec<(String, u64)>, Vec<(String, u64)>, Vec<(ExternalProcedure, u64)>),
    GenerateError,
>)
    ensures
        match result {
            Ok(parts) => {
                &&& !illegal_operand(operation@)
                &&& parts.0@ == operation_bytes(operation@, literal_operand(operation@))
                &&& parts.0@.len() == operation_len(operation@)
                &&& symbols_view(parts.1@) == pending(
                    operation@,
                    ReferenceKind::Label,
                    operand_site(bin_offset),
                )
                &&& symbols_view(parts.2@) == pending(
                    operation@,
                    ReferenceKind::Procedure,
                    operand_site(bin_offset),
                )
                &&& externals_view(parts.3@) == pending_external(
                    operation@,
                    operand_site(bin_offset),
                )
            },
            Err(error) => illegal_operand(operation@) && error@
                == GenerateErrorView::IllegalOperand,
        },
{
    let mut emitted = Emitted {
        bin: Vec::new(),
        call_placeholders: Vec::new(),
        proccall_placeholders: Vec::new(),
        extcall_placeholders: Vec::new(),
    };
    assert(symbols_view(emitted.call_placeholders@) =~= Seq::empty());
    assert(symbols_view(emitted.proccall_placeholders@) =~= Seq::empty());
    assert(externals_view(emitted.extcall_placeholders@) =~= Seq::empty());
    match operation {
        Operation::CmpU8 => {
            write_u16(&mut emitted.bin, OpcodeValues::CmpU8.value());
        },
        Operation::CpgU8(data) => {
            write_u16(&mut emitted.bin, OpcodeValues::CpgU8.value());
            generate_address(bin_offset, &data.address, &mut emitted);
        },
        Operation::CplU8(data) => {
            write_u16(&mut emitted.bin, OpcodeValues::CplU8.value());
            match &data.address {
                Address::IntLiteral(addr) => {
                    write_u64(&mut emitted.bin, *addr);
                },
                _ => {
                    return Err(GenerateError::IllegalOperand);
                },
            }
        },
        Operation::Halt => {
            write_u16(&mut emitted.bin, OpcodeValues::Halt.value());
        },
        Operation::Jmp(data) => {
            write_u16(&mut emitted.bin, OpcodeValues::Jmp.value());
            generate_address(bin_offset, &data.address, &mut emitted);
        },
        Operation::Jmps => {
            write_u16(&mut emitted.bin, OpcodeValues::Jmps.value());
        },
        Operation::JmpTrue(data) => {
            write_u16(&mut emitted.bin, OpcodeValues::JmpTrue.value());
            generate_address(bin_offset, &data.address, &mut emitted);
        },
        Operation::PopU8 => {
            write_u16(&mut emitted.bin, OpcodeValues::PopU8.value());
        },
        Operation::PushU64(data) => {
            write_u16(&mut emitted.bin, OpcodeValues::PushU64.value());
            generate_address(bin_offset, &data.address, &mut emitted);
        },
        Operation::PushU8(data) => {
            write_u16(&mut emitted.bin, OpcodeValues::PushU8.value());
            write_u8(&mut emitted.bin, data.value);
        },
        Operation::SetU8(data) => {
            write_u16(&mut emitted.bin, OpcodeValues::SetU8.value());
            generate_address(bin_offset, &data.address, &mut emitted);
        },
        Operation::Spd(data) => {
            write_u16(&mut emitted.bin, OpcodeValues::Spd.value());
            write_u64(&mut emitted.bin, data.value);
        },
        Operation::Spi(data) => {
            write_u16(&mut emitted.bin, OpcodeValues::Spi.value());
            write_u64(&mut emitted.bin, data.value);
        },
    }
    proof {
        lemma_operation_bytes_len(operation@, literal_operand(operation@));
        assert(emitted.bin@ =~= operation_bytes(operation@, literal_operand(operation@)));
        assert(symbols_view(emitted.call_placeholders@) =~= pending(
            operation@,
            ReferenceKind::Label,
            operand_site(bin_offset),
        ));
        assert(symbols_view(emitted.proccall_placeholders@) =~= pending(
            operation@,
            ReferenceKind::Procedure,
            operand_site(bin_offset),
        ));
        assert(externals_view(emitted.extcall_placeholders@) =~= pending_external(
            operation@,
            operand_site(bin_offset),
        ));
    }
    Ok(
        (
            emitted.bin,
            emitted.call_placeholders,
            emitted.proccall_placeholders,
            emitted.extcall_placeholders,
        ),
    )
}

/// Whether `table` holds an entry for `name`.
fn is_known(table: &Vec<(String, u64)>, name: &String) -> (known: bool)
    ensures
        known == names_of(symbols_view(table@)).contains(name@),
{
    proof {
        lemma_position_contains(names_of(symbols_view(table@)), name@);
    }
    find_symbol(table, name).is_some()
}

/// The length of a buffer as an offset.
fn offset_of(bin: &Vec<u8>) -> (offset: u64)
    ensures
        offset == bin@.len(),
{
    bin.len() as u64
}

/// Registers the labels that stand before operation `op_index`, from label
/// `next_label` on, at `offset`, and returns the index of the first label
/// that stands later. A label whose name is taken ends the pass.
fn register_labels(
    procedure: &Procedure,
    procedures: &Vec<(String, u64)>,
    label_offsets: &mut Vec<(String, u64)>,
    next_label: usize,
    op_index: usize,
    offset: u64,
    Ghost(tree): Ghost<TreeView>,
    Ghost(i): Ghost<int>,
) -> (result: Result<usize, GenerateError>)
    requires
        tree.wf(),
        0 <= i < tree.procedures.len(),
        procedure@ == tree.procedures[i].1,
        names_of(symbols_view(procedures@)) == procedure_names(tree).take(i + 1),
        next_label <= procedure.labels.len(),
        op_index <= procedure.operations.len(),
        offset == operation_offset(tree, i, op_index as int),
        symbols_view(old(label_offsets)@) == label_table(tree, i).take(next_label as int),
        forall|j: int| 0 <= j < next_label ==> !label_name_taken(tree, i, j),
        next_label < procedure.labels.len() ==> procedure@.labels[next_label as int].1
            >= op_index,
    ensures
        match result {
            Ok(next) => {
                &&& next_label <= next <= procedure.labels.len()
                &&& symbols_view(final(label_offsets)@) == label_table(tree, i).take(next as int)
                &&& forall|j: int| 0 <= j < next ==> !label_name_taken(tree, i, j)
                &&& next < procedure.labels.len() ==> procedure@.labels[next as int].1 > op_index
            },
            Err(error) => exists|j: int|
                0 <= j < procedure.labels.len() && first_index(
                    procedure@.labels.len() as int,
                    taken_labels(tree, i),
                ) == Some(j) && procedure@.labels[j].1 <= op_index && error@
                    == GenerateErrorView::DuplicateSymbol(procedure@.labels[j].0),
        },
{
    let mut next = next_label;
    while next < procedure.labels.len() && procedure.labels[next].1 <= op_index
        invariant
            tree.wf(),
            0 <= i < tree.procedures.len(),
            procedure@ == tree.procedures[i].1,
            names_of(symbols_view(procedures@)) == procedure_names(tree).take(i + 1),
            next_label <= next <= procedure.labels.len(),
            op_index <= procedure.operations.len(),
            offset == operation_offset(tree, i, op_index as int),
            symbols_view(label_offsets@) == label_table(tree, i).take(next as int),
            forall|j: int| 0 <= j < next ==> !label_name_taken(tree, i, j),
            next < procedure.labels.len() ==> procedure@.labels[next as int].1 >= op_index,
        decreases procedure.labels.len() - next,
    {
        let name = &procedure.labels[next].0;
        proof {
            assert(procedure@.labels[next as int] == label_view(
                procedure.labels@[next as int],
            ));
            assert(names_of(symbols_view(label_offsets@)) =~= label_names(procedure@).take(
                next as int,
            ));
        }
        if is_known(procedures, name) || is_known(label_offsets, name) {
            proof {
                assert(label_name_taken(tree, i, next as int));
                assert(taken_labels(tree, i)(next as int));
                lemma_first_index_is(
                    procedure@.labels.len() as int,
                    taken_labels(tree, i),
                    next as int,
                );
            }
            return Err(GenerateError::DuplicateSymbol(name.clone()));
        }
        label_offsets.push((name.clone(), offset));
        proof {
            assert(symbols_view(label_offsets@) =~= label_table(tree, i).take(next + 1));
            if next + 1 < procedure.labels.len() {
                assert(procedure@.wf());
                assert(procedure@.labels[next as int].1 <= procedure@.labels[next + 1].1);
            }
        }
        next += 1;
    }
    Ok(next)
}

/// Emits the operations of procedure `i` at the end of `bin`, references
/// written as zero, and registers its labels on the way. Returns the offsets
/// of the labels and the label references that are left to resolve; the
/// references to procedures are added to `proccalls` and `extcalls`.
fn emit_procedure(
    procedure: &Procedure,
    procedures: &Vec<(String, u64)>,
    bin: &mut Vec<u8>,
    proccalls: &mut Vec<(String, u64)>,
    extcalls: &mut Vec<(ExternalProcedure, u64)>,
    Ghost(tree): Ghost<TreeView>,
    Ghost(i): Ghost<int>,
) -> (result: Result<(Vec<(String, u64)>, Vec<(String, u64)>), GenerateError>)
    requires
        tree.wf(),
        0 <= i < tree.procedures.len(),
        procedure@ == tree.procedures[i].1,
        names_of(symbols_view(procedures@)) == procedure_names(tree).take(i + 1),
        old(bin)@.len() == procedure_offset(tree, i),
    ensures
        match result {
            Ok(parts) => {
                &&& emission_error(tree, i) is None
                &&& final(bin)@ == old(bin)@ + encode(
                    operations_of(tree, i),
                    staged_operands(tree, i, false, false),
                )
                &&& symbols_view(parts.0@) == label_table(tree, i)
                &&& symbols_view(parts.1@) == placeholders(
                    tree,
                    in_procedure(i, sites(operations_of(tree, i), ReferenceKind::Label)),
                )
                &&& symbols_view(final(proccalls)@) == symbols_view(old(proccalls)@)
                    + placeholders(
                    tree,
                    in_procedure(i, sites(operations_of(tree, i), ReferenceKind::Procedure)),
                )
                &&& externals_view(final(extcalls)@) == externals_view(old(extcalls)@)
                    + external_placeholders(
                    tree,
                    in_procedure(i, sites(operations_of(tree, i), ReferenceKind::External)),
                )
            },
            Err(error) => emission_error(tree, i) == Some(error@),
        },
{
    let ghost ops = operations_of(tree, i);
    let ghost raw = staged_operands(tree, i, false, false);
    let ghost labels = procedure@.labels;
    let mut label_offsets: Vec<(String, u64)> = Vec::new();
    let mut calls: Vec<(String, u64)> = Vec::new();
    let mut next_label: usize = 0;
    let mut k: usize = 0;
    proof {
        assert(ops.take(0) =~= Seq::<OperationView>::empty());
        assert(bin@ =~= old(bin)@ + encode(ops.take(0), raw.take(0)));
        assert(symbols_view(label_offsets@) =~= label_table(tree, i).take(0));
        assert(symbols_view(calls@) =~= placeholders(
            tree,
            in_procedure(i, sites(ops.take(0), ReferenceKind::Label)),
        ));
        assert(symbols_view(proccalls@) =~= symbols_view(old(proccalls)@) + placeholders(
            tree,
            in_procedure(i, sites(ops.take(0), ReferenceKind::Procedure)),
        ));
        assert(externals_view(extcalls@) =~= externals_view(old(extcalls)@)
            + external_placeholders(
            tree,
            in_procedure(i, sites(ops.take(0), ReferenceKind::External)),
        ));
    }
    while k < procedure.operations.len()
        invariant
            tree.wf(),
            0 <= i < tree.procedures.len(),
            procedure@ == tree.procedures[i].1,
            ops == operations_of(tree, i),
            raw == staged_operands(tree, i, false, false),
            labels == procedure@.labels,
            names_of(symbols_view(procedures@)) == procedure_names(tree).take(i + 1),
            old(bin)@.len() == procedure_offset(tree, i),
            k <= procedure.operations.len(),
            next_label <= procedure.labels.len(),
            bin@ == old(bin)@ + encode(ops.take(k as int), raw.take(k as int)),
            bin@.len() == operation_offset(tree, i, k as int),
            symbols_view(label_offsets@) == label_table(tree, i).take(next_label as int),
            forall|j: int| 0 <= j < next_label ==> !label_name_taken(tree, i, j),
            next_label < procedure.labels.len() ==> labels[next_label as int].1 >= k,
            forall|l: int| 0 <= l < k ==> !illegal_operand(#[trigger] ops[l]),
            symbols_view(calls@) == placeholders(
                tree,
                in_procedure(i, sites(ops.take(k as int), ReferenceKind::Label)),
            ),
            symbols_view(proccalls@) == symbols_view(old(proccalls)@) + placeholders(
                tree,
                in_procedure(i, sites(ops.take(k as int), ReferenceKind::Procedure)),
            ),
            externals_view(extcalls@) == externals_view(old(extcalls)@) + external_placeholders(
                tree,
                in_procedure(i, sites(ops.take(k as int), ReferenceKind::External)),
            ),
        decreases procedure.operations.len() - k,
    {
        let start = offset_of(bin);
        match register_labels(
            procedure,
            procedures,
            &mut label_offsets,
            next_label,
            k,
            start,
            Ghost(tree),
            Ghost(i),
        ) {
            Ok(next) => {
                next_label = next;
            },
            Err(error) => {
                proof {
                    lemma_first_index(ops.len() as int, illegal_operations(ops));
                }
                return Err(error);
            },
        }
        let operation = &procedure.operations[k];
        assert(operation@ == ops[k as int]);
        match generate_operation(start, operation) {
            Err(error) => {
                proof {
                    assert(illegal_operations(ops)(k as int));
                    lemma_first_index_is(ops.len() as int, illegal_operations(ops), k as int);
                    lemma_first_index(labels.len() as int, taken_labels(tree, i));
                    if let Some(j) = first_index(labels.len() as int, taken_labels(tree, i)) {
                        assert(label_name_taken(tree, i, j));
                        assert(j >= next_label);
                        assert(procedure@.wf());
                        assert(labels[next_label as int].1 <= labels[j].1);
                    }
                }
                return Err(error);
            },
            Ok(parts) => {
                let (mut add_bin, mut add_calls, mut add_proccalls, mut add_extcalls) = parts;
                let ghost before_calls = symbols_view(calls@);
                let ghost before_proccalls = symbols_view(proccalls@);
                let ghost before_extcalls = externals_view(extcalls@);
                let ghost before_bin = bin@;
                calls.append(&mut add_calls);
                proccalls.append(&mut add_proccalls);
                extcalls.append(&mut add_extcalls);
                bin.append(&mut add_bin);
                proof {
                    let op = ops[k as int];
                    let site = operand_site(start);
                    lemma_code_len_take(ops, k as int);
                    assert(bin@.len() == start + operation_len(op));
                    lemma_operation_bytes_len(op, 0);
                    assert(bin@.len() == bin.len() <= usize::MAX <= u64::MAX);
                    assert(site == start + 2);
                    assert(site == placeholder(tree, (i, k as int)).1);
                    assert(raw[k as int] == literal_operand(op));
                    assert(ops.take(k + 1) =~= ops.take(k as int).push(op));
                    assert(raw.take(k + 1) =~= raw.take(k as int).push(raw[k as int]));
                    lemma_encode_push(ops.take(k as int), raw.take(k as int), op, raw[k as int]);
                    assert(bin@ =~= old(bin)@ + encode(ops.take(k + 1), raw.take(k + 1)));
                    lemma_sites_step(ops, ReferenceKind::Label, k as int);
                    lemma_sites_step(ops, ReferenceKind::Procedure, k as int);
                    lemma_sites_step(ops, ReferenceKind::External, k as int);
                    assert(symbols_view(calls@) =~= before_calls + pending(
                        op,
                        ReferenceKind::Label,
                        site,
                    ));
                    assert(symbols_view(proccalls@) =~= before_proccalls + pending(
                        op,
                        ReferenceKind::Procedure,
                        site,
                    ));
                    assert(externals_view(extcalls@) =~= before_extcalls + pending_external(
                        op,
                        site,
                    ));
                    assert(symbols_view(calls@) =~= placeholders(
                        tree,
                        in_procedure(i, sites(ops.take(k + 1), ReferenceKind::Label)),
                    ));
                    assert(symbols_view(proccalls@) =~= symbols_view(old(proccalls)@)
                        + placeholders(
                        tree,
                        in_procedure(i, sites(ops.take(k + 1), ReferenceKind::Procedure)),
                    ));
                    assert(externals_view(extcalls@) =~= externals_view(old(extcalls)@)
                        + external_placeholders(
                        tree,
                        in_procedure(i, sites(ops.take(k + 1), ReferenceKind::External)),
                    ));
                }
            },
        }
        k += 1;
    }
    let end = offset_of(bin);
    match register_labels(
        procedure,
        procedures,
        &mut label_offsets,
        next_label,
        k,
        end,
        Ghost(tree),
        Ghost(i),
    ) {
        Ok(next) => {
            next_label = next;
        },
        Err(error) => {
            proof {
                lemma_first_index(ops.len() as int, illegal_operations(ops));
            }
            return Err(error);
        },
    }
    proof {
        assert(procedure@.wf());
        if next_label < procedure.labels.len() {
            assert(labels[next_label as int].1 <= ops.len());
        }
        assert(ops.take(k as int) =~= ops);
        assert(raw.take(k as int) =~= raw);
        assert(label_table(tree, i).take(next_label as int) =~= label_table(tree, i));
        assert forall|j: int| 0 <= j < labels.len() implies !#[trigger] taken_labels(tree, i)(
            j,
        ) by {
            assert(!label_name_taken(tree, i, j));
        }
        lemma_first_index_none(labels.len() as int, taken_labels(tree, i));
        assert forall|l: int| 0 <= l < ops.len() implies !#[trigger] illegal_operations(ops)(
            l,
        ) by {
            assert(!illegal_operand(ops[l]));
        }
        lemma_first_index_none(ops.len() as int, illegal_operations(ops));
    }
    Ok((label_offsets, calls))
}

/// Resolves the label references of procedure `i`, which `calls` lists,
/// against the offsets of its labels, and writes each offset over the zero
/// that stands for the reference. The first reference to a label that the
/// procedure does not declare ends the pass.
fn resolve_labels(
    bin: &mut Vec<u8>,
    calls: &Vec<(String, u64)>,
    label_offsets: &Vec<(String, u64)>,
    local_addresses: &mut Vec<u64>,
    Ghost(tree): Ghost<TreeView>,
    Ghost(i): Ghost<int>,
    Ghost(addresses): Ghost<Seq<Seq<u64>>>,
) -> (result: Result<(), GenerateError>)
    requires
        0 <= i < tree.procedures.len(),
        fits(tree, addresses, i + 1),
        addresses[i] == staged_operands(tree, i, false, false),
        old(bin)@ == image(tree, addresses, i + 1),
        symbols_view(calls@) == placeholders(
            tree,
            in_procedure(i, sites(operations_of(tree, i), ReferenceKind::Label)),
        ),
        symbols_view(label_offsets@) == label_table(tree, i),
    ensures
        match result {
            Ok(()) => {
                &&& label_error(tree, i) is None
                &&& final(bin)@ == image(
                    tree,
                    addresses.update(i, staged_operands(tree, i, true, false)),
                    i + 1,
                )
                &&& final(local_addresses)@ == old(local_addresses)@ + offsets(
                    tree,
                    in_procedure(i, sites(operations_of(tree, i), ReferenceKind::Label)),
                )
            },
            Err(error) => label_error(tree, i) == Some(error@),
        },
{
    let ghost ops = operations_of(tree, i);
    let ghost refs = sites(ops, ReferenceKind::Label);
    let ghost mut local = addresses[i];
    let mut r: usize = 0;
    proof {
        assert(addresses.update(i, local) =~= addresses);
        assert(local_addresses@ =~= old(local_addresses)@ + offsets(
            tree,
            in_procedure(i, refs),
        ).take(0));
        assert(names_of(label_table(tree, i)) =~= label_names(tree.procedures[i].1));
        assert(symbols_view(calls@).len() == calls@.len());
        assert(placeholders(tree, in_procedure(i, refs)).len() == refs.len());
        assert forall|q: int| 0 <= q < refs.len() implies 0 <= #[trigger] refs[q] < ops.len() by {
            lemma_sites_sound(ops, ReferenceKind::Label, q);
        }
    }
    while r < calls.len()
        invariant
            forall|q: int| 0 <= q < refs.len() ==> 0 <= #[trigger] refs[q] < ops.len(),
            0 <= i < tree.procedures.len(),
            fits(tree, addresses, i + 1),
            ops == operations_of(tree, i),
            refs == sites(ops, ReferenceKind::Label),
            symbols_view(calls@) == placeholders(tree, in_procedure(i, refs)),
            symbols_view(label_offsets@) == label_table(tree, i),
            names_of(label_table(tree, i)) == label_names(tree.procedures[i].1),
            r <= calls.len(),
            calls.len() == refs.len(),
            local.len() == ops.len(),
            bin@ == image(tree, addresses.update(i, local), i + 1),
            forall|k: int|
                0 <= k < ops.len() ==> #[trigger] local[k] == staged_operand(
                    tree,
                    i,
                    ops[k],
                    false,
                    false,
                ) || local[k] == staged_operand(tree, i, ops[k], true, false),
            forall|q: int|
                0 <= q < r ==> local[#[trigger] refs[q]] == staged_operand(
                    tree,
                    i,
                    ops[refs[q]],
                    true,
                    false,
                ),
            forall|q: int| 0 <= q < r ==> !#[trigger] dangling_labels(tree, i)(q),
            local_addresses@ == old(local_addresses)@ + offsets(tree, in_procedure(i, refs)).take(
                r as int,
            ),
        decreases calls.len() - r,
    {
        let name = &calls[r].0;
        let site = calls[r].1;
        let ghost s = refs[r as int];
        proof {
            lemma_sites_sound(ops, ReferenceKind::Label, r as int);
            assert(symbols_view(calls@)[r as int] == placeholder(tree, (i, s)));
            lemma_position(label_names(tree.procedures[i].1), name@);
            lemma_image_len(tree, addresses.update(i, local), i + 1);
            lemma_operand_inside(ops, s);
            assert(bin@.len() == bin.len() <= usize::MAX <= u64::MAX);
        }
        match find_symbol(label_offsets, name) {
            None => {
                proof {
                    assert(dangling_labels(tree, i)(r as int));
                    lemma_first_index_is(refs.len() as int, dangling_labels(tree, i), r as int);
                }
                return Err(GenerateError::UnresolvedLabel(name.clone()));
            },
            Some(value) => {
                local_addresses.push(site);
                overwrite_u64(bin, site as usize, value);
                proof {
                    let current = addresses.update(i, local);
                    lemma_image_overwrite(tree, current, i + 1, i, s, value);
                    assert(current.update(i, current[i].update(s, value)) =~= addresses.update(
                        i,
                        local.update(s, value),
                    ));
                    assert(value == staged_operand(tree, i, ops[s], true, false));
                    assert(!dangling_labels(tree, i)(r as int));
                    local = local.update(s, value);
                    assert(local_addresses@ =~= old(local_addresses)@ + offsets(
                        tree,
                        in_procedure(i, refs),
                    ).take(r + 1));
                }
            },
        }
        r += 1;
    }
    proof {
        assert forall|k: int| 0 <= k < ops.len() implies local[k] == staged_operands(
            tree,
            i,
            true,
            false,
        )[k] by {
            if reference_kind(ops[k]) == Some(ReferenceKind::Label) {
                lemma_sites_complete(ops, ReferenceKind::Label, k);
                let q = choose|q: int| 0 <= q < refs.len() && refs[q] == k;
                assert(local[refs[q]] == staged_operand(tree, i, ops[refs[q]], true, false));
            }
        }
        assert(local =~= staged_operands(tree, i, true, false));
        assert(offsets(tree, in_procedure(i, refs)).take(r as int) =~= offsets(
            tree,
            in_procedure(i, refs),
        ));
        lemma_first_index_none(refs.len() as int, dangling_labels(tree, i));
    }
    Ok(())
}

/// Resolves the references to procedures of this module, which `proccalls`
/// lists, against the procedure table, and writes each offset over the zero
/// that stands for the reference. The first reference to a procedure that the
/// program does not hold ends the pass.
fn resolve_procedures(
    bin: &mut Vec<u8>,
    proccalls: &Vec<(String, u64)>,
    procedures: &Vec<(String, u64)>,
    local_addresses: &mut Vec<u64>,
    Ghost(tree): Ghost<TreeView>,
    Ghost(addresses): Ghost<Seq<Seq<u64>>>,
) -> (result: Result<(), GenerateError>)
    requires
        fits(tree, addresses, tree.procedures.len() as int),
        forall|j: int|
            0 <= j < tree.procedures.len() ==> #[trigger] addresses[j] == staged_operands(
                tree,
                j,
                true,
                false,
            ),
        old(bin)@ == image(tree, addresses, tree.procedures.len() as int),
        symbols_view(proccalls@) == placeholders(
            tree,
            program_sites(tree, tree.procedures.len() as int, ReferenceKind::Procedure),
        ),
        symbols_view(procedures@) == procedure_table(tree, tree.procedures.len() as int),
    ensures
        match result {
            Ok(()) => {
                &&& link_error(tree) is None
                &&& final(bin)@ == code(tree)
                &&& final(local_addresses)@ == old(local_addresses)@ + offsets(
                    tree,
                    program_sites(tree, tree.procedures.len() as int, ReferenceKind::Procedure),
                )
            },
            Err(error) => link_error(tree) == Some(error@),
        },
{
    let ghost n = tree.procedures.len() as int;
    let ghost refs = program_sites(tree, n, ReferenceKind::Procedure);
    let ghost mut current = addresses;
    let mut r: usize = 0;
    proof {
        assert(local_addresses@ =~= old(local_addresses)@ + offsets(tree, refs).take(0));
        assert(names_of(procedure_table(tree, n)) =~= procedure_names(tree));
        assert(symbols_view(proccalls@).len() == proccalls@.len());
        assert(placeholders(tree, refs).len() == refs.len());
        assert forall|q: int| 0 <= q < refs.len() implies 0 <= (#[trigger] refs[q]).0 < n && 0
            <= refs[q].1 < operations_of(tree, refs[q].0).len() by {
            lemma_program_sites_sound(tree, n, ReferenceKind::Procedure, q);
        }
    }
    while r < proccalls.len()
        invariant
            forall|q: int|
                0 <= q < refs.len() ==> 0 <= (#[trigger] refs[q]).0 < n && 0 <= refs[q].1
                    < operations_of(tree, refs[q].0).len(),
            n == tree.procedures.len(),
            refs == program_sites(tree, n, ReferenceKind::Procedure),
            symbols_view(proccalls@) == placeholders(tree, refs),
            symbols_view(procedures@) == procedure_table(tree, n),
            names_of(procedure_table(tree, n)) == procedure_names(tree),
            r <= proccalls.len(),
            proccalls.len() == refs.len(),
            fits(tree, current, n),
            bin@ == image(tree, current, n),
            forall|j: int, k: int|
                0 <= j < n && 0 <= k < operations_of(tree, j).len() ==> #[trigger] current[j][k]
                    == staged_operand(tree, j, operations_of(tree, j)[k], true, false)
                    || current[j][k] == staged_operand(
                    tree,
                    j,
                    operations_of(tree, j)[k],
                    true,
                    true,
                ),
            forall|q: int|
                0 <= q < r ==> current[(#[trigger] refs[q]).0][refs[q].1] == staged_operand(
                    tree,
                    refs[q].0,
                    operations_of(tree, refs[q].0)[refs[q].1],
                    true,
                    true,
                ),
            forall|q: int| 0 <= q < r ==> !#[trigger] dangling_procedures(tree)(q),
            local_addresses@ == old(local_addresses)@ + offsets(tree, refs).take(r as int),
        decreases proccalls.len() - r,
    {
        let name = &proccalls[r].0;
        let site = proccalls[r].1;
        let ghost s = refs[r as int];
        proof {
            lemma_program_sites_sound(tree, n, ReferenceKind::Procedure, r as int);
            assert(symbols_view(proccalls@)[r as int] == placeholder(tree, s));
            lemma_position(procedure_names(tree), name@);
            lemma_image_len(tree, current, n);
            lemma_operand_inside(operations_of(tree, s.0), s.1);
            lemma_procedure_offset_monotonic(tree, s.0, n);
            assert(bin@.len() == bin.len() <= usize::MAX <= u64::MAX);
        }
        match find_symbol(procedures, name) {
            None => {
                proof {
                    assert(dangling_procedures(tree)(r as int));
                    lemma_first_index_is(refs.len() as int, dangling_procedures(tree), r as int);
                }
                return Err(GenerateError::UnresolvedProcedure(name.clone()));
            },
            Some(value) => {
                local_addresses.push(site);
                overwrite_u64(bin, site as usize, value);
                proof {
                    lemma_image_overwrite(tree, current, n, s.0, s.1, value);
                    assert(value == staged_operand(
                        tree,
                        s.0,
                        operations_of(tree, s.0)[s.1],
                        true,
                        true,
                    ));
                    assert(!dangling_procedures(tree)(r as int));
                    current = current.update(s.0, current[s.0].update(s.1, value));
                    assert(local_addresses@ =~= old(local_addresses)@ + offsets(tree, refs).take(
                        r + 1,
                    ));
                }
            },
        }
        r += 1;
    }
    proof {
        assert forall|j: int| 0 <= j < n implies #[trigger] current[j] == staged_operands(
            tree,
            j,
            true,
            true,
        ) by {
            assert forall|k: int| 0 <= k < operations_of(tree, j).len() implies current[j][k]
                == staged_operands(tree, j, true, true)[k] by {
                if reference_kind(operations_of(tree, j)[k]) == Some(
                    ReferenceKind::Procedure,
                ) {
                    lemma_program_sites_complete(tree, n, ReferenceKind::Procedure, j, k);
                    let q = choose|q: int| 0 <= q < refs.len() && refs[q] == (j, k);
                    assert(current[refs[q].0][refs[q].1] == staged_operand(
                        tree,
                        refs[q].0,
                        operations_of(tree, refs[q].0)[refs[q].1],
                        true,
                        true,
                    ));
                }
            }
            assert(current[j] =~= staged_operands(tree, j, true, true));
        }
        lemma_image_resolved(tree, current, n);
        assert(offsets(tree, refs).take(r as int) =~= offsets(tree, refs));
        lemma_first_index_none(refs.len() as int, dangling_procedures(tree));
    }
    Ok(())
}

/// Assembles a program into a module. The procedures are emitted in program
/// order; the label references of each are resolved when it is complete, and
/// the references to procedures when all are, so a reference may stand before
/// or after what it refers to. References to procedures of other modules are
/// listed for a loader. The first error ends the run.
pub fn generate(source: &Tree) -> (result: Result<VMW, GenerateError>)
    requires
        source@.wf(),
    ensures
        match result {
            Ok(vmw) => generated(source@) == Ok::<VMWView, GenerateErrorView>(
                vmw@,
            ),
            Err(error) => generated(source@) == Err::<
                VMWView,
                GenerateErrorView,
            >(error@),
        },
{
    let ghost tree = source@;
    let ghost n = tree.procedures.len() as int;
    let mut bin: Vec<u8> = Vec::new();
    let mut procedures: Vec<(String, u64)> = Vec::new();
    let mut emitted_labels: Vec<(String, u64)> = Vec::new();
    let mut local_addresses: Vec<u64> = Vec::new();
    let mut external_procedures: Vec<(ExternalProcedure, u64)> = Vec::new();
    let mut itern_proc_place: Vec<(String, u64)> = Vec::new();
    let ghost mut addresses: Seq<Seq<u64>> = Seq::empty();
    let mut i: usize = 0;
    proof {
        assert(symbols_view(procedures@) =~= procedure_table(tree, 0));
        assert(names_of(symbols_view(emitted_labels@)) =~= labels_before(tree, 0));
        assert(local_addresses@ =~= offsets(tree, program_sites(tree, 0, ReferenceKind::Label)));
        assert(symbols_view(itern_proc_place@) =~= placeholders(
            tree,
            program_sites(tree, 0, ReferenceKind::Procedure),
        ));
        assert(externals_view(external_procedures@) =~= external_placeholders(
            tree,
            program_sites(tree, 0, ReferenceKind::External),
        ));
    }
    while i < source.procedures.len()
        invariant
            tree == source@,
            tree.wf(),
            n == tree.procedures.len(),
            n == source.procedures.len(),
            i <= n,
            forall|j: int| 0 <= j < i ==> !#[trigger] rejected_procedures(tree)(j),
            addresses.len() == i,
            fits(tree, addresses, i as int),
            forall|j: int|
                0 <= j < i ==> #[trigger] addresses[j] == staged_operands(tree, j, true, false),
            bin@ == image(tree, addresses, i as int),
            symbols_view(procedures@) == procedure_table(tree, i as int),
            names_of(symbols_view(emitted_labels@)) == labels_before(tree, i as int),
            local_addresses@ == offsets(tree, program_sites(tree, i as int, ReferenceKind::Label)),
            symbols_view(itern_proc_place@) == placeholders(
                tree,
                program_sites(tree, i as int, ReferenceKind::Procedure),
            ),
            externals_view(external_procedures@) == external_placeholders(
                tree,
                program_sites(tree, i as int, ReferenceKind::External),
            ),
        decreases n - i,
    {
        let name = &source.procedures[i].0;
        let procedure = &source.procedures[i].1;
        proof {
            assert(tree.procedures[i as int] == entry_view(
                source.procedures@[i as int],
            ));
            assert(names_of(procedure_table(tree, i as int)) =~= procedure_names(tree).take(
                i as int,
            ));
            lemma_image_len(tree, addresses, i as int);
        }
        if is_known(&procedures, name) || is_known(&emitted_labels, name) {
            proof {
                assert(rejected_procedures(tree)(i as int));
                lemma_first_index_is(n, rejected_procedures(tree), i as int);
            }
            return Err(GenerateError::DuplicateSymbol(name.clone()));
        }
        let start = offset_of(&bin);
        let ghost table = symbols_view(procedures@);
        procedures.push((name.clone(), start));
        proof {
            assert(symbols_view(procedures@) =~= table.push((name@, start)));
            assert(start == procedure_offset(tree, i as int));
            assert(table.push((name@, start)) =~= procedure_table(tree, i + 1));
            assert(names_of(procedure_table(tree, i + 1)) =~= procedure_names(tree).take(i + 1));
        }
        match emit_procedure(
            procedure,
            &procedures,
            &mut bin,
            &mut itern_proc_place,
            &mut external_procedures,
            Ghost(tree),
            Ghost(i as int),
        ) {
            Err(error) => {
                proof {
                    assert(rejected_procedures(tree)(i as int));
                    lemma_first_index_is(n, rejected_procedures(tree), i as int);
                }
                return Err(error);
            },
            Ok(parts) => {
                let (mut label_offsets, calls) = parts;
                let ghost staged = addresses.push(staged_operands(tree, i as int, false, false));
                proof {
                    lemma_image_agree(tree, addresses, staged, i as int);
                    assert(fits(tree, staged, i + 1));
                }
                match resolve_labels(
                    &mut bin,
                    &calls,
                    &label_offsets,
                    &mut local_addresses,
                    Ghost(tree),
                    Ghost(i as int),
                    Ghost(staged),
                ) {
                    Err(error) => {
                        proof {
                            assert(rejected_procedures(tree)(i as int));
                            lemma_first_index_is(n, rejected_procedures(tree), i as int);
                        }
                        return Err(error);
                    },
                    Ok(()) => {},
                }
                let ghost labels_before_append = names_of(symbols_view(emitted_labels@));
                emitted_labels.append(&mut label_offsets);
                proof {
                    assert(procedure_error(tree, i as int) is None);
                    assert(!rejected_procedures(tree)(i as int));
                    addresses = addresses.push(staged_operands(tree, i as int, true, false));
                    assert(staged.update(i as int, staged_operands(tree, i as int, true, false))
                        =~= addresses);
                    assert(fits(tree, addresses, i + 1));
                    assert(names_of(label_table(tree, i as int)) =~= label_names(
                        tree.procedures[i as int].1,
                    ));
                    assert(names_of(symbols_view(emitted_labels@)) =~= labels_before(
                        tree,
                        i + 1,
                    ));
                    assert(local_addresses@ =~= offsets(
                        tree,
                        program_sites(tree, i + 1, ReferenceKind::Label),
                    ));
                    assert(symbols_view(itern_proc_place@) =~= placeholders(
                        tree,
                        program_sites(tree, i + 1, ReferenceKind::Procedure),
                    ));
                    assert(externals_view(external_procedures@) =~= external_placeholders(
                        tree,
                        program_sites(tree, i + 1, ReferenceKind::External),
                    ));
                }
            },
        }
        i += 1;
    }
    proof {
        lemma_first_index_none(n, rejected_procedures(tree));
    }
    match resolve_procedures(
        &mut bin,
        &itern_proc_place,
        &procedures,
        &mut local_addresses,
        Ghost(tree),
        Ghost(addresses),
    ) {
        Err(error) => {
            return Err(error);
        },
        Ok(()) => {},
    }
    Ok(VMW::new(bin, procedures, local_addresses, external_procedures))
}

} // verus!
