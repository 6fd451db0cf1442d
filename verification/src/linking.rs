use crate::ast::{AddressView, OperationView, ProcedureView, TreeView};
use crate::encoding::{address_of, code_len, encode};
use crate::format_vmw::{ExternalProcedureView, VMWView};
use crate::search::{first_index, position};
use vstd::prelude::*;

verus! {

/// What a `GenerateError` stands for.
pub enum GenerateErrorView {
    DuplicateSymbol(Seq<char>),
    UnresolvedLabel(Seq<char>),
    UnresolvedProcedure(Seq<char>),
    IllegalOperand,
}

/// The operations of procedure `i`.
pub open spec fn operations_of(tree: TreeView, i: int) -> Seq<OperationView> {
    tree.procedures[i].1.operations
}

/// The names of the labels of `procedure`, in the order of their declaration.
pub open spec fn label_names(procedure: ProcedureView) -> Seq<Seq<char>> {
    procedure.labels.map_values(|l: (Seq<char>, nat)| l.0)
}

/// The names of the procedures of `tree`, in program order.
pub open spec fn procedure_names(tree: TreeView) -> Seq<Seq<char>> {
    tree.procedures.map_values(|e: (Seq<char>, ProcedureView)| e.0)
}

/// The offset in the code at which procedure `i` starts: the length of the
/// code of the procedures before it.
pub open spec fn procedure_offset(tree: TreeView, i: int) -> nat
    decreases i,
{
    if i <= 0 {
        0
    } else {
        procedure_offset(tree, i - 1) + code_len(operations_of(tree, i - 1))
    }
}

/// The offset in the code at which operation `k` of procedure `i` starts.
pub open spec fn operation_offset(tree: TreeView, i: int, k: int) -> nat {
    procedure_offset(tree, i) + code_len(operations_of(tree, i).take(k))
}

/// The offset in the code of the address operand of operation `k` of
/// procedure `i`: its opcode takes two bytes.
pub open spec fn operand_offset(tree: TreeView, i: int, k: int) -> nat {
    operation_offset(tree, i, k) + 2
}

/// The offset that the label `name` of procedure `i` stands for: that of the
/// operation that follows its first declaration.
pub open spec fn label_target(tree: TreeView, i: int, name: Seq<char>) -> nat {
    let procedure = tree.procedures[i].1;
    match position(label_names(procedure), name) {
        Some(j) => operation_offset(tree, i, procedure.labels[j].1 as int),
        None => 0,
    }
}

/// The offset that the procedure name `name` stands for: that of the first
/// procedure of that name.
pub open spec fn procedure_target(tree: TreeView, name: Seq<char>) -> nat {
    match position(procedure_names(tree), name) {
        Some(j) => procedure_offset(tree, j),
        None => 0,
    }
}

/// The number that is written for `address` in procedure `i`: a literal
/// itself, the offset that a label or a procedure of this module stands for,
/// and zero for a procedure of another module.
pub open spec fn target(tree: TreeView, i: int, address: AddressView) -> u64 {
    match address {
        AddressView::IntLiteral(value) => value,
        AddressView::Label(name) => label_target(tree, i, name) as u64,
        AddressView::ProcRef(name) => procedure_target(tree, name) as u64,
        AddressView::ExtProcRef { .. } => 0,
    }
}

/// For each operation of procedure `i`, the number written for its address
/// operand (zero where it has none).
pub open spec fn operands(tree: TreeView, i: int) -> Seq<u64> {
    Seq::new(
        operations_of(tree, i).len(),
        |k: int|
            match address_of(operations_of(tree, i)[k]) {
                Some(address) => target(tree, i, address),
                None => 0,
            },
    )
}

/// The code of procedure `i`.
pub open spec fn procedure_code(tree: TreeView, i: int) -> Seq<u8> {
    encode(operations_of(tree, i), operands(tree, i))
}

/// The code of the first `n` procedures.
pub open spec fn code_before(tree: TreeView, n: int) -> Seq<u8>
    decreases n,
{
    if n <= 0 {
        Seq::empty()
    } else {
        code_before(tree, n - 1) + procedure_code(tree, n - 1)
    }
}

/// The code of the program: that of its procedures in program order, every
/// address resolved.
pub open spec fn code(tree: TreeView) -> Seq<u8> {
    code_before(tree, tree.procedures.len() as int)
}

/// The kinds of address that are not written as they stand.
pub enum ReferenceKind {
    Label,
    Procedure,
    External,
}

/// The kind of reference that `op` makes, if it makes one.
pub open spec fn reference_kind(op: OperationView) -> Option<ReferenceKind> {
    match address_of(op) {
        Some(AddressView::Label(_)) => Some(ReferenceKind::Label),
        Some(AddressView::ProcRef(_)) => Some(ReferenceKind::Procedure),
        Some(AddressView::ExtProcRef { .. }) => Some(ReferenceKind::External),
        _ => None,
    }
}

/// The name of the label or procedure that `op` refers to.
pub open spec fn referenced_name(op: OperationView) -> Seq<char> {
    match address_of(op) {
        Some(AddressView::Label(name)) => name,
        Some(AddressView::ProcRef(name)) => name,
        Some(AddressView::ExtProcRef { procedure, .. }) => procedure,
        _ => Seq::empty(),
    }
}

/// The procedure of another module that `op` refers to.
pub open spec fn referenced_external(op: OperationView) -> ExternalProcedureView {
    match address_of(op) {
        Some(AddressView::ExtProcRef { module, procedure }) => ExternalProcedureView {
            module,
            procedure,
        },
        _ => ExternalProcedureView { module: Seq::empty(), procedure: Seq::empty() },
    }
}

/// The indices of the operations among `ops` that make a reference of kind
/// `kind`, in increasing order.
pub open spec fn sites(ops: Seq<OperationView>, kind: ReferenceKind) -> Seq<int>
    decreases ops.len(),
{
    if ops.len() == 0 {
        Seq::empty()
    } else if reference_kind(ops.last()) == Some(kind) {
        sites(ops.drop_last(), kind).push(ops.len() - 1)
    } else {
        sites(ops.drop_last(), kind)
    }
}

/// The operations `ks` of procedure `i`, each as the index of the procedure
/// and its own index in it.
pub open spec fn in_procedure(i: int, ks: Seq<int>) -> Seq<(int, int)> {
    ks.map_values(|k: int| (i, k))
}

/// The operations of the first `n` procedures that make a reference of kind
/// `kind`, in program order, each as the index of its procedure and its own
/// index in it.
pub open spec fn program_sites(tree: TreeView, n: int, kind: ReferenceKind) -> Seq<(int, int)>
    decreases n,
{
    if n <= 0 {
        Seq::empty()
    } else {
        program_sites(tree, n - 1, kind) + in_procedure(
            n - 1,
            sites(operations_of(tree, n - 1), kind),
        )
    }
}

/// For each site, the name that it refers to with the offset of its address
/// operand.
pub open spec fn placeholders(tree: TreeView, refs: Seq<(int, int)>) -> Seq<(Seq<char>, u64)> {
    refs.map_values(|s: (int, int)| placeholder(tree, s))
}

/// For each site, the procedure of another module that it refers to with the
/// offset of its address operand.
pub open spec fn external_placeholders(tree: TreeView, refs: Seq<(int, int)>) -> Seq<
    (ExternalProcedureView, u64),
> {
    refs.map_values(|s: (int, int)| external_placeholder(tree, s))
}

/// For each site, the offset of its address operand.
pub open spec fn offsets(tree: TreeView, refs: Seq<(int, int)>) -> Seq<u64> {
    refs.map_values(|s: (int, int)| placeholder(tree, s).1)
}

/// The name that the operation at `site` refers to, with the offset of its
/// address operand.
pub open spec fn placeholder(tree: TreeView, site: (int, int)) -> (Seq<char>, u64) {
    (
        referenced_name(operations_of(tree, site.0)[site.1]),
        operand_offset(tree, site.0, site.1) as u64,
    )
}

/// The procedure of another module that the operation at `site` refers to,
/// with the offset of its address operand.
pub open spec fn external_placeholder(tree: TreeView, site: (int, int)) -> (
    ExternalProcedureView,
    u64,
) {
    (
        referenced_external(operations_of(tree, site.0)[site.1]),
        operand_offset(tree, site.0, site.1) as u64,
    )
}

/// The offsets of the address operands that are resolved inside the module:
/// first those of the label references, then those of the references to
/// procedures, each group in program order.
pub open spec fn local_addresses(tree: TreeView) -> Seq<u64> {
    let n = tree.procedures.len() as int;
    offsets(tree, program_sites(tree, n, ReferenceKind::Label)) + offsets(
        tree,
        program_sites(tree, n, ReferenceKind::Procedure),
    )
}

/// The references to procedures of other modules, in program order.
pub open spec fn external_procedures(tree: TreeView) -> Seq<(ExternalProcedureView, u64)> {
    external_placeholders(
        tree,
        program_sites(tree, tree.procedures.len() as int, ReferenceKind::External),
    )
}

/// The offset of each label of procedure `i`, under its name: that of the
/// operation that follows the label.
pub open spec fn label_table(tree: TreeView, i: int) -> Seq<(Seq<char>, u64)> {
    Seq::new(
        tree.procedures[i].1.labels.len(),
        |j: int|
            (
                tree.procedures[i].1.labels[j].0,
                operation_offset(tree, i, tree.procedures[i].1.labels[j].1 as int) as u64,
            ),
    )
}

/// The names of the labels of the first `n` procedures.
pub open spec fn labels_before(tree: TreeView, n: int) -> Seq<Seq<char>>
    decreases n,
{
    if n <= 0 {
        Seq::empty()
    } else {
        labels_before(tree, n - 1) + label_names(tree.procedures[n - 1].1)
    }
}

/// The procedure table: each procedure's name with its offset, in program
/// order.
pub open spec fn procedure_table(tree: TreeView, n: int) -> Seq<(Seq<char>, u64)> {
    Seq::new(n as nat, |i: int| (tree.procedures[i].0, procedure_offset(tree, i) as u64))
}

/// The module that `tree` is assembled to, where it can be assembled.
pub open spec fn linked_module(tree: TreeView) -> VMWView {
    VMWView {
        bin: code(tree),
        procedures: procedure_table(tree, tree.procedures.len() as int),
        local_addresses: local_addresses(tree),
        external_procedures: external_procedures(tree),
    }
}

/// The name of procedure `i` is that of an earlier procedure, or of a label
/// of an earlier procedure.
pub open spec fn procedure_name_taken(tree: TreeView, i: int) -> bool {
    let name = tree.procedures[i].0;
    procedure_names(tree).take(i).contains(name) || labels_before(tree, i).contains(name)
}

/// The name of label `j` of procedure `i` is that of the procedure itself, of
/// an earlier procedure, or of an earlier label of the same procedure.
pub open spec fn label_name_taken(tree: TreeView, i: int, j: int) -> bool {
    let name = tree.procedures[i].1.labels[j].0;
    procedure_names(tree).take(i + 1).contains(name) || label_names(tree.procedures[i].1).take(
        j,
    ).contains(name)
}

/// The predicate that holds of the labels of procedure `i` whose names are
/// taken.
pub open spec fn taken_labels(tree: TreeView, i: int) -> spec_fn(int) -> bool {
    |j: int| label_name_taken(tree, i, j)
}

/// An operation that copies from a local address takes a literal only.
pub open spec fn illegal_operand(op: OperationView) -> bool {
    match op {
        OperationView::CplU8(address) => !(address is IntLiteral),
        _ => false,
    }
}

/// The predicate that holds of the operations among `ops` whose operand is
/// illegal.
pub open spec fn illegal_operations(ops: Seq<OperationView>) -> spec_fn(int) -> bool {
    |k: int| illegal_operand(ops[k])
}

/// The predicate that holds of the label references of procedure `i`, counted
/// in order, whose label the procedure does not declare.
pub open spec fn dangling_labels(tree: TreeView, i: int) -> spec_fn(int) -> bool {
    |r: int|
        position(
            label_names(tree.procedures[i].1),
            referenced_name(
                operations_of(tree, i)[sites(operations_of(tree, i), ReferenceKind::Label)[r]],
            ),
        ) is None
}

/// The predicate that holds of the references to procedures, counted in
/// program order, whose procedure the program does not hold.
pub open spec fn dangling_procedures(tree: TreeView) -> spec_fn(int) -> bool {
    |r: int|
        position(
            procedure_names(tree),
            placeholder(
                tree,
                program_sites(tree, tree.procedures.len() as int, ReferenceKind::Procedure)[r],
            ).0,
        ) is None
}

/// The error that stops the pass over the labels and operations of procedure
/// `i`. A label is registered when the operation that follows it is reached,
/// so of a taken label name and an illegal operand the one that comes first
/// in the procedure's text is reported.
pub open spec fn emission_error(tree: TreeView, i: int) -> Option<GenerateErrorView> {
    let procedure = tree.procedures[i].1;
    let label = first_index(procedure.labels.len() as int, taken_labels(tree, i));
    let operation = first_index(
        procedure.operations.len() as int,
        illegal_operations(procedure.operations),
    );
    match (label, operation) {
        (Some(j), Some(k)) => if procedure.labels[j].1 <= k {
            Some(GenerateErrorView::DuplicateSymbol(procedure.labels[j].0))
        } else {
            Some(GenerateErrorView::IllegalOperand)
        },
        (Some(j), None) => Some(GenerateErrorView::DuplicateSymbol(procedure.labels[j].0)),
        (None, Some(_)) => Some(GenerateErrorView::IllegalOperand),
        (None, None) => None,
    }
}

/// The error that resolving the label references of procedure `i` ends in:
/// the first of them, in order, that names no label of the procedure.
pub open spec fn label_error(tree: TreeView, i: int) -> Option<GenerateErrorView> {
    let refs = sites(operations_of(tree, i), ReferenceKind::Label);
    match first_index(refs.len() as int, dangling_labels(tree, i)) {
        Some(r) => Some(
            GenerateErrorView::UnresolvedLabel(
                referenced_name(operations_of(tree, i)[refs[r]]),
            ),
        ),
        None => None,
    }
}

/// The error that procedure `i` is rejected with, if it is: its name is
/// taken, or the pass over its labels and operations fails, or one of its
/// label references cannot be resolved.
pub open spec fn procedure_error(tree: TreeView, i: int) -> Option<GenerateErrorView> {
    if procedure_name_taken(tree, i) {
        Some(GenerateErrorView::DuplicateSymbol(tree.procedures[i].0))
    } else if emission_error(tree, i) is Some {
        emission_error(tree, i)
    } else {
        label_error(tree, i)
    }
}

/// The predicate that holds of the procedures that are rejected.
pub open spec fn rejected_procedures(tree: TreeView) -> spec_fn(int) -> bool {
    |i: int| procedure_error(tree, i) is Some
}

/// The error of the first procedure among the first `n` that is rejected.
pub open spec fn procedures_error(tree: TreeView, n: int) -> Option<GenerateErrorView> {
    match first_index(n, rejected_procedures(tree)) {
        Some(i) => procedure_error(tree, i),
        None => None,
    }
}

/// The error that resolving the references to procedures ends in: the first
/// of them, in program order, that names no procedure of the program.
pub open spec fn link_error(tree: TreeView) -> Option<GenerateErrorView> {
    let refs = program_sites(tree, tree.procedures.len() as int, ReferenceKind::Procedure);
    match first_index(refs.len() as int, dangling_procedures(tree)) {
        Some(r) => Some(GenerateErrorView::UnresolvedProcedure(placeholder(tree, refs[r]).0)),
        None => None,
    }
}

/// The error that assembling `tree` ends in, if it does: that of the first
/// procedure that is rejected, and where none is, that of the references to
/// procedures.
pub open spec fn generate_error(tree: TreeView) -> Option<GenerateErrorView> {
    let n = tree.procedures.len() as int;
    if procedures_error(tree, n) is Some {
        procedures_error(tree, n)
    } else {
        link_error(tree)
    }
}

/// What assembling `tree` gives: the module, or the first error.
pub open spec fn generated(tree: TreeView) -> Result<VMWView, GenerateErrorView> {
    match generate_error(tree) {
        Some(error) => Err(error),
        None => Ok(linked_module(tree)),
    }
}

/// The names of the entries of a symbol table.
pub open spec fn names_of(table: Seq<(Seq<char>, u64)>) -> Seq<Seq<char>> {
    table.map_values(|e: (Seq<char>, u64)| e.0)
}

/// The offset that `table` gives for `name`: that of the first entry of that
/// name.
pub open spec fn lookup(table: Seq<(Seq<char>, u64)>, name: Seq<char>) -> Option<u64> {
    match position(names_of(table), name) {
        Some(j) => Some(table[j].1),
        None => None,
    }
}

/// The number written for the address operand of `op` before any reference is
/// resolved: a literal itself, and zero in place of a reference.
pub open spec fn literal_operand(op: OperationView) -> u64 {
    match address_of(op) {
        Some(AddressView::IntLiteral(value)) => value,
        _ => 0,
    }
}

/// The offset of the address operand of an operation that starts at
/// `bin_offset`: two bytes on, in 64-bit arithmetic.
pub open spec fn operand_site(bin_offset: u64) -> u64 {
    if bin_offset + 2 <= u64::MAX {
        (bin_offset + 2) as u64
    } else {
        (bin_offset + 2 - 0x1_0000_0000_0000_0000) as u64
    }
}

/// The work that `op` leaves for resolving references of kind `kind`, where
/// `site` is the offset of its address operand: one entry if `op` makes such
/// a reference, and none otherwise.
pub open spec fn pending(op: OperationView, kind: ReferenceKind, site: u64) -> Seq<
    (Seq<char>, u64),
> {
    if reference_kind(op) == Some(kind) {
        seq![(referenced_name(op), site)]
    } else {
        Seq::empty()
    }
}

/// The work that `op` leaves for a loader, where `site` is the offset of its
/// address operand: one entry if `op` refers to a procedure of another module,
/// and none otherwise.
pub open spec fn pending_external(op: OperationView, site: u64) -> Seq<
    (ExternalProcedureView, u64),
> {
    if reference_kind(op) == Some(ReferenceKind::External) {
        seq![(referenced_external(op), site)]
    } else {
        Seq::empty()
    }
}

} // verus!
