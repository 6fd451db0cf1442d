use crate::ast::{AddressView, TreeView};
use crate::binary::{be_bytes_u64, overwritten_u64};
use crate::encoding::address_of;
use crate::format_vmw::{ExternalProcedureView, VMWView};
use crate::linking::{
    code, dangling_labels, dangling_procedures, emission_error, external_placeholder,
    external_procedures, generate_error, generated, illegal_operand, illegal_operations,
    label_error, label_name_taken, label_names, labels_before, link_error, operand_offset, operands,
    operation_offset, operations_of, placeholder, procedure_error, procedure_name_taken,
    procedure_names, procedure_offset, procedures_error, program_sites, referenced_name,
    rejected_procedures,
    sites, taken_labels, GenerateErrorView, ReferenceKind,
};
use crate::search::{
    first_index, holds_name, lemma_first_index, lemma_first_index_is, lemma_first_index_none,
    lemma_position, lemma_position_contains,
};
use crate::staging::{
    fits, lemma_image_len, lemma_image_overwrite, lemma_image_resolved, lemma_operand_inside,
    lemma_procedure_offset_monotonic, lemma_program_sites_complete, lemma_program_sites_sound,
    lemma_sites_complete, lemma_sites_sound, staged_operands,
};
use vstd::prelude::*;

verus! {

/// The first index below `b` at which `p` holds is also the first below any
/// larger bound; where there is none and `p` holds at `b`, that is the first.
pub proof fn lemma_first_index_extends(n: int, b: int, p: spec_fn(int) -> bool)
    requires
        0 <= b <= n,
    ensures
        first_index(b, p) is Some ==> first_index(n, p) == first_index(b, p),
        first_index(b, p) is None && b < n && p(b) ==> first_index(n, p) == Some(b),
{
    lemma_first_index(b, p);
    match first_index(b, p) {
        Some(r) => {
            lemma_first_index_is(n, p, r);
        },
        None => {
            if b < n && p(b) {
                lemma_first_index_is(n, p, b);
            }
        },
    }
}

/// In the code of a program that is assembled, the eight bytes of each
/// address operand hold the number that the operand stands for.
pub proof fn lemma_operand_bytes(tree: TreeView, i: int, k: int)
    requires
        0 <= i < tree.procedures.len(),
        0 <= k < operations_of(tree, i).len(),
        address_of(operations_of(tree, i)[k]) is Some,
    ensures
        operand_offset(tree, i, k) + 8 <= code(tree).len(),
        code(tree).subrange(
            operand_offset(tree, i, k) as int,
            (operand_offset(tree, i, k) + 8) as int,
        )
            == be_bytes_u64(operands(tree, i)[k]),
{
    let n = tree.procedures.len() as int;
    let addresses = Seq::new(n as nat, |j: int| staged_operands(tree, j, true, true));
    let value = addresses[i][k];
    let offset = operand_offset(tree, i, k) as int;
    assert(fits(tree, addresses, n));
    lemma_image_resolved(tree, addresses, n);
    lemma_image_len(tree, addresses, n);
    lemma_operand_inside(operations_of(tree, i), k);
    lemma_procedure_offset_monotonic(tree, i, n);
    lemma_image_overwrite(tree, addresses, n, i, k, value);
    assert(addresses[i].update(k, value) =~= addresses[i]);
    assert(addresses.update(i, addresses[i].update(k, value)) =~= addresses);
    let c = code(tree);
    assert(c == overwritten_u64(c, offset, value));
    assert(c.subrange(offset, offset + 8) =~= be_bytes_u64(value)) by {
        assert forall|x: int| 0 <= x < 8 implies c.subrange(offset, offset + 8)[x]
            == be_bytes_u64(value)[x] by {
            assert(c[offset + x] == overwritten_u64(c, offset, value)[offset + x]);
        }
    }
    assert(value == operands(tree, i)[k]);
}

/// No procedure of a program that is assembled is rejected.
pub proof fn lemma_no_procedure_rejected(tree: TreeView, i: int)
    requires
        generate_error(tree) is None,
        0 <= i < tree.procedures.len(),
    ensures
        procedure_error(tree, i) is None,
{
    lemma_first_index(tree.procedures.len() as int, rejected_procedures(tree));
    assert(!rejected_procedures(tree)(i));
}

/// A reference to a label is written as the offset of the operation that
/// follows the label, and that is so whether the label is declared before
/// the reference or behind it: the place of the reference does not enter.
pub proof fn law_label_reference_resolves(tree: TreeView, i: int, k: int, j: int)
    requires
        generate_error(tree) is None,
        0 <= i < tree.procedures.len(),
        0 <= k < operations_of(tree, i).len(),
        0 <= j < tree.procedures[i].1.labels.len(),
        address_of(operations_of(tree, i)[k]) == Some(
            AddressView::Label(tree.procedures[i].1.labels[j].0),
        ),
    ensures
        generated(tree) is Ok,
        operand_offset(tree, i, k) + 8 <= code(tree).len(),
        code(tree).subrange(
            operand_offset(tree, i, k) as int,
            (operand_offset(tree, i, k) + 8) as int,
        )
            == be_bytes_u64(
            operation_offset(tree, i, tree.procedures[i].1.labels[j].1 as int) as u64,
        ),
{
    let procedure = tree.procedures[i].1;
    let names = label_names(procedure);
    let name = procedure.labels[j].0;
    lemma_no_procedure_rejected(tree, i);
    lemma_first_index(procedure.labels.len() as int, taken_labels(tree, i));
    assert(!taken_labels(tree, i)(j));
    assert forall|l: int| 0 <= l < j implies !#[trigger] holds_name(names, name)(l) by {
        if names[l] == name {
            assert(names.take(j)[l] == name);
            assert(label_name_taken(tree, i, j));
        }
    }
    assert(holds_name(names, name)(j));
    lemma_first_index_is(names.len() as int, holds_name(names, name), j);
    lemma_operand_bytes(tree, i, k);
}

/// A reference to a procedure of the module is written as the offset at
/// which that procedure starts, and that is so whether the procedure is
/// declared before the reference or behind it.
pub proof fn law_procedure_reference_resolves(tree: TreeView, i: int, k: int, j: int)
    requires
        generate_error(tree) is None,
        0 <= i < tree.procedures.len(),
        0 <= k < operations_of(tree, i).len(),
        0 <= j < tree.procedures.len(),
        address_of(operations_of(tree, i)[k]) == Some(AddressView::ProcRef(tree.procedures[j].0)),
    ensures
        generated(tree) is Ok,
        operand_offset(tree, i, k) + 8 <= code(tree).len(),
        code(tree).subrange(
            operand_offset(tree, i, k) as int,
            (operand_offset(tree, i, k) + 8) as int,
        )
            == be_bytes_u64(procedure_offset(tree, j) as u64),
{
    let names = procedure_names(tree);
    let name = tree.procedures[j].0;
    lemma_no_procedure_rejected(tree, j);
    assert forall|l: int| 0 <= l < j implies !#[trigger] holds_name(names, name)(l) by {
        if names[l] == name {
            assert(names.take(j)[l] == name);
            assert(procedure_name_taken(tree, j));
        }
    }
    assert(holds_name(names, name)(j));
    lemma_first_index_is(names.len() as int, holds_name(names, name), j);
    lemma_operand_bytes(tree, i, k);
}

/// A reference to a procedure of another module is written as zero and is
/// listed, with the offset of its address operand, for a loader.
pub proof fn law_external_reference_is_listed(
    tree: TreeView,
    i: int,
    k: int,
    module: Seq<char>,
    procedure: Seq<char>,
)
    requires
        generate_error(tree) is None,
        0 <= i < tree.procedures.len(),
        0 <= k < operations_of(tree, i).len(),
        address_of(operations_of(tree, i)[k]) == Some(
            AddressView::ExtProcRef { module, procedure },
        ),
    ensures
        code(tree).subrange(
            operand_offset(tree, i, k) as int,
            (operand_offset(tree, i, k) + 8) as int,
        )
            == be_bytes_u64(0),
        external_procedures(tree).contains(
            (ExternalProcedureView { module, procedure }, operand_offset(tree, i, k) as u64),
        ),
{
    let n = tree.procedures.len() as int;
    lemma_operand_bytes(tree, i, k);
    lemma_program_sites_complete(tree, n, ReferenceKind::External, i, k);
    let refs = program_sites(tree, n, ReferenceKind::External);
    let r = choose|r: int| 0 <= r < refs.len() && refs[r] == (i, k);
    assert(external_procedures(tree)[r] == external_placeholder(tree, (i, k)));
}

/// Two procedures of one name: the program is refused with
/// `DuplicateSymbol`, unless an earlier procedure is refused for another
/// reason first.
pub proof fn law_duplicate_procedure(tree: TreeView, a: int, b: int)
    requires
        0 <= a < b < tree.procedures.len(),
        tree.procedures[a].0 == tree.procedures[b].0,
        procedures_error(tree, b) is None || procedures_error(tree, b) matches Some(
            GenerateErrorView::DuplicateSymbol(_),
        ),
    ensures
        generated(tree) matches Err(GenerateErrorView::DuplicateSymbol(_)),
{
    let n = tree.procedures.len() as int;
    let names = procedure_names(tree);
    assert(names.take(b)[a] == tree.procedures[b].0);
    assert(procedure_name_taken(tree, b));
    assert(rejected_procedures(tree)(b));
    lemma_first_index(b, rejected_procedures(tree));
    lemma_first_index_extends(n, b, rejected_procedures(tree));
}

/// Two labels of one name in one procedure: the program is refused with
/// `DuplicateSymbol`, unless an earlier procedure is refused for another
/// reason, or an illegal operand stands before the place where the name is
/// met again.
pub proof fn law_duplicate_label(tree: TreeView, i: int, a: int, b: int)
    requires
        0 <= i < tree.procedures.len(),
        0 <= a < b < tree.procedures[i].1.labels.len(),
        tree.procedures[i].1.labels[a].0 == tree.procedures[i].1.labels[b].0,
        procedures_error(tree, i) is None || procedures_error(tree, i) matches Some(
            GenerateErrorView::DuplicateSymbol(_),
        ),
        procedure_error(tree, i) != Some(GenerateErrorView::IllegalOperand),
    ensures
        generated(tree) matches Err(GenerateErrorView::DuplicateSymbol(_)),
{
    let n = tree.procedures.len() as int;
    let procedure = tree.procedures[i].1;
    let names = label_names(procedure);
    assert(names.take(b)[a] == procedure.labels[b].0);
    assert(label_name_taken(tree, i, b));
    assert(taken_labels(tree, i)(b));
    lemma_first_index(procedure.labels.len() as int, taken_labels(tree, i));
    lemma_first_index(
        procedure.operations.len() as int,
        illegal_operations(procedure.operations),
    );
    assert(emission_error(tree, i) is Some);
    assert(rejected_procedures(tree)(i));
    lemma_first_index(i, rejected_procedures(tree));
    lemma_first_index_extends(n, i, rejected_procedures(tree));
}

/// A reference to a label that its procedure does not declare: the program
/// is refused with `UnresolvedLabel`, unless an earlier procedure, or the
/// pass over this one, is refused for another reason first.
pub proof fn law_undeclared_label(tree: TreeView, i: int, k: int, name: Seq<char>)
    requires
        0 <= i < tree.procedures.len(),
        0 <= k < operations_of(tree, i).len(),
        address_of(operations_of(tree, i)[k]) == Some(AddressView::Label(name)),
        !label_names(tree.procedures[i].1).contains(name),
        procedures_error(tree, i) is None || procedures_error(tree, i) matches Some(
            GenerateErrorView::UnresolvedLabel(_),
        ),
        !procedure_name_taken(tree, i),
        emission_error(tree, i) is None,
    ensures
        generated(tree) matches Err(GenerateErrorView::UnresolvedLabel(_)),
{
    let n = tree.procedures.len() as int;
    let ops = operations_of(tree, i);
    let refs = sites(ops, ReferenceKind::Label);
    lemma_sites_complete(ops, ReferenceKind::Label, k);
    let r = choose|r: int| 0 <= r < refs.len() && refs[r] == k;
    lemma_position(label_names(tree.procedures[i].1), name);
    assert(dangling_labels(tree, i)(r));
    lemma_first_index(refs.len() as int, dangling_labels(tree, i));
    assert(label_error(tree, i) is Some);
    assert(rejected_procedures(tree)(i));
    lemma_first_index(i, rejected_procedures(tree));
    lemma_first_index_extends(n, i, rejected_procedures(tree));
}

/// A reference to a procedure that the program does not hold: the program is
/// refused with `UnresolvedProcedure`, unless one of its procedures is
/// refused first.
pub proof fn law_undeclared_procedure(tree: TreeView, i: int, k: int, name: Seq<char>)
    requires
        0 <= i < tree.procedures.len(),
        0 <= k < operations_of(tree, i).len(),
        address_of(operations_of(tree, i)[k]) == Some(AddressView::ProcRef(name)),
        !procedure_names(tree).contains(name),
        procedures_error(tree, tree.procedures.len() as int) is None,
    ensures
        generated(tree) matches Err(GenerateErrorView::UnresolvedProcedure(_)),
{
    let n = tree.procedures.len() as int;
    let refs = program_sites(tree, n, ReferenceKind::Procedure);
    lemma_program_sites_complete(tree, n, ReferenceKind::Procedure, i, k);
    let r = choose|r: int| 0 <= r < refs.len() && refs[r] == (i, k);
    lemma_position(procedure_names(tree), name);
    assert(placeholder(tree, refs[r]).0 == name);
    assert(dangling_procedures(tree)(r));
    lemma_first_index(refs.len() as int, dangling_procedures(tree));
    assert(link_error(tree) is Some);
}

/// An operation that takes a literal only and is given a reference: the
/// program is refused with `IllegalOperand`, unless an earlier procedure is
/// refused for another reason, or a name of this procedure is found taken,
/// first.
pub proof fn law_illegal_operand(tree: TreeView, i: int, k: int)
    requires
        0 <= i < tree.procedures.len(),
        0 <= k < operations_of(tree, i).len(),
        illegal_operand(operations_of(tree, i)[k]),
        procedures_error(tree, i) is None || procedures_error(tree, i)
            == Some(GenerateErrorView::IllegalOperand),
        !(procedure_error(tree, i) matches Some(GenerateErrorView::DuplicateSymbol(_))),
    ensures
        generated(tree) == Err::<VMWView, GenerateErrorView>(
            GenerateErrorView::IllegalOperand,
        ),
{
    let n = tree.procedures.len() as int;
    let procedure = tree.procedures[i].1;
    assert(illegal_operations(procedure.operations)(k));
    lemma_first_index(procedure.labels.len() as int, taken_labels(tree, i));
    lemma_first_index(
        procedure.operations.len() as int,
        illegal_operations(procedure.operations),
    );
    assert(emission_error(tree, i) is Some);
    assert(rejected_procedures(tree)(i));
    lemma_first_index(i, rejected_procedures(tree));
    lemma_first_index_extends(n, i, rejected_procedures(tree));
}

/// In a program that is assembled, no name is used twice: the procedures
/// have different names, the labels of each procedure have different names,
/// and no label has the name of a procedure.
pub proof fn law_names_are_unique(tree: TreeView)
    requires
        generate_error(tree) is None,
    ensures
        forall|a: int, b: int|
            0 <= a < b < tree.procedures.len() ==> (#[trigger] tree.procedures[a]).0 != (
            #[trigger] tree.procedures[b]).0,
        forall|i: int, a: int, b: int|
            0 <= i < tree.procedures.len() && 0 <= a < b < tree.procedures[i].1.labels.len() ==> (
            #[trigger] tree.procedures[i].1.labels[a]).0 != (
            #[trigger] tree.procedures[i].1.labels[b]).0,
        forall|i: int, j: int, p: int|
            0 <= i < tree.procedures.len() && 0 <= j < tree.procedures[i].1.labels.len() && 0
                <= p < tree.procedures.len() ==> (#[trigger] tree.procedures[i].1.labels[j]).0 != (
            #[trigger] tree.procedures[p]).0,
{
    let n = tree.procedures.len() as int;
    assert forall|a: int, b: int| 0 <= a < b < n implies (#[trigger] tree.procedures[a]).0 != (
        #[trigger] tree.procedures[b]).0 by {
        lemma_no_procedure_rejected(tree, b);
        if tree.procedures[a].0 == tree.procedures[b].0 {
            assert(procedure_names(tree).take(b)[a] == tree.procedures[b].0);
        }
    }
    assert forall|i: int, a: int, b: int|
        0 <= i < n && 0 <= a < b < tree.procedures[i].1.labels.len() implies (
        #[trigger] tree.procedures[i].1.labels[a]).0 != (
        #[trigger] tree.procedures[i].1.labels[b]).0 by {
        lemma_no_procedure_rejected(tree, i);
        lemma_first_index(tree.procedures[i].1.labels.len() as int, taken_labels(tree, i));
        assert(!taken_labels(tree, i)(b));
        if tree.procedures[i].1.labels[a].0 == tree.procedures[i].1.labels[b].0 {
            assert(label_names(tree.procedures[i].1).take(b)[a]
                == tree.procedures[i].1.labels[b].0);
        }
    }
    assert forall|i: int, j: int, p: int|
        0 <= i < n && 0 <= j < tree.procedures[i].1.labels.len() && 0 <= p < n implies (
        #[trigger] tree.procedures[i].1.labels[j]).0 != (#[trigger] tree.procedures[p]).0 by {
        let name = tree.procedures[p].0;
        if tree.procedures[i].1.labels[j].0 == name {
            if p <= i {
                lemma_no_procedure_rejected(tree, i);
                lemma_first_index(
                    tree.procedures[i].1.labels.len() as int,
                    taken_labels(tree, i),
                );
                assert(!taken_labels(tree, i)(j));
                assert(procedure_names(tree).take(i + 1)[p] == name);
            } else {
                lemma_no_procedure_rejected(tree, p);
                lemma_labels_before_hold(tree, p, i, j);
            }
        }
    }
}

/// The names of the labels of the first `n` procedures hold each label of
/// each of them.
pub proof fn lemma_labels_before_hold(tree: TreeView, n: int, i: int, j: int)
    requires
        0 <= i < n,
        0 <= j < tree.procedures[i].1.labels.len(),
    ensures
        labels_before(tree, n).contains(tree.procedures[i].1.labels[j].0),
    decreases n,
{
    let before = labels_before(tree, n - 1);
    let all = labels_before(tree, n);
    if i == n - 1 {
        assert(all[before.len() + j] == tree.procedures[i].1.labels[j].0);
    } else {
        lemma_labels_before_hold(tree, n - 1, i, j);
        let name = tree.procedures[i].1.labels[j].0;
        let r = choose|r: int| 0 <= r < before.len() && before[r] == name;
        assert(all[r] == before[r]);
    }
}

/// What a program needs to be assembled: no procedure and no label has a
/// name that is taken, no operation has an illegal operand, every label
/// reference names a label of its procedure, and every reference to a
/// procedure of this module names a procedure of the program.
pub open spec fn well_linked(tree: TreeView) -> bool {
    &&& forall|i: int| 0 <= i < tree.procedures.len() ==> !#[trigger] procedure_name_taken(tree, i)
    &&& forall|i: int, j: int|
        0 <= i < tree.procedures.len() && 0 <= j < tree.procedures[i].1.labels.len()
            ==> !#[trigger] label_name_taken(tree, i, j)
    &&& forall|i: int, k: int|
        0 <= i < tree.procedures.len() && 0 <= k < operations_of(tree, i).len()
            ==> !illegal_operand(#[trigger] operations_of(tree, i)[k])
    &&& forall|i: int, k: int, name: Seq<char>|
        0 <= i < tree.procedures.len() && 0 <= k < operations_of(tree, i).len() && address_of(
            #[trigger] operations_of(tree, i)[k],
        ) == Some(AddressView::Label(name)) ==> #[trigger] label_names(
            tree.procedures[i].1,
        ).contains(name)
    &&& forall|i: int, k: int, name: Seq<char>|
        0 <= i < tree.procedures.len() && 0 <= k < operations_of(tree, i).len() && address_of(
            #[trigger] operations_of(tree, i)[k],
        ) == Some(AddressView::ProcRef(name)) ==> #[trigger] procedure_names(tree).contains(name)
}

/// A program that is well linked is assembled.
pub proof fn lemma_well_linked_is_assembled(tree: TreeView)
    requires
        well_linked(tree),
    ensures
        generate_error(tree) is None,
{
    let n = tree.procedures.len() as int;
    assert forall|i: int| 0 <= i < n implies !#[trigger] rejected_procedures(tree)(i) by {
        let procedure = tree.procedures[i].1;
        let ops = operations_of(tree, i);
        assert(!procedure_name_taken(tree, i));
        assert forall|j: int| 0 <= j < procedure.labels.len() implies !#[trigger] taken_labels(
            tree,
            i,
        )(j) by {
            assert(!label_name_taken(tree, i, j));
        }
        lemma_first_index_none(procedure.labels.len() as int, taken_labels(tree, i));
        assert forall|k: int| 0 <= k < ops.len() implies !#[trigger] illegal_operations(ops)(
            k,
        ) by {
            assert(!illegal_operand(operations_of(tree, i)[k]));
        }
        lemma_first_index_none(ops.len() as int, illegal_operations(ops));
        let refs = sites(ops, ReferenceKind::Label);
        assert forall|r: int| 0 <= r < refs.len() implies !#[trigger] dangling_labels(tree, i)(
            r,
        ) by {
            lemma_sites_sound(ops, ReferenceKind::Label, r);
            let name = referenced_name(ops[refs[r]]);
            assert(address_of(operations_of(tree, i)[refs[r]]) == Some(AddressView::Label(name)));
            assert(label_names(tree.procedures[i].1).contains(name));
            lemma_position_contains(label_names(procedure), name);
        }
        lemma_first_index_none(refs.len() as int, dangling_labels(tree, i));
        assert(procedure_error(tree, i) is None);
    }
    lemma_first_index_none(n, rejected_procedures(tree));
    let refs = program_sites(tree, n, ReferenceKind::Procedure);
    assert forall|r: int| 0 <= r < refs.len() implies !#[trigger] dangling_procedures(tree)(
        r,
    ) by {
        lemma_program_sites_sound(tree, n, ReferenceKind::Procedure, r);
        let site = refs[r];
        let name = placeholder(tree, site).0;
        assert(address_of(operations_of(tree, site.0)[site.1]) == Some(
            AddressView::ProcRef(name),
        ));
        assert(procedure_names(tree).contains(name));
        lemma_position_contains(procedure_names(tree), name);
    }
    lemma_first_index_none(refs.len() as int, dangling_procedures(tree));
}

/// A program that is assembled is well linked.
pub proof fn lemma_assembled_is_well_linked(tree: TreeView)
    requires
        generate_error(tree) is None,
    ensures
        well_linked(tree),
{
    let n = tree.procedures.len() as int;
    assert forall|i: int| 0 <= i < n implies !#[trigger] procedure_name_taken(tree, i) by {
        lemma_no_procedure_rejected(tree, i);
    }
    assert forall|i: int, j: int|
        0 <= i < n && 0 <= j < tree.procedures[i].1.labels.len() implies !#[trigger] label_name_taken(
        tree,
        i,
        j,
    ) by {
        lemma_no_procedure_rejected(tree, i);
        lemma_first_index(tree.procedures[i].1.labels.len() as int, taken_labels(tree, i));
        assert(!taken_labels(tree, i)(j));
    }
    assert forall|i: int, k: int|
        0 <= i < n && 0 <= k < operations_of(tree, i).len() implies !illegal_operand(
        #[trigger] operations_of(tree, i)[k],
    ) by {
        lemma_no_procedure_rejected(tree, i);
        lemma_first_index(
            operations_of(tree, i).len() as int,
            illegal_operations(operations_of(tree, i)),
        );
        assert(!illegal_operations(operations_of(tree, i))(k));
    }
    assert forall|i: int, k: int, name: Seq<char>|
        0 <= i < n && 0 <= k < operations_of(tree, i).len() && address_of(
            #[trigger] operations_of(tree, i)[k],
        ) == Some(AddressView::Label(name)) implies #[trigger] label_names(
        tree.procedures[i].1,
    ).contains(name) by {
        let ops = operations_of(tree, i);
        let refs = sites(ops, ReferenceKind::Label);
        lemma_no_procedure_rejected(tree, i);
        lemma_sites_complete(ops, ReferenceKind::Label, k);
        let r = choose|r: int| 0 <= r < refs.len() && refs[r] == k;
        lemma_first_index(refs.len() as int, dangling_labels(tree, i));
        assert(!dangling_labels(tree, i)(r));
        lemma_position_contains(label_names(tree.procedures[i].1), name);
    }
    assert forall|i: int, k: int, name: Seq<char>|
        0 <= i < n && 0 <= k < operations_of(tree, i).len() && address_of(
            #[trigger] operations_of(tree, i)[k],
        ) == Some(AddressView::ProcRef(name)) implies #[trigger] procedure_names(tree).contains(
        name,
    ) by {
        let refs = program_sites(tree, n, ReferenceKind::Procedure);
        lemma_program_sites_complete(tree, n, ReferenceKind::Procedure, i, k);
        let r = choose|r: int| 0 <= r < refs.len() && refs[r] == (i, k);
        lemma_first_index(refs.len() as int, dangling_procedures(tree));
        assert(!dangling_procedures(tree)(r));
        assert(placeholder(tree, refs[r]).0 == name);
        lemma_position_contains(procedure_names(tree), name);
    }
}

/// A program is assembled exactly where it is well linked; otherwise it is
/// refused.
pub proof fn law_assembled_exactly_when_well_linked(tree: TreeView)
    ensures
        generated(tree) is Ok <==> well_linked(tree),
{
    if well_linked(tree) {
        lemma_well_linked_is_assembled(tree);
    }
    if generate_error(tree) is None {
        lemma_assembled_is_well_linked(tree);
    }
}

} // verus!
