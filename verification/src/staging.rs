use crate::ast::{AddressView, OperationView, TreeView};
use crate::binary::overwritten_u64;
use crate::encoding::{
    address_of, code_len, encode, lemma_code_len_take, lemma_encode_len, lemma_encode_overwrite,
};
use crate::linking::{
    code_before, operand_offset, operands, operations_of, procedure_offset, program_sites,
    reference_kind, sites, target, ReferenceKind,
};
use vstd::prelude::*;

verus! {

/// The number that stands for the address operand of `op` in procedure `i`
/// while the code is being built: a reference stands as zero until its kind
/// has been resolved.
pub open spec fn staged_operand(
    tree: TreeView,
    i: int,
    op: OperationView,
    labels: bool,
    procedures: bool,
) -> u64 {
    match address_of(op) {
        Some(AddressView::Label(name)) => if labels {
            target(tree, i, AddressView::Label(name))
        } else {
            0
        },
        Some(AddressView::ProcRef(name)) => if procedures {
            target(tree, i, AddressView::ProcRef(name))
        } else {
            0
        },
        Some(address) => target(tree, i, address),
        None => 0,
    }
}

/// For each operation of procedure `i`, its `staged_operand`.
pub open spec fn staged_operands(tree: TreeView, i: int, labels: bool, procedures: bool) -> Seq<
    u64,
> {
    Seq::new(
        operations_of(tree, i).len(),
        |k: int| staged_operand(tree, i, operations_of(tree, i)[k], labels, procedures),
    )
}

/// The code of the first `n` procedures in which `addresses[i][k]` stands for
/// the address operand of operation `k` of procedure `i`.
pub open spec fn image(tree: TreeView, addresses: Seq<Seq<u64>>, n: int) -> Seq<u8>
    decreases n,
{
    if n <= 0 {
        Seq::empty()
    } else {
        image(tree, addresses, n - 1) + encode(operations_of(tree, n - 1), addresses[n - 1])
    }
}

/// The addresses fit the operations of the first `n` procedures.
pub open spec fn fits(tree: TreeView, addresses: Seq<Seq<u64>>, n: int) -> bool {
    &&& 0 <= n <= tree.procedures.len()
    &&& n <= addresses.len()
    &&& forall|j: int|
        0 <= j < n ==> (#[trigger] addresses[j]).len() == operations_of(tree, j).len()
}

pub proof fn lemma_procedure_offset_monotonic(tree: TreeView, j: int, n: int)
    requires
        0 <= j < n,
    ensures
        procedure_offset(tree, j) + code_len(operations_of(tree, j)) <= procedure_offset(tree, n),
    decreases n - j,
{
    if j + 1 < n {
        lemma_procedure_offset_monotonic(tree, j + 1, n);
    }
}

pub proof fn lemma_image_len(tree: TreeView, addresses: Seq<Seq<u64>>, n: int)
    requires
        fits(tree, addresses, n),
    ensures
        image(tree, addresses, n).len() == procedure_offset(tree, n),
    decreases n,
{
    if n > 0 {
        lemma_image_len(tree, addresses, n - 1);
        lemma_encode_len(operations_of(tree, n - 1), addresses[n - 1]);
    }
}

pub proof fn lemma_image_agree(tree: TreeView, a: Seq<Seq<u64>>, b: Seq<Seq<u64>>, n: int)
    requires
        n <= a.len(),
        n <= b.len(),
        forall|j: int| 0 <= j < n ==> a[j] == b[j],
    ensures
        image(tree, a, n) == image(tree, b, n),
    decreases n,
{
    if n > 0 {
        lemma_image_agree(tree, a, b, n - 1);
    }
}

pub proof fn lemma_overwrite_in_prefix(a: Seq<u8>, b: Seq<u8>, offset: int, value: u64)
    requires
        0 <= offset,
        offset + 8 <= a.len(),
    ensures
        overwritten_u64(a + b, offset, value) == overwritten_u64(a, offset, value) + b,
{
    assert(overwritten_u64(a + b, offset, value) =~= overwritten_u64(a, offset, value) + b);
}

pub proof fn lemma_overwrite_in_suffix(a: Seq<u8>, b: Seq<u8>, offset: int, value: u64)
    requires
        0 <= offset,
        offset + 8 <= b.len(),
    ensures
        overwritten_u64(a + b, a.len() + offset, value) == a + overwritten_u64(b, offset, value),
{
    assert(overwritten_u64(a + b, a.len() + offset, value) =~= a + overwritten_u64(
        b,
        offset,
        value,
    ));
}

/// The address operand of an operation that has one lies inside the code of
/// its procedure.
pub proof fn lemma_operand_inside(ops: Seq<OperationView>, k: int)
    requires
        0 <= k < ops.len(),
        address_of(ops[k]) is Some,
    ensures
        code_len(ops.take(k)) + 10 <= code_len(ops),
{
    lemma_code_len_take(ops, k);
}

/// Writing a number over the address operand of operation `k` of procedure
/// `j` gives the code in which that operand stands for the number.
pub proof fn lemma_image_overwrite(
    tree: TreeView,
    addresses: Seq<Seq<u64>>,
    n: int,
    j: int,
    k: int,
    value: u64,
)
    requires
        fits(tree, addresses, n),
        0 <= j < n,
        0 <= k < operations_of(tree, j).len(),
        address_of(operations_of(tree, j)[k]) is Some,
    ensures
        overwritten_u64(image(tree, addresses, n), operand_offset(tree, j, k) as int, value)
            == image(tree, addresses.update(j, addresses[j].update(k, value)), n),
        fits(tree, addresses.update(j, addresses[j].update(k, value)), n),
    decreases n,
{
    let updated = addresses.update(j, addresses[j].update(k, value));
    let ops = operations_of(tree, j);
    let head = image(tree, addresses, n - 1);
    let last = encode(operations_of(tree, n - 1), addresses[n - 1]);
    lemma_image_len(tree, addresses, n - 1);
    lemma_encode_len(operations_of(tree, n - 1), addresses[n - 1]);
    lemma_operand_inside(ops, k);
    if j == n - 1 {
        lemma_image_agree(tree, addresses, updated, n - 1);
        lemma_encode_overwrite(ops, addresses[j], k, value);
        lemma_overwrite_in_suffix(head, last, (code_len(ops.take(k)) + 2) as int, value);
    } else {
        lemma_image_overwrite(tree, addresses, n - 1, j, k, value);
        lemma_procedure_offset_monotonic(tree, j, n - 1);
        lemma_overwrite_in_prefix(head, last, operand_offset(tree, j, k) as int, value);
    }
}

/// With every reference resolved, the code under construction is the code of
/// the program.
pub proof fn lemma_image_resolved(tree: TreeView, addresses: Seq<Seq<u64>>, n: int)
    requires
        fits(tree, addresses, n),
        forall|j: int|
            0 <= j < n ==> #[trigger] addresses[j] == staged_operands(tree, j, true, true),
    ensures
        image(tree, addresses, n) == code_before(tree, n),
    decreases n,
{
    if n > 0 {
        lemma_image_resolved(tree, addresses, n - 1);
        assert(addresses[n - 1] == staged_operands(tree, n - 1, true, true));
        assert(staged_operands(tree, n - 1, true, true) =~= operands(tree, n - 1));
    }
}

/// Each entry of `sites` is the index of an operation that makes a reference
/// of the kind asked for.
pub proof fn lemma_sites_sound(ops: Seq<OperationView>, kind: ReferenceKind, r: int)
    requires
        0 <= r < sites(ops, kind).len(),
    ensures
        0 <= sites(ops, kind)[r] < ops.len(),
        reference_kind(ops[sites(ops, kind)[r]]) == Some(kind),
    decreases ops.len(),
{
    if ops.len() > 0 {
        let rest = sites(ops.drop_last(), kind);
        if r < rest.len() {
            lemma_sites_sound(ops.drop_last(), kind, r);
        }
    }
}

/// Every operation that makes a reference of the kind asked for is an entry
/// of `sites`.
pub proof fn lemma_sites_complete(ops: Seq<OperationView>, kind: ReferenceKind, k: int)
    requires
        0 <= k < ops.len(),
        reference_kind(ops[k]) == Some(kind),
    ensures
        exists|r: int| 0 <= r < sites(ops, kind).len() && sites(ops, kind)[r] == k,
    decreases ops.len(),
{
    let rest = sites(ops.drop_last(), kind);
    if k == ops.len() - 1 {
        assert(sites(ops, kind)[rest.len() as int] == k);
    } else {
        lemma_sites_complete(ops.drop_last(), kind, k);
        let r = choose|r: int| 0 <= r < rest.len() && rest[r] == k;
        assert(sites(ops, kind)[r] == k);
    }
}

/// The sites among the first `k + 1` operations are those among the first
/// `k`, and `k` itself where operation `k` makes such a reference.
pub proof fn lemma_sites_step(ops: Seq<OperationView>, kind: ReferenceKind, k: int)
    requires
        0 <= k < ops.len(),
    ensures
        sites(ops.take(k + 1), kind) == if reference_kind(ops[k]) == Some(kind) {
            sites(ops.take(k), kind).push(k)
        } else {
            sites(ops.take(k), kind)
        },
{
    assert(ops.take(k + 1).drop_last() =~= ops.take(k));
}

/// Each entry of `program_sites` names an operation of one of the first `n`
/// procedures that makes a reference of the kind asked for.
pub proof fn lemma_program_sites_sound(tree: TreeView, n: int, kind: ReferenceKind, r: int)
    requires
        0 <= r < program_sites(tree, n, kind).len(),
    ensures
        0 <= program_sites(tree, n, kind)[r].0 < n,
        0 <= program_sites(tree, n, kind)[r].1 < operations_of(
            tree,
            program_sites(tree, n, kind)[r].0,
        ).len(),
        reference_kind(
            operations_of(tree, program_sites(tree, n, kind)[r].0)[program_sites(
                tree,
                n,
                kind,
            )[r].1],
        ) == Some(kind),
    decreases n,
{
    if n > 0 {
        let before = program_sites(tree, n - 1, kind);
        if r < before.len() {
            lemma_program_sites_sound(tree, n - 1, kind, r);
        } else {
            lemma_sites_sound(operations_of(tree, n - 1), kind, r - before.len());
        }
    }
}

/// Every operation of the first `n` procedures that makes a reference of the
/// kind asked for is an entry of `program_sites`.
pub proof fn lemma_program_sites_complete(
    tree: TreeView,
    n: int,
    kind: ReferenceKind,
    j: int,
    k: int,
)
    requires
        0 <= j < n,
        0 <= k < operations_of(tree, j).len(),
        reference_kind(operations_of(tree, j)[k]) == Some(kind),
    ensures
        exists|r: int|
            0 <= r < program_sites(tree, n, kind).len() && program_sites(tree, n, kind)[r] == (
                j,
                k,
            ),
    decreases n,
{
    let before = program_sites(tree, n - 1, kind);
    if j == n - 1 {
        lemma_sites_complete(operations_of(tree, j), kind, k);
        let r = choose|r: int|
            0 <= r < sites(operations_of(tree, j), kind).len() && sites(
                operations_of(tree, j),
                kind,
            )[r] == k;
        assert(program_sites(tree, n, kind)[before.len() + r] == (j, k));
    } else {
        lemma_program_sites_complete(tree, n - 1, kind, j, k);
        let r = choose|r: int| 0 <= r < before.len() && before[r] == (j, k);
        assert(program_sites(tree, n, kind)[r] == (j, k));
    }
}

} // verus!
