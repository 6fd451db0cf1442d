use crate::ast::{AddressView, OperationView};
use crate::binary::{be_bytes_u16, be_bytes_u64, overwritten_u64};
use crate::vm::OpcodeValues;
use vstd::prelude::*;

verus! {

/// The instruction kind of an operation.
pub open spec fn opcode_of(op: OperationView) -> OpcodeValues {
    match op {
        OperationView::Jmp(_) => OpcodeValues::Jmp,
        OperationView::Jmps => OpcodeValues::Jmps,
        OperationView::JmpTrue(_) => OpcodeValues::JmpTrue,
        OperationView::CmpU8 => OpcodeValues::CmpU8,
        OperationView::Spi(_) => OpcodeValues::Spi,
        OperationView::Spd(_) => OpcodeValues::Spd,
        OperationView::PushU8(_) => OpcodeValues::PushU8,
        OperationView::PushU64(_) => OpcodeValues::PushU64,
        OperationView::PopU8 => OpcodeValues::PopU8,
        OperationView::SetU8(_) => OpcodeValues::SetU8,
        OperationView::CplU8(_) => OpcodeValues::CplU8,
        OperationView::CpgU8(_) => OpcodeValues::CpgU8,
        OperationView::Halt => OpcodeValues::Halt,
    }
}

/// The address operand of an operation, if its kind takes one.
pub open spec fn address_of(op: OperationView) -> Option<AddressView> {
    match op {
        OperationView::Jmp(a) => Some(a),
        OperationView::JmpTrue(a) => Some(a),
        OperationView::PushU64(a) => Some(a),
        OperationView::SetU8(a) => Some(a),
        OperationView::CplU8(a) => Some(a),
        OperationView::CpgU8(a) => Some(a),
        _ => None,
    }
}

/// The bytes that follow the opcode of `op`, where `address` is the number
/// that its address operand, if it has one, stands for.
pub open spec fn operand_bytes(op: OperationView, address: u64) -> Seq<u8> {
    match op {
        OperationView::PushU8(value) => seq![value],
        OperationView::Spi(value) => be_bytes_u64(value),
        OperationView::Spd(value) => be_bytes_u64(value),
        _ => if address_of(op) is Some {
            be_bytes_u64(address)
        } else {
            Seq::empty()
        },
    }
}

/// The encoding of `op`: its opcode in two bytes and then its operand, where
/// `address` is the number that its address operand, if it has one, stands
/// for.
pub open spec fn operation_bytes(op: OperationView, address: u64) -> Seq<u8> {
    be_bytes_u16(opcode_of(op).number()) + operand_bytes(op, address)
}

/// The number of bytes that the encoding of `op` takes.
pub open spec fn operation_len(op: OperationView) -> nat {
    match op {
        OperationView::PushU8(_) => 3,
        OperationView::Spi(_) => 10,
        OperationView::Spd(_) => 10,
        _ => if address_of(op) is Some {
            10
        } else {
            2
        },
    }
}

/// The number of bytes that the encodings of `ops` take together.
pub open spec fn code_len(ops: Seq<OperationView>) -> nat
    decreases ops.len(),
{
    if ops.len() == 0 {
        0
    } else {
        code_len(ops.drop_last()) + operation_len(ops.last())
    }
}

/// The encodings of `ops`, one after the other, where `addresses[k]` is the
/// number that the address operand of `ops[k]` stands for.
pub open spec fn encode(ops: Seq<OperationView>, addresses: Seq<u64>) -> Seq<u8>
    decreases ops.len(),
{
    if ops.len() == 0 {
        Seq::empty()
    } else {
        encode(ops.drop_last(), addresses.drop_last()) + operation_bytes(
            ops.last(),
            addresses.last(),
        )
    }
}

pub proof fn lemma_operation_bytes_len(op: OperationView, address: u64)
    ensures
        operation_bytes(op, address).len() == operation_len(op),
        2 <= operation_len(op) <= 10,
{
}

/// The encodings of the first `k` operations end where that of operation `k`
/// starts, and that one ends before the whole does.
pub proof fn lemma_code_len_take(ops: Seq<OperationView>, k: int)
    requires
        0 <= k <= ops.len(),
    ensures
        code_len(ops.take(k)) <= code_len(ops),
        k < ops.len() ==> code_len(ops.take(k + 1)) == code_len(ops.take(k)) + operation_len(
            ops[k],
        ),
        k < ops.len() ==> code_len(ops.take(k)) + operation_len(ops[k]) <= code_len(ops),
    decreases ops.len() - k,
{
    if k == ops.len() {
        assert(ops.take(k) =~= ops);
    } else {
        assert(ops.take(k + 1).drop_last() =~= ops.take(k));
        lemma_code_len_take(ops, k + 1);
    }
}

pub proof fn lemma_encode_len(ops: Seq<OperationView>, addresses: Seq<u64>)
    requires
        ops.len() == addresses.len(),
    ensures
        encode(ops, addresses).len() == code_len(ops),
    decreases ops.len(),
{
    if ops.len() > 0 {
        lemma_encode_len(ops.drop_last(), addresses.drop_last());
        lemma_operation_bytes_len(ops.last(), addresses.last());
    }
}

pub proof fn lemma_encode_push(
    ops: Seq<OperationView>,
    addresses: Seq<u64>,
    op: OperationView,
    address: u64,
)
    requires
        ops.len() == addresses.len(),
    ensures
        encode(ops.push(op), addresses.push(address)) == encode(ops, addresses) + operation_bytes(
            op,
            address,
        ),
{
    assert(ops.push(op).drop_last() =~= ops);
    assert(addresses.push(address).drop_last() =~= addresses);
}

/// Writing a number over the address operand of operation `k` gives the
/// encoding in which that operand stands for the number.
pub proof fn lemma_encode_overwrite(
    ops: Seq<OperationView>,
    addresses: Seq<u64>,
    k: int,
    address: u64,
)
    requires
        ops.len() == addresses.len(),
        0 <= k < ops.len(),
        address_of(ops[k]) is Some,
    ensures
        overwritten_u64(encode(ops, addresses), (code_len(ops.take(k)) + 2) as int, address)
            == encode(ops, addresses.update(k, address)),
    decreases ops.len(),
{
    let init = ops.drop_last();
    let vinit = addresses.drop_last();
    lemma_encode_len(init, vinit);
    lemma_encode_len(ops, addresses);
    lemma_operation_bytes_len(ops.last(), addresses.last());
    if k == ops.len() - 1 {
        assert(ops.take(k) =~= init);
        assert(addresses.update(k, address).drop_last() =~= vinit);
        assert(addresses.update(k, address).last() == address);
        lemma_operation_bytes_len(ops.last(), address);
        assert(overwritten_u64(encode(ops, addresses), (code_len(ops.take(k)) + 2) as int, address)
            =~= encode(init, vinit) + operation_bytes(ops.last(), address));
    } else {
        lemma_encode_overwrite(init, vinit, k, address);
        assert(init.take(k) =~= ops.take(k));
        lemma_code_len_take(init, k);
        assert(addresses.update(k, address).drop_last() =~= vinit.update(k, address));
        assert(addresses.update(k, address).last() == addresses.last());
        assert(overwritten_u64(encode(ops, addresses), (code_len(ops.take(k)) + 2) as int, address)
            =~= overwritten_u64(encode(init, vinit), (code_len(init.take(k)) + 2) as int, address)
            + operation_bytes(ops.last(), addresses.last()));
    }
}

} // verus!
