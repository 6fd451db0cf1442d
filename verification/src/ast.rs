use vstd::prelude::*;

verus! {

/// A procedure: its operations in order, and where each label was declared.
#[derive(Clone, Debug, PartialEq, Eq)]
pub struct Procedure {
    /// Each label with the number of operations that precede it.
    pub labels: Vec<(String, usize)>,
    pub operations: Vec<Operation>,
}

/// A program: its procedures, each under its name, in source order.
#[derive(Clone, Debug, PartialEq, Eq)]
pub struct Tree {
    pub procedures: Vec<(String, Procedure)>,
}

#[derive(Clone, Debug, PartialEq, Eq)]
pub enum Operation {
    Jmp(Jmp),
    Jmps,
    JmpTrue(JmpTrue),
    CmpU8,
    Spi(Spi),
    Spd(Spd),
    PushU8(PushU8),
    PushU64(PushU64),
    PopU8,
    SetU8(SetU8),
    CplU8(CplU8),
    CpgU8(CpgU8),
    Halt,
}

/// A procedure of another module.
#[derive(Clone, Debug, PartialEq, Eq)]
pub struct ExtProcRef {
    pub module: String,
    pub procedure: String,
}

#[derive(Clone, Debug, PartialEq, Eq)]
pub struct CpgU8 {
    pub address: Address,
}

#[derive(Clone, Debug, PartialEq, Eq)]
pub struct CplU8 {
    pub address: Address,
}

#[derive(Clone, Debug, PartialEq, Eq)]
pub struct Jmp {
    pub address: Address,
}

#[derive(Clone, Debug, PartialEq, Eq)]
pub struct JmpTrue {
    pub address: Address,
}

#[derive(Clone, Debug, PartialEq, Eq)]
pub struct PushU64 {
    pub address: Address,
}

#[derive(Clone, Debug, PartialEq, Eq)]
pub struct PushU8 {
    pub value: u8,
}

#[derive(Clone, Debug, PartialEq, Eq)]
pub struct SetU8 {
    pub address: Address,
}

#[derive(Clone, Debug, PartialEq, Eq)]
pub struct Spd {
    pub value: u64,
}

#[derive(Clone, Debug, PartialEq, Eq)]
pub struct Spi {
    pub value: u64,
}

/// The operand of an operation that takes an address.
#[derive(Clone, Debug, PartialEq, Eq)]
pub enum Address {
    /// A label of the same procedure.
    Label(String),
    IntLiteral(u64),
    /// A procedure of the same module.
    ProcRef(String),
    ExtProcRef(ExtProcRef),
}

/// What an `Address` stands for.
pub enum AddressView {
    Label(Seq<char>),
    IntLiteral(u64),
    ProcRef(Seq<char>),
    ExtProcRef { module: Seq<char>, procedure: Seq<char> },
}

/// What an `Operation` stands for.
pub enum OperationView {
    Jmp(AddressView),
    Jmps,
    JmpTrue(AddressView),
    CmpU8,
    Spi(u64),
    Spd(u64),
    PushU8(u8),
    PushU64(AddressView),
    PopU8,
    SetU8(AddressView),
    CplU8(AddressView),
    CpgU8(AddressView),
    Halt,
}

/// What a `Procedure` stands for.
pub struct ProcedureView {
    pub labels: Seq<(Seq<char>, nat)>,
    pub operations: Seq<OperationView>,
}

/// What a `Tree` stands for.
pub struct TreeView {
    pub procedures: Seq<(Seq<char>, ProcedureView)>,
}

impl View for Address {
    type V = AddressView;

    open spec fn view(&self) -> AddressView {
        match self {
            Address::Label(name) => AddressView::Label(name@),
            Address::IntLiteral(value) => AddressView::IntLiteral(*value),
            Address::ProcRef(name) => AddressView::ProcRef(name@),
            Address::ExtProcRef(r) => AddressView::ExtProcRef {
                module: r.module@,
                procedure: r.procedure@,
            },
        }
    }
}

impl View for Operation {
    type V = OperationView;

    open spec fn view(&self) -> OperationView {
        match self {
            Operation::Jmp(d) => OperationView::Jmp(d.address@),
            Operation::Jmps => OperationView::Jmps,
            Operation::JmpTrue(d) => OperationView::JmpTrue(d.address@),
            Operation::CmpU8 => OperationView::CmpU8,
            Operation::Spi(d) => OperationView::Spi(d.value),
            Operation::Spd(d) => OperationView::Spd(d.value),
            Operation::PushU8(d) => OperationView::PushU8(d.value),
            Operation::PushU64(d) => OperationView::PushU64(d.address@),
            Operation::PopU8 => OperationView::PopU8,
            Operation::SetU8(d) => OperationView::SetU8(d.address@),
            Operation::CplU8(d) => OperationView::CplU8(d.address@),
            Operation::CpgU8(d) => OperationView::CpgU8(d.address@),
            Operation::Halt => OperationView::Halt,
        }
    }
}

/// What an entry of a label table stands for.
pub open spec fn label_view(label: (String, usize)) -> (Seq<char>, nat) {
    (label.0@, label.1 as nat)
}

/// What an entry of a program stands for.
pub open spec fn entry_view(entry: (String, Procedure)) -> (Seq<char>, ProcedureView) {
    (entry.0@, entry.1@)
}

impl View for Procedure {
    type V = ProcedureView;

    open spec fn view(&self) -> ProcedureView {
        ProcedureView {
            labels: self.labels@.map_values(|l: (String, usize)| label_view(l)),
            operations: self.operations@.map_values(|o: Operation| o@),
        }
    }
}

impl View for Tree {
    type V = TreeView;

    open spec fn view(&self) -> TreeView {
        TreeView { procedures: self.procedures@.map_values(|e: (String, Procedure)| entry_view(e)) }
    }
}

impl ProcedureView {
    /// Each label records a number of operations that the procedure has, and
    /// the labels stand in the order in which they were declared.
    pub open spec fn wf(self) -> bool {
        &&& forall|j: int|
            0 <= j < self.labels.len() ==> (#[trigger] self.labels[j]).1 <= self.operations.len()
        &&& forall|a: int, b: int|
            0 <= a <= b < self.labels.len() ==> (#[trigger] self.labels[a]).1 <= (
            #[trigger] self.labels[b]).1
    }
}

impl TreeView {
    /// Every procedure of the program is well formed.
    pub open spec fn wf(self) -> bool {
        forall|i: int|
            0 <= i < self.procedures.len() ==> (#[trigger] self.procedures[i]).1.wf()
    }
}

/// Whether each label of `procedure` records a number of operations that the
/// procedure has, and the labels stand in the order of their declaration.
pub fn procedure_is_well_formed(procedure: &Procedure) -> (ok: bool)
    ensures
        ok == procedure@.wf(),
{
    let mut j: usize = 0;
    while j < procedure.labels.len()
        invariant
            j <= procedure.labels.len(),
            forall|a: int|
                0 <= a < j ==> (#[trigger] procedure@.labels[a]).1 <= procedure@.operations.len(),
            forall|a: int, b: int|
                0 <= a <= b < j ==> (#[trigger] procedure@.labels[a]).1 <= (
                #[trigger] procedure@.labels[b]).1,
        decreases procedure.labels.len() - j,
    {
        assert(procedure@.labels[j as int] == label_view(procedure.labels@[j as int]));
        if procedure.labels[j].1 > procedure.operations.len() {
            return false;
        }
        if j > 0 {
            assert(procedure@.labels[j - 1] == label_view(procedure.labels@[j - 1]));
            if procedure.labels[j - 1].1 > procedure.labels[j].1 {
                return false;
            }
        }
        j += 1;
    }
    true
}

impl Tree {
    /// Whether every procedure of the program is well formed.
    pub fn is_well_formed(&self) -> (ok: bool)
        ensures
            ok == self@.wf(),
    {
        let mut i: usize = 0;
        while i < self.procedures.len()
            invariant
                i <= self.procedures.len(),
                forall|p: int| 0 <= p < i ==> (#[trigger] self@.procedures[p]).1.wf(),
            decreases self.procedures.len() - i,
        {
            assert(self@.procedures[i as int] == entry_view(self.procedures@[i as int]));
            if !procedure_is_well_formed(&self.procedures[i].1) {
                return false;
            }
            i += 1;
        }
        true
    }
}

} // verus!
