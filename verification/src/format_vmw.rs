use crate::binary::{be_bytes_u64, write_u64};
use vstd::prelude::*;
use vstd::slice::slice_to_vec;
use vstd::string::*;
use vstd::utf8::encode_utf8;

verus! {

/// An assembled module: the code, where each procedure starts in it, and
/// which addresses in it were filled in or are still to be filled in.
#[derive(Clone, Debug, PartialEq, Eq)]
pub struct VMW {
    bin: Vec<u8>,
    procedures: Vec<(String, u64)>,
    local_addresses: Vec<u64>,
    external_procedures: Vec<(ExternalProcedure, u64)>,
}

/// A procedure of another module, by the two names that identify it.
#[derive(Clone, Debug, PartialEq, Eq)]
pub struct ExternalProcedure {
    pub module: String,
    pub procedure: String,
}

/// What an `ExternalProcedure` stands for.
pub struct ExternalProcedureView {
    pub module: Seq<char>,
    pub procedure: Seq<char>,
}

/// What a `VMW` stands for.
pub struct VMWView {
    /// The encoded operations.
    pub bin: Seq<u8>,
    /// Each procedure's name with the offset of its first operation.
    pub procedures: Seq<(Seq<char>, u64)>,
    /// The offsets of the addresses that were resolved inside the module.
    pub local_addresses: Seq<u64>,
    /// Each reference to another module's procedure with the offset of the
    /// address that a loader has to fill in.
    pub external_procedures: Seq<(ExternalProcedureView, u64)>,
}

impl View for ExternalProcedure {
    type V = ExternalProcedureView;

    open spec fn view(&self) -> ExternalProcedureView {
        ExternalProcedureView { module: self.module@, procedure: self.procedure@ }
    }
}

/// What an entry of a procedure table stands for.
pub open spec fn symbol_view(entry: (String, u64)) -> (Seq<char>, u64) {
    (entry.0@, entry.1)
}

/// What an entry of an external relocation list stands for.
pub open spec fn external_view(entry: (ExternalProcedure, u64)) -> (ExternalProcedureView, u64) {
    (entry.0@, entry.1)
}

/// What a procedure table stands for.
pub open spec fn symbols_view(table: Seq<(String, u64)>) -> Seq<(Seq<char>, u64)> {
    table.map_values(|e: (String, u64)| symbol_view(e))
}

/// What an external relocation list stands for.
pub open spec fn externals_view(list: Seq<(ExternalProcedure, u64)>) -> Seq<
    (ExternalProcedureView, u64),
> {
    list.map_values(|e: (ExternalProcedure, u64)| external_view(e))
}

/// A name in a module file: the length of its UTF-8 encoding in eight bytes,
/// most significant first, and then the encoding.
pub open spec fn name_bytes(name: Seq<char>) -> Seq<u8> {
    be_bytes_u64(encode_utf8(name).len() as u64) + encode_utf8(name)
}

/// An entry of the procedure table in a module file: the name and the offset
/// in eight bytes.
pub open spec fn symbol_bytes(entry: (Seq<char>, u64)) -> Seq<u8> {
    name_bytes(entry.0) + be_bytes_u64(entry.1)
}

/// An entry of the external relocation table in a module file: the name of
/// the module, the name of the procedure and the offset in eight bytes.
pub open spec fn external_bytes(entry: (ExternalProcedureView, u64)) -> Seq<u8> {
    name_bytes(entry.0.module) + name_bytes(entry.0.procedure) + be_bytes_u64(entry.1)
}

/// The entries of a procedure table in a module file, one after the other.
pub open spec fn symbols_bytes(table: Seq<(Seq<char>, u64)>) -> Seq<u8>
    decreases table.len(),
{
    if table.len() == 0 {
        Seq::empty()
    } else {
        symbols_bytes(table.drop_last()) + symbol_bytes(table.last())
    }
}

/// The entries of an external relocation table in a module file, one after
/// the other.
pub open spec fn externals_bytes(list: Seq<(ExternalProcedureView, u64)>) -> Seq<u8>
    decreases list.len(),
{
    if list.len() == 0 {
        Seq::empty()
    } else {
        externals_bytes(list.drop_last()) + external_bytes(list.last())
    }
}

/// The module file: the number of procedures and the procedure table, the
/// number of external relocations and their table, the length of the code
/// and the code. Every number takes eight bytes, most significant first. The
/// offsets that were resolved inside the module are not part of the file.
pub open spec fn file_bytes(module: VMWView) -> Seq<u8> {
    be_bytes_u64(module.procedures.len() as u64) + symbols_bytes(module.procedures)
        + be_bytes_u64(module.external_procedures.len() as u64) + externals_bytes(
        module.external_procedures,
    ) + be_bytes_u64(module.bin.len() as u64) + module.bin
}

/// Appends `name` as it stands in a module file.
fn write_name(to: &mut Vec<u8>, name: &String)
    ensures
        final(to)@ == old(to)@ + name_bytes(name@),
{
    let mut encoded = name.as_str().as_bytes_vec();
    write_u64(to, encoded.len() as u64);
    to.append(&mut encoded);
    assert(to@ =~= old(to)@ + name_bytes(name@));
}

impl View for VMW {
    type V = VMWView;

    closed spec fn view(&self) -> VMWView {
        VMWView {
            bin: self.bin@,
            procedures: symbols_view(self.procedures@),
            local_addresses: self.local_addresses@,
            external_procedures: externals_view(self.external_procedures@),
        }
    }
}

impl VMW {
    /// The module that holds the four given parts.
    pub fn new(
        bin: Vec<u8>,
        procedures: Vec<(String, u64)>,
        local_addresses: Vec<u64>,
        external_procedures: Vec<(ExternalProcedure, u64)>,
    ) -> (vmw: VMW)
        ensures
            vmw@ == (VMWView {
                bin: bin@,
                procedures: symbols_view(procedures@),
                local_addresses: local_addresses@,
                external_procedures: externals_view(external_procedures@),
            }),
    {
        VMW { bin, procedures, local_addresses, external_procedures }
    }

    /// The encoded operations.
    pub fn bin(&self) -> (bin: &Vec<u8>)
        ensures
            bin@ == self@.bin,
    {
        &self.bin
    }

    /// Each procedure's name with the offset of its first operation.
    pub fn procedures(&self) -> (procedures: &Vec<(String, u64)>)
        ensures
            symbols_view(procedures@) == self@.procedures,
    {
        &self.procedures
    }

    /// The offsets of the addresses that were resolved inside the module.
    pub fn local_addresses(&self) -> (local_addresses: &Vec<u64>)
        ensures
            local_addresses@ == self@.local_addresses,
    {
        &self.local_addresses
    }

    /// Each reference to another module's procedure with the offset of the
    /// address that a loader has to fill in.
    pub fn external_procedures(&self) -> (external_procedures: &Vec<(ExternalProcedure, u64)>)
        ensures
            externals_view(external_procedures@) == self@.external_procedures,
    {
        &self.external_procedures
    }

    /// The module as the bytes of its file.
    pub fn to_file(&self) -> (bytes: Vec<u8>)
        ensures
            bytes@ == file_bytes(self@),
    {
        let mut bytes: Vec<u8> = Vec::new();
        write_u64(&mut bytes, self.procedures.len() as u64);
        let ghost head = bytes@;
        let mut i: usize = 0;
        while i < self.procedures.len()
            invariant
                i <= self.procedures.len(),
                bytes@ == head + symbols_bytes(symbols_view(self.procedures@).take(i as int)),
            decreases self.procedures.len() - i,
        {
            let ghost before = bytes@;
            write_name(&mut bytes, &self.procedures[i].0);
            write_u64(&mut bytes, self.procedures[i].1);
            proof {
                let table = symbols_view(self.procedures@);
                assert(table.take(i + 1).drop_last() =~= table.take(i as int));
                assert(bytes@ =~= before + symbol_bytes(table[i as int]));
                assert(bytes@ =~= head + symbols_bytes(table.take(i + 1)));
            }
            i += 1;
        }
        proof {
            let table = symbols_view(self.procedures@);
            assert(table.take(i as int) =~= table);
        }
        write_u64(&mut bytes, self.external_procedures.len() as u64);
        let ghost head = bytes@;
        let mut i: usize = 0;
        while i < self.external_procedures.len()
            invariant
                i <= self.external_procedures.len(),
                bytes@ == head + externals_bytes(
                    externals_view(self.external_procedures@).take(i as int),
                ),
            decreases self.external_procedures.len() - i,
        {
            let ghost before = bytes@;
            write_name(&mut bytes, &self.external_procedures[i].0.module);
            write_name(&mut bytes, &self.external_procedures[i].0.procedure);
            write_u64(&mut bytes, self.external_procedures[i].1);
            proof {
                let list = externals_view(self.external_procedures@);
                assert(list.take(i + 1).drop_last() =~= list.take(i as int));
                assert(bytes@ =~= before + external_bytes(list[i as int]));
                assert(bytes@ =~= head + externals_bytes(list.take(i + 1)));
            }
            i += 1;
        }
        proof {
            let list = externals_view(self.external_procedures@);
            assert(list.take(i as int) =~= list);
        }
        write_u64(&mut bytes, self.bin.len() as u64);
        let mut code = slice_to_vec(self.bin.as_slice());
        bytes.append(&mut code);
        proof {
            assert(bytes@ =~= file_bytes(self@));
        }
        bytes
    }
}

} // verus!
