use vstd::prelude::*;

verus! {

/// The instruction kinds of the virtual machine.
#[derive(Clone, Copy, Debug, PartialEq, Eq)]
pub enum OpcodeValues {
    Jmp,
    Jmps,
    JmpTrue,
    CmpU8,
    Spi,
    Spd,
    PushU8,
    PushU64,
    PopU8,
    SetU8,
    CplU8,
    CpgU8,
    Halt,
}

impl OpcodeValues {
    /// The number that stands for this instruction kind in the binary.
    pub open spec fn number(self) -> u16 {
        match self {
            OpcodeValues::Jmp => 0,
            OpcodeValues::Jmps => 1,
            OpcodeValues::JmpTrue => 2,
            OpcodeValues::CmpU8 => 3,
            OpcodeValues::Spi => 4,
            OpcodeValues::Spd => 5,
            OpcodeValues::PushU8 => 6,
            OpcodeValues::PushU64 => 7,
            OpcodeValues::PopU8 => 8,
            OpcodeValues::SetU8 => 9,
            OpcodeValues::CplU8 => 10,
            OpcodeValues::CpgU8 => 11,
            OpcodeValues::Halt => 12,
        }
    }

    /// The number that stands for this instruction kind in the binary.
    pub fn value(self) -> (v: u16)
        ensures
            v == self.number(),
    {
        match self {
            OpcodeValues::Jmp => 0,
            OpcodeValues::Jmps => 1,
            OpcodeValues::JmpTrue => 2,
            OpcodeValues::CmpU8 => 3,
            OpcodeValues::Spi => 4,
            OpcodeValues::Spd => 5,
            OpcodeValues::PushU8 => 6,
            OpcodeValues::PushU64 => 7,
            OpcodeValues::PopU8 => 8,
            OpcodeValues::SetU8 => 9,
            OpcodeValues::CplU8 => 10,
            OpcodeValues::CpgU8 => 11,
            OpcodeValues::Halt => 12,
        }
    }
}

} // verus!
