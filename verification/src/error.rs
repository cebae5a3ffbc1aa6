//! Everything that can go wrong in a decision.
use vstd::prelude::*;

use crate::fpga::Voltage;
use crate::programmer::Programmer;

verus! {

/// Why a request cannot be carried out.
#[derive(Debug, Clone, Copy, PartialEq, Eq, Structural)]
pub enum Error {
    /// Chips of this manufacturer have no unique identifier.
    NoUniqueId { mfr: u8 },
    /// All blocks and one address were asked for.
    GlobalAndAddress,
    /// Neither all blocks nor an address was asked for.
    GlobalOrAddress,
    OffsetExceedsChip { offset: u32, size: u32 },
    LengthExceedsChip { len: u32, available: u32 },
    FileExceedsChip { file: usize, available: u32 },
    /// A file that is written to a region must fill it.
    RegionSizeMismatch { file: usize, region: u32 },
    /// A file must have just the bytes that are compared.
    CompareLength { file: usize, len: u32 },
    ChipWithoutQuad,
    /// Only Mach1 routes the lines that quad reads need.
    QuadNeedsMach1,
    /// No firmware map on the chip.
    NoFmap,
    RegionNotFound,
    /// The region runs past the 32-bit address space.
    RegionOverflow,
    RegionExceedsChip { offset: u32, end: u32, size: u32 },
    /// Programmers with an FPGA do not have 5V.
    FpgaNo5v,
    /// Programmers without an FPGA do not have 1.8V.
    ClassicNo1v8,
    /// The quad interface cannot run at this clock.
    SqiClock { mhz: u8 },
    /// It is not known where this manufacturer keeps its quad enable bit.
    QuadUnsupported { mfr: u8 },
    /// Block locks are Winbond's only.
    NotWinbond { mfr: u8 },
    AddressOutOfRange { addr: u32, size: u32 },
    /// A block lock read brought nothing.
    EmptyBlockLock,
    /// SRP0 is set: the status register does not take writes.
    StatusLocked,
    /// The BP bits are not all set after protecting.
    ProtectRejected { readback: u8 },
    /// The BP bits are not all clear after unprotecting.
    UnprotectRejected { readback: u8 },
    /// A status register read brought nothing.
    EmptyStatus { opcode: u8 },
    /// No chip answered.
    NoChipDetected,
    /// An identification of less than three bytes.
    ShortRdid { bytes: usize },
    /// Several database entries with different voltages share the identifier, and it could
    /// not be settled which one this is; `sfdp` tells whether the chip described itself.
    AmbiguousRdid { mfr: u8, id1: u8, id2: u8, sfdp: bool },
    /// A chip at 1.8V that neither the database nor SFDP describes.
    UnknownAt1v8 { mfr: u8, id1: u8, id2: u8 },
    /// A 1.8V chip was found while probing at 3.3V.
    Requires1v8 { mfr: u8, id1: u8, id2: u8 },
    /// The chip is made for another voltage than the one that was asked for.
    VoltageMismatch { required: Voltage, target: Voltage },
    /// The programmer cannot apply this voltage.
    UnsupportedVoltage { kind: Programmer, voltage: Voltage },
    /// The SFDP header does not begin with its signature.
    SfdpMagic,
    /// No JEDEC Basic Flash Parameter table in the SFDP headers.
    SfdpNoBasicTable,
    /// A JEDEC Basic table too short to hold the density.
    SfdpTableTooShort { bytes: usize },
    /// A density exponent of less than one byte.
    SfdpDensityTooSmall { exponent: u32 },
    /// A density of 4 GiB or more.
    SfdpDensityTooLarge { exponent: u32 },
    /// A density word of all ones: unprogrammed or corrupted.
    SfdpDensityBlank,
    /// A read brought less (or more) than was asked for.
    ShortRead { got: usize, want: u32 },
    /// A read range runs past the 32-bit address space.
    ReadRangeOverflow { offset: u32, len: u32 },
    /// The programmer did not echo the word it was sent.
    EchoMismatch,
    /// A version reply of less than four bytes.
    ShortVersion,
    /// The chip was still busy when it was to be powered down.
    BusyBeforePowerDown,
    /// The chip was still busy after this many milliseconds.
    WipTimeout { ms: u64 },
    /// A zero-length erase was asked for.
    EraseLengthZero,
    /// An erase range runs past the 32-bit address space.
    EraseRangeOverflow { offset: u32, len: u32 },
    /// The chip offers no erase of the smallest unit that was asked for.
    NoEraseType { size: u32 },
    /// The chip offers no erase at all.
    NoEraseTypes,
    /// An erase block would end past the 32-bit address space.
    EraseAddressOverflow { addr: u32, size: u32 },
    /// A write range runs past the 32-bit address space.
    WriteRangeOverflow { offset: u32, len: u32 },
    /// The chip descriptor has no page size.
    ZeroPageSize,
    /// A padded write block is longer than the firmware's 24-bit count.
    WriteBlockTooLong,
}

} // verus!
