//! Chip descriptors.
use vstd::prelude::*;

use crate::db::ChipVoltage;
use crate::text::{begins_with, starts_with};
use crate::units::{MB_16, MB_32};

verus! {

pub const MFR_SPANSION: u8 = 0x01;

pub const MFR_EON: u8 = 0x1C;

pub const MFR_MICRON: u8 = 0x20;

pub const MFR_ISSI: u8 = 0x9D;

pub const MFR_MACRONIX: u8 = 0xC2;

pub const MFR_GIGADEVICE: u8 = 0xC8;

pub const MFR_WINBOND: u8 = 0xEF;

/// An erase granularity a chip offers, with the opcode that performs it.
#[derive(Debug, Clone, Copy, PartialEq, Eq, Structural)]
pub struct EraseType {
    pub size_bytes: u32,
    pub opcode: u8,
}

/// Where the parameters of a descriptor come from.
#[derive(Debug, Clone, Copy, PartialEq, Eq, Structural)]
pub enum ParamSource {
    Database,
    Sfdp,
    DatabaseWithSfdp,
    /// Database parameters, checked against a density-only SFDP table.
    DatabaseWithPartialSfdp,
}

/// Runtime chip descriptor, built from database and/or SFDP data.
#[derive(Debug)]
pub struct ResolvedChip {
    pub name: String,
    pub mfr: u8,
    pub id1: u8,
    pub id2: u8,
    pub voltage: ChipVoltage,
    pub size_bytes: u32,
    pub page_size: u32,
    /// Smallest erase granularity in bytes.
    pub erase_size: u32,
    pub erase_types: Vec<EraseType>,
    pub addr_bytes: u8,
    pub quad: bool,
    pub source: ParamSource,
    /// Longest chip erase in milliseconds, where the chip states it.
    pub chip_erase_max_ms: Option<u64>,
}

/// The contents of a [`ResolvedChip`].
#[verifier::ext_equal]
pub struct ChipModel {
    pub name: Seq<char>,
    pub mfr: u8,
    pub id1: u8,
    pub id2: u8,
    pub voltage: ChipVoltage,
    pub size_bytes: u32,
    pub page_size: u32,
    pub erase_size: u32,
    pub erase_types: Seq<EraseType>,
    pub addr_bytes: u8,
    pub quad: bool,
    pub source: ParamSource,
    pub chip_erase_max_ms: Option<u64>,
}

impl View for ResolvedChip {
    type V = ChipModel;

    open spec fn view(&self) -> ChipModel {
        ChipModel {
            name: self.name@,
            mfr: self.mfr,
            id1: self.id1,
            id2: self.id2,
            voltage: self.voltage,
            size_bytes: self.size_bytes,
            page_size: self.page_size,
            erase_size: self.erase_size,
            erase_types: self.erase_types@,
            addr_bytes: self.addr_bytes,
            quad: self.quad,
            source: self.source,
            chip_erase_max_ms: self.chip_erase_max_ms,
        }
    }
}

impl Clone for ResolvedChip {
    fn clone(&self) -> (r: Self)
        ensures
            r@ == self@,
    {
        let r = ResolvedChip {
            name: self.name.clone(),
            mfr: self.mfr,
            id1: self.id1,
            id2: self.id2,
            voltage: self.voltage,
            size_bytes: self.size_bytes,
            page_size: self.page_size,
            erase_size: self.erase_size,
            erase_types: self.erase_types.clone(),
            addr_bytes: self.addr_bytes,
            quad: self.quad,
            source: self.source,
            chip_erase_max_ms: self.chip_erase_max_ms,
        };
        assert(r.erase_types@ =~= self.erase_types@);
        r
    }
}

/// The smallest erase size in a non-empty list.
pub open spec fn smallest_size(types: Seq<EraseType>) -> u32
    decreases types.len(),
{
    if types.len() <= 1 {
        types[0].size_bytes
    } else {
        let rest = smallest_size(types.drop_last());
        if types.last().size_bytes < rest {
            types.last().size_bytes
        } else {
            rest
        }
    }
}

/// The smallest size is listed, and no other is smaller.
pub proof fn lemma_smallest_size(types: Seq<EraseType>)
    requires
        types.len() > 0,
    ensures
        forall|k: int|
            0 <= k < types.len() ==> smallest_size(types) <= (#[trigger] types[k]).size_bytes,
        exists|k: int|
            0 <= k < types.len() && (#[trigger] types[k]).size_bytes == smallest_size(types),
    decreases types.len(),
{
    if types.len() > 1 {
        let rest = types.drop_last();
        lemma_smallest_size(rest);
        let k = choose|k: int|
            0 <= k < rest.len() && (#[trigger] rest[k]).size_bytes == smallest_size(rest);
        assert(types[k].size_bytes == smallest_size(rest));
        assert(types[types.len() - 1] == types.last());
        assert forall|j: int| 0 <= j < types.len() implies smallest_size(types) <= (
        #[trigger] types[j]).size_bytes by {
            if j < rest.len() {
                assert(rest[j] == types[j]);
            }
        }
    } else {
        assert(types[0].size_bytes == smallest_size(types));
    }
}

/// Finds the smallest erase size in a non-empty list.
pub fn smallest_erase_size(types: &[EraseType]) -> (r: u32)
    requires
        types@.len() > 0,
    ensures
        r == smallest_size(types@),
{
    let mut best: u32 = types[0].size_bytes;
    let mut i: usize = 1;
    assert(types@.take(1).len() == 1);
    while i < types.len()
        invariant
            1 <= i <= types.len(),
            best == smallest_size(types@.take(i as int)),
        decreases types.len() - i,
    {
        assert(types@.take(i + 1).drop_last() =~= types@.take(i as int));
        if types[i].size_bytes < best {
            best = types[i].size_bytes;
        }
        i += 1;
    }
    assert(types@.take(i as int) =~= types@);
    best
}

/// Chip erase allowance for each started 16 MiB, where the chip does not state one.
pub const CHIP_ERASE_FALLBACK_MS: u64 = 200_000;

impl ChipModel {
    /// Whether this is a GD25Q256D, whose second and third status register differ from those of
    /// other GigaDevice parts.
    pub open spec fn is_gd25q256d(self) -> bool {
        self.mfr == MFR_GIGADEVICE && self.size_bytes >= MB_32 && begins_with(
            self.name,
            "GD25Q256D"@,
        )
    }

    /// Whether the sector size is advertised, and nothing smaller is.
    pub open spec fn sector_is_smallest(self) -> bool {
        &&& exists|k: int|
            0 <= k < self.erase_types.len() && (#[trigger] self.erase_types[k]).size_bytes
                == self.erase_size
        &&& forall|k: int|
            0 <= k < self.erase_types.len() ==> self.erase_size <= (
            #[trigger] self.erase_types[k]).size_bytes
    }

    /// How long a chip erase may take: what the chip states, else an allowance that
    /// grows with the size.
    pub open spec fn erase_timeout_ms(self) -> nat {
        match self.chip_erase_max_ms {
            Some(ms) => ms as nat,
            None => {
                let units: int = (self.size_bytes + MB_16 - 1) / MB_16 as int;
                (if units < 1 {
                    CHIP_ERASE_FALLBACK_MS as int
                } else {
                    units * CHIP_ERASE_FALLBACK_MS
                }) as nat
            },
        }
    }
}

impl ResolvedChip {
    /// Whether this is a GD25Q256D.
    pub fn is_gd25q256d(&self) -> (r: bool)
        ensures
            r == self@.is_gd25q256d(),
    {
        self.mfr == MFR_GIGADEVICE && self.size_bytes >= MB_32 && starts_with(
            self.name.as_str(),
            "GD25Q256D",
        )
    }

    /// How long a chip erase may take, in milliseconds.
    pub fn chip_erase_timeout_ms(&self) -> (ms: u64)
        ensures
            ms == self@.erase_timeout_ms(),
    {
        match self.chip_erase_max_ms {
            Some(ms) => ms,
            None => {
                let units: u64 = (self.size_bytes as u64 + MB_16 as u64 - 1) / MB_16 as u64;
                if units < 1 {
                    CHIP_ERASE_FALLBACK_MS
                } else {
                    units * CHIP_ERASE_FALLBACK_MS
                }
            },
        }
    }

    /// How long a chip erase may take, in seconds, rounded up.
    pub fn chip_erase_timeout_secs(&self) -> (s: u64)
        ensures
            s == (self@.erase_timeout_ms() + 999) / 1000,
    {
        let ms: u64 = self.chip_erase_timeout_ms();
        if ms % 1000 == 0 {
            ms / 1000
        } else {
            ms / 1000 + 1
        }
    }
}

/// A chip that states no erase time is allowed 200 s for each started 16 MiB.
pub proof fn law_erase_allowance_grows_with_the_size(chip: ChipModel, k: int)
    requires
        k >= 1,
        chip.size_bytes <= k * 0x100_0000,
        k == 1 || (k - 1) * 0x100_0000 < chip.size_bytes,
    ensures
        chip.chip_erase_max_ms is None ==> chip.erase_timeout_ms() == k * 200_000,
        chip.chip_erase_max_ms matches Some(ms) ==> chip.erase_timeout_ms() == ms,
{
    let x = chip.size_bytes + MB_16 - 1;
    assert(MB_16 == 0x100_0000);
    if chip.size_bytes > 0 {
        vstd::arithmetic::div_mod::lemma_fundamental_div_mod_converse(
            x,
            0x100_0000,
            k,
            x - k * 0x100_0000,
        );
    } else {
        vstd::arithmetic::div_mod::lemma_fundamental_div_mod_converse(x, 0x100_0000, 0, x);
    }
}

} // verus!
