//! SFDP: reading and decoding a chip's own description.
use vstd::arithmetic::power2::pow2;
use vstd::prelude::*;

use crate::bytes::{le32, read_le32};
use crate::chip::{
    lemma_smallest_size, smallest_erase_size, smallest_size, ChipModel, EraseType, ParamSource,
    ResolvedChip,
};
use crate::db::{ChipVoltage, SpiNorDef};
use crate::error::Error;
use crate::fpga::Voltage;
use crate::host::{push_op, push_opcode, script_of, send, HostOp, OpModel};
use crate::spi::detect::db_chip;
use crate::spi::erase::{all_whole, lemma_type_found, type_of_size};
use crate::spi::read::{
    check_read, read_setup, read_setup_packet, receive_script, setup_then_receive,
};
use crate::text::{hex_text, push_hex};
use crate::usb::UsbReq;

verus! {

pub const JEDEC_BASIC_ID: u16 = 0xFF00;

pub const CMD_READ_SFDP: u8 = 0x5A;

pub const CMD_RESET_ENABLE: u8 = 0x66;

pub const CMD_RESET: u8 = 0x99;

/// Recovery time after a software reset.
pub const RESET_MS: u64 = 10;

/// Bytes in the shortest complete JEDEC Basic table.
pub const FULL_TABLE_BYTES: u32 = 36;

/// What SFDP says of a chip.
#[derive(Debug)]
pub struct SfdpInfo {
    /// Major and minor revision.
    pub sfdp_rev: (u8, u8),
    pub size_bytes: u32,
    pub page_size: u32,
    pub erase_types: Vec<EraseType>,
    /// 1-1-4 fast read.
    pub fast_read_114: bool,
    /// 1-4-4 fast read.
    pub fast_read_144: bool,
    pub dtr_supported: bool,
    /// Typical chip erase time in milliseconds, where it is stated.
    pub chip_erase_typ_ms: Option<u64>,
    /// Length of the JEDEC Basic table.
    pub table_bytes: u32,
    /// The table is shorter than a complete one: only the density can be relied on.
    pub is_partial: bool,
}

/// The contents of an [`SfdpInfo`].
#[verifier::ext_equal]
pub struct SfdpModel {
    pub sfdp_rev: (u8, u8),
    pub size_bytes: u32,
    pub page_size: u32,
    pub erase_types: Seq<EraseType>,
    pub fast_read_114: bool,
    pub fast_read_144: bool,
    pub dtr_supported: bool,
    pub chip_erase_typ_ms: Option<u64>,
    pub table_bytes: u32,
    pub is_partial: bool,
}

impl View for SfdpInfo {
    type V = SfdpModel;

    open spec fn view(&self) -> SfdpModel {
        SfdpModel {
            sfdp_rev: self.sfdp_rev,
            size_bytes: self.size_bytes,
            page_size: self.page_size,
            erase_types: self.erase_types@,
            fast_read_114: self.fast_read_114,
            fast_read_144: self.fast_read_144,
            dtr_supported: self.dtr_supported,
            chip_erase_typ_ms: self.chip_erase_typ_ms,
            table_bytes: self.table_bytes,
            is_partial: self.is_partial,
        }
    }
}

impl SfdpModel {
    /// The chip erase allowance fits: eight times the typical time.
    pub open spec fn wf(self) -> bool {
        self.chip_erase_typ_ms matches Some(t) ==> t * 8 <= u64::MAX
    }

    /// Some fast read with four data lines.
    pub open spec fn quad(self) -> bool {
        self.fast_read_114 || self.fast_read_144
    }

    /// Longest chip erase: eight times the typical time.
    pub open spec fn erase_max_ms(self) -> Option<u64> {
        match self.chip_erase_typ_ms {
            Some(t) => Some((t * 8) as u64),
            None => None,
        }
    }
}

/// Bit `k` of a word.
pub open spec fn bit(word: u32, k: nat) -> bool {
    (word as int / pow2(k) as int) % 2 == 1
}

/// The chip size a density word stands for: with the top bit set, 2^n bits; else n + 1 bits.
pub open spec fn density_bytes(word: u32) -> Result<u32, Error> {
    let n = (word as int % 0x8000_0000) as u32;
    if word == 0xFFFF_FFFF {
        Err(Error::SfdpDensityBlank)
    } else if word >= 0x8000_0000 {
        if n < 3 {
            Err(Error::SfdpDensityTooSmall { exponent: n })
        } else if n > 34 {
            Err(Error::SfdpDensityTooLarge { exponent: n })
        } else {
            Ok(pow2((n - 3) as nat) as u32)
        }
    } else {
        Ok(((word + 1) / 8) as u32)
    }
}

/// The erase type in a 16-bit field: size exponent below, opcode above; a field without
/// opcode or with an impossible exponent holds none.
pub open spec fn erase_field(field: int) -> Seq<EraseType> {
    let exp = field % 0x100;
    let opcode = field / 0x100;
    if opcode != 0 && 0 < exp < 32 {
        seq![EraseType { size_bytes: pow2(exp as nat) as u32, opcode: opcode as u8 }]
    } else {
        Seq::empty()
    }
}

/// The erase types in the eighth and ninth word of a table.
pub open spec fn table_erase_types(t: Seq<u8>) -> Seq<EraseType> {
    if t.len() < FULL_TABLE_BYTES {
        Seq::empty()
    } else {
        let w8 = le32(t, 28) as int;
        let w9 = le32(t, 32) as int;
        erase_field(w8 % 0x1_0000) + erase_field(w8 / 0x1_0000) + erase_field(w9 % 0x1_0000)
            + erase_field(w9 / 0x1_0000)
    }
}

/// The page size in the eleventh word: 2^n for a plausible exponent, else 256.
pub open spec fn table_page_size(t: Seq<u8>) -> u32 {
    let exp = (le32(t, 40) as int / 0x10) % 0x10;
    if t.len() >= 44 && 1 <= exp <= 9 {
        pow2(exp as nat) as u32
    } else {
        256
    }
}

/// The typical chip erase time in the eleventh word; a zero count states none.
pub open spec fn table_erase_ms(t: Seq<u8>) -> Option<u64> {
    let w = le32(t, 40) as int;
    let count = (w / 0x100_0000) % 0x20;
    let unit_code = (w / 0x2000_0000) % 4;
    let unit_ms: int = if unit_code == 0 {
        16
    } else if unit_code == 1 {
        256
    } else if unit_code == 2 {
        4_000
    } else {
        64_000
    };
    if t.len() >= 44 && count != 0 {
        Some(((count + 1) * unit_ms) as u64)
    } else {
        None
    }
}

/// What a JEDEC Basic table says.
pub open spec fn basic_table(t: Seq<u8>, major: u8, minor: u8) -> Result<SfdpModel, Error> {
    if t.len() < 8 {
        Err(Error::SfdpTableTooShort { bytes: t.len() as usize })
    } else {
        match density_bytes(le32(t, 4)) {
            Err(e) => Err(e),
            Ok(size_bytes) => Ok(
                SfdpModel {
                    sfdp_rev: (major, minor),
                    size_bytes,
                    page_size: table_page_size(t),
                    erase_types: table_erase_types(t),
                    fast_read_114: bit(le32(t, 0), 22),
                    fast_read_144: bit(le32(t, 0), 21),
                    dtr_supported: bit(le32(t, 0), 19),
                    chip_erase_typ_ms: table_erase_ms(t),
                    table_bytes: t.len() as u32,
                    is_partial: t.len() < FULL_TABLE_BYTES,
                },
            ),
        }
    }
}

/// Whether a fallible decoding gave what a specification says.
pub open spec fn decodes(r: Result<SfdpInfo, Error>, s: Result<SfdpModel, Error>) -> bool {
    match s {
        Ok(m) => r matches Ok(info) && info@ == m,
        Err(e) => r == Err::<SfdpInfo, _>(e),
    }
}

fn power_of_two(exp: u32) -> (r: u32)
    requires
        exp < 32,
    ensures
        r == pow2(exp as nat),
{
    proof {
        vstd::bits::lemma_u32_pow2_no_overflow(exp as nat);
        vstd::bits::lemma_u32_shl_is_mul(1, exp);
    }
    1u32 << exp
}

fn decode_density(word: u32) -> (r: Result<u32, Error>)
    ensures
        r == density_bytes(word),
{
    if word == 0xFFFF_FFFF {
        return Err(Error::SfdpDensityBlank);
    }
    if word >= 0x8000_0000 {
        let n: u32 = word % 0x8000_0000;
        if n < 3 {
            return Err(Error::SfdpDensityTooSmall { exponent: n });
        }
        if n > 34 {
            return Err(Error::SfdpDensityTooLarge { exponent: n });
        }
        Ok(power_of_two(n - 3))
    } else {
        Ok((word + 1) / 8)
    }
}

fn push_erase_field(types: &mut Vec<EraseType>, field: u32)
    requires
        field < 0x1_0000,
    ensures
        final(types)@ == old(types)@ + erase_field(field as int),
{
    let exp: u32 = field % 0x100;
    let opcode: u32 = field / 0x100;
    if opcode != 0 && exp != 0 && exp < 32 {
        types.push(EraseType { size_bytes: power_of_two(exp), opcode: opcode as u8 });
    }
    assert(types@ =~= old(types)@ + erase_field(field as int));
}

fn word_bit(word: u32, k: u32) -> (r: bool)
    requires
        k < 32,
    ensures
        r == bit(word, k as nat),
{
    proof {
        vstd::arithmetic::power2::lemma_pow2_pos(k as nat);
    }
    (word / power_of_two(k)) % 2 == 1
}

/// Decodes a JEDEC Basic Flash Parameter table.
pub fn parse_jedec_basic(t: &[u8], sfdp_major: u8, sfdp_minor: u8) -> (r: Result<SfdpInfo, Error>)
    requires
        t@.len() <= u32::MAX,
    ensures
        decodes(r, basic_table(t@, sfdp_major, sfdp_minor)),
        r matches Ok(info) ==> info@.wf(),
{
    if t.len() < 8 {
        return Err(Error::SfdpTableTooShort { bytes: t.len() });
    }
    let w1: u32 = read_le32(t, 0);
    let size_bytes: u32 = match decode_density(read_le32(t, 4)) {
        Ok(size) => size,
        Err(e) => return Err(e),
    };
    let mut erase_types: Vec<EraseType> = Vec::new();
    if t.len() >= FULL_TABLE_BYTES as usize {
        let w8: u32 = read_le32(t, 28);
        let w9: u32 = read_le32(t, 32);
        push_erase_field(&mut erase_types, w8 % 0x1_0000);
        push_erase_field(&mut erase_types, w8 / 0x1_0000);
        push_erase_field(&mut erase_types, w9 % 0x1_0000);
        push_erase_field(&mut erase_types, w9 / 0x1_0000);
    }
    assert(erase_types@ =~= table_erase_types(t@));
    let mut page_size: u32 = 256;
    let mut chip_erase_typ_ms: Option<u64> = None;
    if t.len() >= 44 {
        let w11: u32 = read_le32(t, 40);
        let exp: u32 = (w11 / 0x10) % 0x10;
        if 1 <= exp && exp <= 9 {
            page_size = power_of_two(exp);
        }
        let count: u64 = ((w11 / 0x100_0000) % 0x20) as u64;
        let unit_code: u32 = (w11 / 0x2000_0000) % 4;
        let unit_ms: u64 = if unit_code == 0 {
            16
        } else if unit_code == 1 {
            256
        } else if unit_code == 2 {
            4_000
        } else {
            64_000
        };
        assert((count + 1) * unit_ms <= 32 * 64_000) by (nonlinear_arith)
            requires
                count < 32,
                unit_ms <= 64_000,
        ;
        if count != 0 {
            chip_erase_typ_ms = Some((count + 1) * unit_ms);
        }
    }
    Ok(
        SfdpInfo {
            sfdp_rev: (sfdp_major, sfdp_minor),
            size_bytes,
            page_size,
            erase_types,
            fast_read_114: word_bit(w1, 22),
            fast_read_144: word_bit(w1, 21),
            dtr_supported: word_bit(w1, 19),
            chip_erase_typ_ms,
            table_bytes: t.len() as u32,
            is_partial: t.len() < FULL_TABLE_BYTES as usize,
        },
    )
}

/// The script that resets the chip to its default mode.
pub open spec fn reset_script() -> Seq<OpModel> {
    seq![
        send(seq![CMD_RESET_ENABLE]),
        send(seq![CMD_RESET]),
        OpModel::Sleep { ms: RESET_MS },
    ]
}

/// The script that resets the chip to its default mode.
pub fn soft_reset() -> (script: Vec<HostOp>)
    ensures
        script_of(script@) == reset_script(),
{
    let mut script: Vec<HostOp> = Vec::new();
    push_opcode(&mut script, CMD_RESET_ENABLE);
    push_opcode(&mut script, CMD_RESET);
    push_op(&mut script, HostOp::Sleep { ms: RESET_MS });
    assert(script_of(script@) =~~= reset_script());
    script
}

/// The script for a raw SFDP read: 3-byte address and one dummy byte.
pub open spec fn sfdp_script(addr: u32, len: u32) -> Seq<OpModel> {
    setup_then_receive(UsbReq::SpiReadFlash, read_setup(CMD_READ_SFDP, 3, addr, len, 1), len)
}

/// The script for a raw SFDP read.
pub fn sfdp_read(addr: u32, len: u32) -> (script: Vec<HostOp>)
    ensures
        script_of(script@) == sfdp_script(addr, len),
{
    let setup: [u8; 11] = read_setup_packet(CMD_READ_SFDP, 3, addr, len, 1);
    receive_script(UsbReq::SpiReadFlash, setup.as_slice(), len)
}

/// Where a reader of SFDP stands.
#[derive(Debug, Clone, Copy, PartialEq, Eq, Structural)]
pub enum SfdpState {
    /// Waiting for the header.
    Header,
    /// Waiting for the parameter headers.
    Params { major: u8, minor: u8, count: u32 },
    /// Waiting for the JEDEC Basic table.
    Table { major: u8, minor: u8, ptr: u32, len: u32 },
}

impl SfdpState {
    pub open spec fn wf(self) -> bool {
        match self {
            SfdpState::Header => true,
            SfdpState::Params { count, .. } => 1 <= count <= 256,
            SfdpState::Table { len, .. } => len <= 1020,
        }
    }

    /// Address and length of the read that the state waits for.
    pub open spec fn wants(self) -> (u32, u32) {
        match self {
            SfdpState::Header => (0, 8),
            SfdpState::Params { count, .. } => (8, (count * 8) as u32),
            SfdpState::Table { ptr, len, .. } => (ptr, len),
        }
    }

    /// Address and length of the read that the state waits for.
    pub fn request(self) -> (r: (u32, u32))
        requires
            self.wf(),
        ensures
            r == self.wants(),
    {
        match self {
            SfdpState::Header => (0, 8),
            SfdpState::Params { count, .. } => (8, count * 8),
            SfdpState::Table { ptr, len, .. } => (ptr, len),
        }
    }
}

/// The identifier in the `i`-th parameter header.
pub open spec fn param_id(headers: Seq<u8>, i: int) -> int {
    headers[i * 8 + 7] * 0x100 + headers[i * 8]
}

/// The table pointer in the `i`-th parameter header.
pub open spec fn param_ptr(headers: Seq<u8>, i: int) -> u32 {
    (headers[i * 8 + 4] + headers[i * 8 + 5] * 0x100 + headers[i * 8 + 6] * 0x1_0000) as u32
}

/// Pointer and byte length of the JEDEC Basic table, from the last of the first `n`
/// headers that describes one.
pub open spec fn basic_pointer(headers: Seq<u8>, n: int) -> Option<(u32, u32)>
    decreases n,
{
    if n <= 0 {
        None
    } else if param_id(headers, n - 1) == JEDEC_BASIC_ID {
        Some((param_ptr(headers, n - 1), (headers[(n - 1) * 8 + 3] * 4) as u32))
    } else {
        basic_pointer(headers, n - 1)
    }
}

/// Finds the JEDEC Basic table among `count` parameter headers.
pub fn find_basic_table(headers: &[u8], count: u32) -> (r: Option<(u32, u32)>)
    requires
        count * 8 <= headers@.len(),
    ensures
        r == basic_pointer(headers@, count as int),
{
    let mut found: Option<(u32, u32)> = None;
    let mut i: u32 = 0;
    let total: usize = headers.len();
    while i < count
        invariant
            i <= count,
            total == headers@.len(),
            count * 8 <= headers@.len(),
            found == basic_pointer(headers@, i as int),
        decreases count - i,
    {
        let at: usize = i as usize * 8;
        let id: u32 = headers[at + 7] as u32 * 0x100 + headers[at] as u32;
        if id == JEDEC_BASIC_ID as u32 {
            let ptr: u32 = headers[at + 4] as u32 + headers[at + 5] as u32 * 0x100
                + headers[at + 6] as u32 * 0x1_0000;
            let len: u32 = headers[at + 3] as u32 * 4;
            found = Some((ptr, len));
        }
        i += 1;
    }
    found
}

/// What a reader of SFDP does next.
#[derive(Debug)]
pub enum SfdpNext {
    /// Read what the state wants.
    Read(SfdpState),
    Done(SfdpInfo),
    Failed(Error),
}

/// The contents of an [`SfdpNext`].
pub enum SfdpNextModel {
    Read(SfdpState),
    Done(SfdpModel),
    Failed(Error),
}

impl View for SfdpNext {
    type V = SfdpNextModel;

    open spec fn view(&self) -> SfdpNextModel {
        match *self {
            SfdpNext::Read(s) => SfdpNextModel::Read(s),
            SfdpNext::Done(info) => SfdpNextModel::Done(info@),
            SfdpNext::Failed(e) => SfdpNextModel::Failed(e),
        }
    }
}

/// What follows from a reply in a state.
pub open spec fn sfdp_step(state: SfdpState, reply: Seq<u8>) -> SfdpNextModel {
    if reply.len() != state.wants().1 {
        SfdpNextModel::Failed(
            Error::ShortRead { got: reply.len() as usize, want: state.wants().1 },
        )
    } else {
        match state {
            SfdpState::Header => if reply.take(4) != seq![0x53u8, 0x46, 0x44, 0x50] {
                SfdpNextModel::Failed(Error::SfdpMagic)
            } else {
                SfdpNextModel::Read(
                    SfdpState::Params {
                        major: reply[5],
                        minor: reply[4],
                        count: (reply[6] + 1) as u32,
                    },
                )
            },
            SfdpState::Params { major, minor, count } => match basic_pointer(
                reply,
                count as int,
            ) {
                None => SfdpNextModel::Failed(Error::SfdpNoBasicTable),
                Some((ptr, len)) => SfdpNextModel::Read(
                    SfdpState::Table { major, minor, ptr, len },
                ),
            },
            SfdpState::Table { major, minor, .. } => match basic_table(reply, major, minor) {
                Ok(m) => SfdpNextModel::Done(m),
                Err(e) => SfdpNextModel::Failed(e),
            },
        }
    }
}

proof fn lemma_basic_pointer_len(headers: Seq<u8>, n: int)
    ensures
        basic_pointer(headers, n) matches Some((_, len)) ==> len <= 1020,
    decreases n,
{
    if n > 0 && param_id(headers, n - 1) != JEDEC_BASIC_ID {
        lemma_basic_pointer_len(headers, n - 1);
    }
}

/// Takes the reply to the read that `state` wants and decides what to do next.
pub fn read_sfdp(state: SfdpState, reply: &[u8]) -> (next: SfdpNext)
    requires
        state.wf(),
    ensures
        next@ == sfdp_step(state, reply@),
        next matches SfdpNext::Read(s) ==> s.wf(),
        next matches SfdpNext::Done(info) ==> info@.wf(),
{
    let (_, want) = state.request();
    match check_read(reply.len(), want) {
        Ok(()) => {},
        Err(e) => return SfdpNext::Failed(e),
    }
    match state {
        SfdpState::Header => {
            let magic = reply[0] == 0x53 && reply[1] == 0x46 && reply[2] == 0x44 && reply[3]
                == 0x50;
            proof {
                if magic {
                    assert(reply@.take(4) =~= seq![0x53u8, 0x46, 0x44, 0x50]);
                } else {
                    let t = reply@.take(4);
                    assert(t[0] == reply@[0] && t[1] == reply@[1] && t[2] == reply@[2] && t[3]
                        == reply@[3]);
                }
            }
            if !magic {
                return SfdpNext::Failed(Error::SfdpMagic);
            }
            SfdpNext::Read(
                SfdpState::Params {
                    major: reply[5],
                    minor: reply[4],
                    count: reply[6] as u32 + 1,
                },
            )
        },
        SfdpState::Params { major, minor, count } => {
            proof {
                lemma_basic_pointer_len(reply@, count as int);
            }
            match find_basic_table(reply, count) {
                None => SfdpNext::Failed(Error::SfdpNoBasicTable),
                Some((ptr, len)) => SfdpNext::Read(SfdpState::Table { major, minor, ptr, len }),
            }
        },
        SfdpState::Table { major, minor, .. } => match parse_jedec_basic(reply, major, minor) {
            Ok(info) => SfdpNext::Done(info),
            Err(e) => SfdpNext::Failed(e),
        },
    }
}

/// A chip whose SFDP area is complete is described by the table that its last JEDEC Basic
/// parameter header points at: three reads, header, parameter headers, table, and the
/// outcome is the decoding of that table.
pub proof fn law_sfdp_reader_decodes_the_last_basic_table(
    header: Seq<u8>,
    params: Seq<u8>,
    table: Seq<u8>,
)
    requires
        header.len() == 8,
        header.take(4) == seq![0x53u8, 0x46, 0x44, 0x50],
        params.len() == (header[6] + 1) * 8,
        basic_pointer(params, header[6] + 1) is Some,
        table.len() == (basic_pointer(params, header[6] + 1)->0).1,
    ensures
        ({
            let count = (header[6] + 1) as u32;
            let (ptr, len) = basic_pointer(params, count as int)->0;
            let s1 = SfdpState::Params { major: header[5], minor: header[4], count };
            let s2 = SfdpState::Table { major: header[5], minor: header[4], ptr, len };
            &&& SfdpState::Header.wants() == (0u32, 8u32)
            &&& sfdp_step(SfdpState::Header, header) == SfdpNextModel::Read(s1)
            &&& s1.wants() == (8u32, (count * 8) as u32)
            &&& sfdp_step(s1, params) == SfdpNextModel::Read(s2)
            &&& s2.wants() == (ptr, len)
            &&& sfdp_step(s2, table) == match basic_table(table, header[5], header[4]) {
                Ok(m) => SfdpNextModel::Done(m),
                Err(e) => SfdpNextModel::Failed(e),
            }
        }),
{
}

/// The chip voltage that a socket voltage stands for.
pub open spec fn chip_voltage_of(voltage: Voltage) -> ChipVoltage {
    match voltage {
        Voltage::V1_8 => ChipVoltage::V1_8,
        Voltage::V3_3 => ChipVoltage::V3_3,
        Voltage::V5_0 => ChipVoltage::V3_3,
    }
}

/// The chip voltage that a socket voltage stands for.
pub fn voltage_to_chip_voltage(voltage: Voltage) -> (r: ChipVoltage)
    ensures
        r == chip_voltage_of(voltage),
{
    match voltage {
        Voltage::V1_8 => ChipVoltage::V1_8,
        Voltage::V3_3 => ChipVoltage::V3_3,
        Voltage::V5_0 => ChipVoltage::V3_3,
    }
}

/// The sector size that SFDP implies: the smallest it lists, else 4KB.
pub open spec fn implied_erase_size(types: Seq<EraseType>) -> u32 {
    if types.len() == 0 {
        4096
    } else {
        smallest_size(types)
    }
}

/// The sector size that SFDP implies.
pub fn sfdp_erase_size(info: &SfdpInfo) -> (r: u32)
    ensures
        r == implied_erase_size(info@.erase_types),
{
    if info.erase_types.len() == 0 {
        return 4096;
    }
    smallest_erase_size(info.erase_types.as_slice())
}

/// Address width of a chip: 4 bytes above 16 MiB.
pub open spec fn implied_addr_bytes(size_bytes: u32) -> u8 {
    if size_bytes > 0x100_0000 {
        4
    } else {
        3
    }
}

/// The address width that a chip size implies.
pub fn sfdp_addr_bytes(size_bytes: u32) -> (r: u8)
    ensures
        r == implied_addr_bytes(size_bytes),
{
    if size_bytes > 0x100_0000 {
        4
    } else {
        3
    }
}

/// The name of a chip that is only known from SFDP.
pub open spec fn sfdp_name(rdid: Seq<u8>) -> Seq<char> {
    "Unknown ("@ + hex_text(rdid[0] as nat, 2) + ":"@ + hex_text(rdid[1] as nat, 2) + ":"@
        + hex_text(rdid[2] as nat, 2) + ") via SFDP"@
}

/// The descriptor of a chip that only SFDP describes.
pub open spec fn sfdp_chip(info: SfdpModel, rdid: Seq<u8>, voltage: Voltage) -> ChipModel {
    ChipModel {
        name: sfdp_name(rdid),
        mfr: rdid[0],
        id1: rdid[1],
        id2: rdid[2],
        voltage: chip_voltage_of(voltage),
        size_bytes: info.size_bytes,
        page_size: info.page_size,
        erase_size: implied_erase_size(info.erase_types),
        erase_types: if info.erase_types.len() == 0 {
            seq![EraseType { size_bytes: 4096, opcode: 0x20 }]
        } else {
            info.erase_types
        },
        addr_bytes: implied_addr_bytes(info.size_bytes),
        quad: info.quad(),
        source: ParamSource::Sfdp,
        chip_erase_max_ms: info.erase_max_ms(),
    }
}

fn copy_types(types: &[EraseType]) -> (r: Vec<EraseType>)
    ensures
        r@ == types@,
{
    let mut out: Vec<EraseType> = Vec::new();
    out.extend_from_slice(types);
    assert(out@ =~= types@);
    out
}

fn one_type(size_bytes: u32, opcode: u8) -> (r: Vec<EraseType>)
    ensures
        r@ == seq![EraseType { size_bytes, opcode }],
{
    let mut out: Vec<EraseType> = Vec::new();
    out.push(EraseType { size_bytes, opcode });
    assert(out@ =~= seq![EraseType { size_bytes, opcode }]);
    out
}

fn erase_max(typ_ms: Option<u64>) -> (r: Option<u64>)
    requires
        typ_ms matches Some(t) ==> t * 8 <= u64::MAX,
    ensures
        r == match typ_ms {
            Some(t) => Some((t * 8) as u64),
            None => None,
        },
{
    match typ_ms {
        Some(t) => Some(t * 8),
        None => None,
    }
}

proof fn lemma_sfdp_sector(info: SfdpModel, rdid: Seq<u8>, voltage: Voltage)
    ensures
        sfdp_chip(info, rdid, voltage).sector_is_smallest(),
{
    let chip = sfdp_chip(info, rdid, voltage);
    if info.erase_types.len() > 0 {
        lemma_smallest_size(info.erase_types);
        assert(chip.erase_types == info.erase_types);
    } else {
        assert(chip.erase_types[0].size_bytes == chip.erase_size);
    }
}

/// Builds a descriptor from SFDP alone.
pub fn sfdp_to_resolved(info: &SfdpInfo, rdid: [u8; 3], voltage: Voltage) -> (r: ResolvedChip)
    requires
        info@.wf(),
    ensures
        r@ == sfdp_chip(info@, rdid@, voltage),
        r@.sector_is_smallest(),
{
    proof {
        lemma_sfdp_sector(info@, rdid@, voltage);
    }
    let mut name = String::from_str("Unknown (");
    push_hex(&mut name, rdid[0] as u64, 2);
    name.append(":");
    push_hex(&mut name, rdid[1] as u64, 2);
    name.append(":");
    push_hex(&mut name, rdid[2] as u64, 2);
    name.append(") via SFDP");
    assert(name@ =~= sfdp_name(rdid@));
    let erase_types = if info.erase_types.len() == 0 {
        one_type(4096, 0x20)
    } else {
        copy_types(info.erase_types.as_slice())
    };
    ResolvedChip {
        name,
        mfr: rdid[0],
        id1: rdid[1],
        id2: rdid[2],
        voltage: voltage_to_chip_voltage(voltage),
        size_bytes: info.size_bytes,
        page_size: info.page_size,
        erase_size: sfdp_erase_size(info),
        erase_types,
        addr_bytes: sfdp_addr_bytes(info.size_bytes),
        quad: info.fast_read_114 || info.fast_read_144,
        source: ParamSource::Sfdp,
        chip_erase_max_ms: erase_max(info.chip_erase_typ_ms),
    }
}

/// The customary opcode for an erase size: 4KB, 32KB, or 64KB to 128KB blocks.
pub open spec fn usual_opcode(erase_size: u32) -> u8 {
    if erase_size == 4_096 {
        0x20
    } else if erase_size == 32_768 {
        0x52
    } else if 65_536 <= erase_size <= 131_072 {
        0xD8
    } else {
        0x20
    }
}

fn usual_erase_opcode(erase_size: u32) -> (r: u8)
    ensures
        r == usual_opcode(erase_size),
{
    if erase_size == 4_096 {
        0x20
    } else if erase_size == 32_768 {
        0x52
    } else if 65_536 <= erase_size && erase_size <= 131_072 {
        0xD8
    } else {
        0x20
    }
}

/// The descriptor of a chip that both the database and SFDP describe: name and voltage from
/// the database, geometry from SFDP, unless the SFDP table is partial, in which case the
/// database gives the geometry too.  A table that lists no erase leaves the sector size to the
/// database.
pub open spec fn merged_chip(db: SpiNorDef, info: SfdpModel) -> ChipModel {
    let from_db = seq![
        EraseType { size_bytes: db.erase_size, opcode: usual_opcode(db.erase_size) },
    ];
    if info.is_partial {
        ChipModel {
            name: db.name@,
            mfr: db.mfr,
            id1: db.id1,
            id2: db.id2,
            voltage: db.voltage,
            size_bytes: db.size_bytes,
            page_size: db.page_size,
            erase_size: db.erase_size,
            erase_types: from_db,
            addr_bytes: implied_addr_bytes(db.size_bytes),
            quad: info.quad() || db.quad,
            source: ParamSource::DatabaseWithPartialSfdp,
            chip_erase_max_ms: None,
        }
    } else {
        ChipModel {
            name: db.name@,
            mfr: db.mfr,
            id1: db.id1,
            id2: db.id2,
            voltage: db.voltage,
            size_bytes: info.size_bytes,
            page_size: info.page_size,
            erase_size: if info.erase_types.len() == 0 {
                db.erase_size
            } else {
                implied_erase_size(info.erase_types)
            },
            erase_types: if info.erase_types.len() == 0 {
                from_db
            } else {
                info.erase_types
            },
            addr_bytes: implied_addr_bytes(info.size_bytes),
            quad: info.quad() || db.quad,
            source: ParamSource::DatabaseWithSfdp,
            chip_erase_max_ms: info.erase_max_ms(),
        }
    }
}

proof fn lemma_merged_sector(db: SpiNorDef, info: SfdpModel)
    ensures
        merged_chip(db, info).sector_is_smallest(),
{
    let chip = merged_chip(db, info);
    if !info.is_partial && info.erase_types.len() > 0 {
        lemma_smallest_size(info.erase_types);
        assert(chip.erase_types == info.erase_types);
    } else {
        assert(chip.erase_types[0].size_bytes == chip.erase_size);
    }
}

/// However a descriptor comes about, its sector size is the smallest size it advertises, so that
/// a sector can always be erased.
pub proof fn law_sector_size_is_the_smallest_advertised(
    db: SpiNorDef,
    info: SfdpModel,
    rdid: Seq<u8>,
    voltage: Voltage,
)
    ensures
        db_chip(db).sector_is_smallest(),
        sfdp_chip(info, rdid, voltage).sector_is_smallest(),
        merged_chip(db, info).sector_is_smallest(),
        type_of_size(db_chip(db).erase_types, db.erase_size as int) is Some,
        ({
            let chip = sfdp_chip(info, rdid, voltage);
            type_of_size(chip.erase_types, chip.erase_size as int) is Some
        }),
        ({
            let chip = merged_chip(db, info);
            type_of_size(chip.erase_types, chip.erase_size as int) is Some
        }),
{
    let alone = db_chip(db);
    assert(alone.erase_types[0].size_bytes == alone.erase_size);
    lemma_sfdp_sector(info, rdid, voltage);
    lemma_merged_sector(db, info);
    lemma_sector_found(alone);
    lemma_sector_found(sfdp_chip(info, rdid, voltage));
    lemma_sector_found(merged_chip(db, info));
}

proof fn lemma_sector_found(chip: ChipModel)
    requires
        chip.sector_is_smallest(),
    ensures
        type_of_size(chip.erase_types, chip.erase_size as int) is Some,
{
    let k = choose|k: int|
        0 <= k < chip.erase_types.len() && (#[trigger] chip.erase_types[k]).size_bytes
            == chip.erase_size;
    lemma_type_found(chip.erase_types, k, 0);
}

/// Whether a number is a power of two.
pub open spec fn is_power_of_two(n: int) -> bool {
    exists|e: nat| n == #[trigger] pow2(e)
}

/// Whether every size in a list is a power of two.
pub open spec fn powers_of_two(types: Seq<EraseType>) -> bool {
    forall|k: int|
        0 <= k < types.len() ==> is_power_of_two((#[trigger] types[k]).size_bytes as int)
}

proof fn lemma_erase_field(field: int)
    ensures
        powers_of_two(erase_field(field)),
{
    let exp = field % 0x100;
    if 0 < exp < 32 {
        vstd::bits::lemma_u32_pow2_no_overflow(exp as nat);
        assert(pow2(exp as nat) as u32 == pow2(exp as nat));
    }
}

proof fn lemma_powers_concat(a: Seq<EraseType>, b: Seq<EraseType>)
    requires
        powers_of_two(a),
        powers_of_two(b),
    ensures
        powers_of_two(a + b),
{
    let all = a + b;
    assert forall|k: int| 0 <= k < all.len() implies is_power_of_two(
        (#[trigger] all[k]).size_bytes as int,
    ) by {
        if k < a.len() {
            assert(all[k] == a[k]);
        } else {
            assert(all[k] == b[k - a.len()]);
        }
    }
}

/// Of two powers of two the larger is a multiple of the smaller.
proof fn lemma_powers_nest(e: nat, n: int)
    requires
        is_power_of_two(n),
        n >= pow2(e),
    ensures
        n % pow2(e) as int == 0,
{
    let f = choose|f: nat| n == #[trigger] pow2(f);
    if f < e {
        vstd::arithmetic::power2::lemma_pow2_strictly_increases(f, e);
    }
    vstd::arithmetic::power2::lemma_pow2_adds((f - e) as nat, e);
    vstd::arithmetic::power2::lemma_pow2_pos(e);
    vstd::arithmetic::div_mod::lemma_mod_multiples_basic(
        pow2((f - e) as nat) as int,
        pow2(e) as int,
    );
}

proof fn lemma_table_types(t: Seq<u8>)
    ensures
        powers_of_two(table_erase_types(t)),
{
    if t.len() >= FULL_TABLE_BYTES {
        let w8 = le32(t, 28) as int;
        let w9 = le32(t, 32) as int;
        let (a, b) = (erase_field(w8 % 0x1_0000), erase_field(w8 / 0x1_0000));
        let (c, d) = (erase_field(w9 % 0x1_0000), erase_field(w9 / 0x1_0000));
        lemma_erase_field(w8 % 0x1_0000);
        lemma_erase_field(w8 / 0x1_0000);
        lemma_erase_field(w9 % 0x1_0000);
        lemma_erase_field(w9 / 0x1_0000);
        lemma_powers_concat(a, b);
        lemma_powers_concat(a + b, c);
        lemma_powers_concat(a + b + c, d);
    }
}

/// On every chip that a table describes, each block is made of whole sectors, so that an erase
/// plan leaves none aside.
pub proof fn law_described_blocks_are_whole_sectors(
    t: Seq<u8>,
    major: u8,
    minor: u8,
    db: SpiNorDef,
    rdid: Seq<u8>,
    voltage: Voltage,
)
    requires
        basic_table(t, major, minor) is Ok,
        db.erase_size > 0,
    ensures
        ({
            let chip = sfdp_chip(basic_table(t, major, minor)->Ok_0, rdid, voltage);
            &&& chip.erase_size > 0
            &&& all_whole(chip.erase_types, chip.erase_size as int)
        }),
        ({
            let chip = merged_chip(db, basic_table(t, major, minor)->Ok_0);
            &&& chip.erase_size > 0
            &&& all_whole(chip.erase_types, chip.erase_size as int)
        }),
{
    let info = basic_table(t, major, minor)->Ok_0;
    let types = info.erase_types;
    if types.len() > 0 {
        lemma_table_types(t);
        lemma_smallest_size(types);
        let k = choose|k: int|
            0 <= k < types.len() && (#[trigger] types[k]).size_bytes == smallest_size(types);
        let e = choose|e: nat| types[k].size_bytes == #[trigger] pow2(e);
        vstd::arithmetic::power2::lemma_pow2_pos(e);
        assert forall|j: int| 0 <= j < types.len() implies (
        #[trigger] types[j]).size_bytes as int % smallest_size(types) as int == 0 by {
            lemma_powers_nest(e, types[j].size_bytes as int);
        }
    }
    vstd::arithmetic::div_mod::lemma_mod_self_0(db.erase_size as int);
}

/// Whether SFDP states another density than the database: a chip that answers to the identifier
/// of a known part and is not of its size may be a counterfeit.
pub fn density_disagrees(db: &SpiNorDef, info: &SfdpInfo) -> (r: bool)
    ensures
        r == (info.size_bytes != db.size_bytes),
{
    info.size_bytes != db.size_bytes
}

/// Builds a descriptor from a database entry and SFDP.
pub fn merge_db_with_sfdp(db: &SpiNorDef, info: &SfdpInfo) -> (r: ResolvedChip)
    requires
        info@.wf(),
    ensures
        r@ == merged_chip(*db, info@),
        r@.sector_is_smallest(),
{
    proof {
        lemma_merged_sector(*db, info@);
    }
    let quad = info.fast_read_114 || info.fast_read_144 || db.quad;
    if info.is_partial {
        return ResolvedChip {
            name: db.name.clone(),
            mfr: db.mfr,
            id1: db.id1,
            id2: db.id2,
            voltage: db.voltage,
            size_bytes: db.size_bytes,
            page_size: db.page_size,
            erase_size: db.erase_size,
            erase_types: one_type(db.erase_size, usual_erase_opcode(db.erase_size)),
            addr_bytes: sfdp_addr_bytes(db.size_bytes),
            quad,
            source: ParamSource::DatabaseWithPartialSfdp,
            chip_erase_max_ms: None,
        };
    }
    let (erase_size, erase_types) = if info.erase_types.len() == 0 {
        (db.erase_size, one_type(db.erase_size, usual_erase_opcode(db.erase_size)))
    } else {
        (sfdp_erase_size(info), copy_types(info.erase_types.as_slice()))
    };
    ResolvedChip {
        name: db.name.clone(),
        mfr: db.mfr,
        id1: db.id1,
        id2: db.id2,
        voltage: db.voltage,
        size_bytes: info.size_bytes,
        page_size: info.page_size,
        erase_size,
        erase_types,
        addr_bytes: sfdp_addr_bytes(info.size_bytes),
        quad,
        source: ParamSource::DatabaseWithSfdp,
        chip_erase_max_ms: erase_max(info.chip_erase_typ_ms),
    }
}

/// A density word below 2^31 states the number of bits less one: the word of `n` bytes, and of
/// up to seven bits more, decodes to `n` bytes.
pub proof fn law_density_word_states_bits_less_one(n: int, more: int)
    requires
        1 <= n <= 0x1000_0000,
        0 <= more < 8,
        8 * n - 1 + more < 0x8000_0000,
    ensures
        density_bytes((8 * n - 1 + more) as u32) == Ok::<u32, Error>(n as u32),
{
}

/// A density word with the top bit set states an exponent of two: 2^(k + 3) bits are 2^k bytes.
/// Less than a byte and more than the address space are refused, and so are all ones.
pub proof fn law_density_word_states_an_exponent(k: int)
    requires
        -3 <= k < 0x7FFF_FFFD,
    ensures
        ({
            let r = density_bytes((0x8000_0003 + k) as u32);
            &&& 0 <= k <= 31 ==> r is Ok && r->Ok_0 == pow2(k as nat)
            &&& k < 0 ==> r == Err::<u32, _>(Error::SfdpDensityTooSmall { exponent: (k + 3) as u32 })
            &&& k == 0x7FFF_FFFC ==> r == Err::<u32, _>(Error::SfdpDensityBlank)
            &&& 31 < k < 0x7FFF_FFFC ==> r == Err::<u32, _>(
                Error::SfdpDensityTooLarge { exponent: (k + 3) as u32 },
            )
        }),
{
    if 0 <= k <= 31 {
        vstd::bits::lemma_u32_pow2_no_overflow(k as nat);
    }
}

/// The `k`-th erase type of a table: a size exponent and an opcode in two bytes.
pub open spec fn listed_type(t: Seq<u8>, k: int) -> Option<EraseType> {
    let exp = t[28 + 2 * k];
    let opcode = t[29 + 2 * k];
    if opcode > 0 && 1 <= exp <= 31 {
        Some(EraseType { size_bytes: pow2(exp as nat) as u32, opcode })
    } else {
        None
    }
}

proof fn lemma_fields(t: Seq<u8>)
    requires
        t.len() >= 36,
    ensures
        ({
            let w8 = le32(t, 28) as int;
            let w9 = le32(t, 32) as int;
            &&& w8 % 0x1_0000 == t[28] + t[29] * 0x100
            &&& w8 / 0x1_0000 == t[30] + t[31] * 0x100
            &&& w9 % 0x1_0000 == t[32] + t[33] * 0x100
            &&& w9 / 0x1_0000 == t[34] + t[35] * 0x100
        }),
{
}

proof fn lemma_listed(t: Seq<u8>, k: int)
    requires
        0 <= k < 4,
    ensures
        erase_field(t[28 + 2 * k] + t[29 + 2 * k] * 0x100) == match listed_type(t, k) {
            Some(e) => seq![e],
            None => Seq::<EraseType>::empty(),
        },
{
    let f = t[28 + 2 * k] + t[29 + 2 * k] * 0x100;
    assert(f % 0x100 == t[28 + 2 * k]);
    assert(f / 0x100 == t[29 + 2 * k]);
}

/// A complete table lists up to four erase types, each as a size exponent and an opcode in two
/// bytes from byte 28 on: those with an opcode and an exponent that makes a 32-bit size, in
/// order, and no others.  A size is two to the power of its exponent.
pub proof fn law_table_lists_its_erase_types(t: Seq<u8>, k: int)
    ensures
        t.len() < 36 ==> table_erase_types(t).len() == 0,
        t.len() >= 36 ==> {
            let types = table_erase_types(t);
            &&& types.len() <= 4
            &&& 0 <= k < 4 && t[29 + 2 * k] > 0 && 1 <= t[28 + 2 * k] <= 31 ==> exists|j: int|
                0 <= j <= k && j < types.len() && (#[trigger] types[j]).opcode == t[29 + 2 * k]
                    && types[j].size_bytes == pow2(t[28 + 2 * k] as nat)
            &&& 0 <= k < types.len() ==> exists|j: int|
                k <= j < 4 && types[k].opcode == #[trigger] t[29 + 2 * j] && types[k].opcode > 0
                    && 1 <= t[28 + 2 * j] <= 31 && types[k].size_bytes == pow2(
                    t[28 + 2 * j] as nat,
                )
        },
{
    if t.len() >= 36 {
        lemma_fields(t);
        lemma_listed(t, 0);
        lemma_listed(t, 1);
        lemma_listed(t, 2);
        lemma_listed(t, 3);
        let types = table_erase_types(t);
        let a = erase_field(t[28] + t[29] * 0x100);
        let b = erase_field(t[30] + t[31] * 0x100);
        let c = erase_field(t[32] + t[33] * 0x100);
        let d = erase_field(t[34] + t[35] * 0x100);
        assert(types =~= a + b + c + d);
        assert forall|e: nat| 1 <= e <= 31 implies #[trigger] pow2(e) as u32 == pow2(e) by {
            vstd::bits::lemma_u32_pow2_no_overflow(e);
        }
        assert(forall|j: int| 0 <= j < a.len() ==> types[j] == a[j]);
        assert(forall|j: int| 0 <= j < b.len() ==> types[a.len() + j] == b[j]);
        assert(forall|j: int| 0 <= j < c.len() ==> types[a.len() + b.len() + j] == c[j]);
        assert(forall|j: int| 0 <= j < d.len() ==> types[a.len() + b.len() + c.len() + j] == d[j]);
        if 0 <= k < 4 && t[29 + 2 * k] > 0 && 1 <= t[28 + 2 * k] <= 31 {
            let j: int = if k == 0 {
                0
            } else if k == 1 {
                a.len() as int
            } else if k == 2 {
                (a.len() + b.len()) as int
            } else {
                (a.len() + b.len() + c.len()) as int
            };
            assert(types[j] == listed_type(t, k)->0);
        }
        if 0 <= k < types.len() {
            let j: int = if k < a.len() {
                0
            } else if k < a.len() + b.len() {
                1
            } else if k < a.len() + b.len() + c.len() {
                2
            } else {
                3
            };
            assert(listed_type(t, j) == Some(types[k]));
            assert(types[k].opcode == t[29 + 2 * j]);
        }
    }
}

/// What else a table says, byte by byte: the density from byte 4 on, low byte first; the
/// fast reads and DTR in byte 2; the page size exponent in the high half of byte 40; the typical
/// chip erase time in byte 43, as a count less one below and a unit of 16 ms, 256 ms, 4 s or 64 s
/// above.
pub proof fn law_table_is_read_from_its_bytes(t: Seq<u8>, major: u8, minor: u8)
    requires
        t.len() <= u32::MAX,
    ensures
        t.len() < 8 ==> basic_table(t, major, minor) is Err,
        t.len() >= 8 ==> {
            let word = t[4] + t[5] * 0x100 + t[6] * 0x1_0000 + t[7] * 0x100_0000;
            &&& basic_table(t, major, minor) is Ok <==> density_bytes(word as u32) is Ok
            &&& basic_table(t, major, minor) matches Ok(m) ==> {
                &&& m.sfdp_rev == (major, minor)
                &&& density_bytes(word as u32) == Ok::<u32, Error>(m.size_bytes)
                &&& m.fast_read_114 <==> (t[2] as int / 64) % 2 == 1
                &&& m.fast_read_144 <==> (t[2] as int / 32) % 2 == 1
                &&& m.dtr_supported <==> (t[2] as int / 8) % 2 == 1
                &&& m.erase_types == table_erase_types(t)
                &&& m.table_bytes == t.len()
                &&& m.is_partial <==> t.len() < 36
                &&& t.len() < 44 ==> m.page_size == 256 && m.chip_erase_typ_ms is None
                &&& t.len() >= 44 ==> {
                    let exp = t[40] as int / 16;
                    let count = t[43] as int % 32;
                    let unit = (t[43] as int / 32) % 4;
                    &&& m.page_size == if 1 <= exp <= 9 {
                        pow2(exp as nat) as int
                    } else {
                        256
                    }
                    &&& count == 0 ==> m.chip_erase_typ_ms is None
                    &&& count > 0 ==> m.chip_erase_typ_ms is Some
                    &&& m.chip_erase_typ_ms matches Some(ms) ==> {
                        &&& unit == 0 ==> ms == (count + 1) * 16
                        &&& unit == 1 ==> ms == (count + 1) * 256
                        &&& unit == 2 ==> ms == (count + 1) * 4000
                        &&& unit == 3 ==> ms == (count + 1) * 64000
                    }
                }
            }
        },
{
    if t.len() >= 8 {
        lemma_third_byte(t[0], t[1], t[2], t[3]);
        vstd::arithmetic::power2::lemma2_to64();
        if t.len() >= 44 {
            lemma_outer_bytes(t[40], t[41], t[42], t[43]);
            let exp = t[40] as int / 16;
            if 1 <= exp <= 9 {
                vstd::bits::lemma_u32_pow2_no_overflow(exp as nat);
            }
        }
    }
}

proof fn lemma_third_byte(a: u8, b: u8, c: u8, d: u8)
    ensures
        ({
            let w = a + b * 0x100 + c * 0x1_0000 + d * 0x100_0000;
            &&& (w / 0x40_0000) % 2 == (c as int / 64) % 2
            &&& (w / 0x20_0000) % 2 == (c as int / 32) % 2
            &&& (w / 0x8_0000) % 2 == (c as int / 8) % 2
        }),
{
    let w = a + b * 0x100 + c * 0x1_0000 + d * 0x100_0000;
    lemma_bit_of_third_byte(a + b * 0x100, c as int, d as int, 64, 2);
    lemma_bit_of_third_byte(a + b * 0x100, c as int, d as int, 32, 4);
    lemma_bit_of_third_byte(a + b * 0x100, c as int, d as int, 8, 16);
}

proof fn lemma_bit_of_third_byte(low: int, c: int, d: int, weight: int, up: int)
    requires
        0 <= low < 0x1_0000,
        0 <= c < 0x100,
        0 <= d,
        weight > 0,
        up > 0,
        weight * up * 2 == 0x100,
    ensures
        ((low + c * 0x1_0000 + d * 0x100_0000) / (weight * 0x1_0000)) % 2 == (c / weight) % 2,
{
    let w = low + c * 0x1_0000 + d * 0x100_0000;
    let q = c / weight;
    let r = c % weight;
    vstd::arithmetic::div_mod::lemma_fundamental_div_mod(c, weight);
    assert(w == (q + 2 * (up * d)) * (weight * 0x1_0000) + (low + r * 0x1_0000))
        by (nonlinear_arith)
        requires
            w == low + c * 0x1_0000 + d * 0x100_0000,
            c == weight * q + r,
            weight * up * 2 == 0x100,
    ;
    vstd::arithmetic::div_mod::lemma_fundamental_div_mod_converse(
        w,
        weight * 0x1_0000,
        q + 2 * (up * d),
        low + r * 0x1_0000,
    );
    assert((q + 2 * (up * d)) % 2 == q % 2) by (nonlinear_arith);
}

proof fn lemma_outer_bytes(a: u8, b: u8, c: u8, d: u8)
    ensures
        ({
            let w = a + b * 0x100 + c * 0x1_0000 + d * 0x100_0000;
            &&& (w / 0x10) % 0x10 == a as int / 16
            &&& (w / 0x100_0000) % 0x20 == d as int % 32
            &&& (w / 0x2000_0000) % 4 == (d as int / 32) % 4
        }),
{
    let w = a + b * 0x100 + c * 0x1_0000 + d * 0x100_0000;
    let low = a + b * 0x100 + c * 0x1_0000;
    let above = b + c * 0x100 + d * 0x1_0000;
    vstd::arithmetic::div_mod::lemma_fundamental_div_mod_converse(
        w,
        0x10,
        a as int / 16 + 16 * above,
        a as int % 16,
    );
    vstd::arithmetic::div_mod::lemma_fundamental_div_mod_converse(
        a as int / 16 + 16 * above,
        0x10,
        above,
        a as int / 16,
    );
    vstd::arithmetic::div_mod::lemma_fundamental_div_mod_converse(w, 0x100_0000, d as int, low);
    vstd::arithmetic::div_mod::lemma_fundamental_div_mod_converse(
        w,
        0x2000_0000,
        d as int / 32,
        (d as int % 32) * 0x100_0000 + low,
    );
}

/// The table is taken from the last parameter header that has the identifier of the JEDEC Basic
/// table: its address is the three bytes from the fifth on, low byte first, and its length the
/// fourth byte, in words of four bytes.
pub proof fn law_last_basic_header_gives_the_table(headers: Seq<u8>, n: int, i: int)
    requires
        0 <= i < n,
        headers.len() >= n * 8,
        headers[i * 8] == 0x00 && headers[i * 8 + 7] == 0xFF,
        forall|j: int|
            i < j < n ==> !(#[trigger] headers[j * 8] == 0x00 && headers[j * 8 + 7] == 0xFF),
    ensures
        basic_pointer(headers, n) matches Some((ptr, len)) && ptr == crate::spi::bus::be_value(
            seq![headers[i * 8 + 6], headers[i * 8 + 5], headers[i * 8 + 4]],
        ) && len == 4 * headers[i * 8 + 3],
    decreases n - i,
{
    if i == n - 1 {
        let s = seq![headers[i * 8 + 6], headers[i * 8 + 5], headers[i * 8 + 4]];
        reveal_with_fuel(crate::spi::bus::be_value, 4);
        assert(s.drop_last() =~= seq![headers[i * 8 + 6], headers[i * 8 + 5]]);
        assert(s.drop_last().drop_last() =~= seq![headers[i * 8 + 6]]);
        assert(s.drop_last().drop_last().drop_last() =~= Seq::<u8>::empty());
    } else {
        assert(!(headers[(n - 1) * 8] == 0x00 && headers[(n - 1) * 8 + 7] == 0xFF));
        law_last_basic_header_gives_the_table(headers, n - 1, i);
    }
}

/// A chip that only its own table describes is what the table says: size, page size, erase types
/// (where none is listed, 4KB with the customary opcode), the smallest of them as its sector,
/// four address bytes just above 16 MiB, quad reads where a fast read has four data lines, and
/// eight times the typical erase time; its identifier is the one it answered with, and its
/// voltage the one it answered at.
pub proof fn law_self_described_chip_is_what_its_table_says(
    info: SfdpModel,
    rdid: Seq<u8>,
    voltage: Voltage,
    k: int,
)
    requires
        info.wf(),
    ensures
        ({
            let c = sfdp_chip(info, rdid, voltage);
            &&& c.mfr == rdid[0] && c.id1 == rdid[1] && c.id2 == rdid[2]
            &&& c.voltage == ChipVoltage::V1_8 <==> voltage == Voltage::V1_8
            &&& c.size_bytes == info.size_bytes
            &&& c.page_size == info.page_size
            &&& info.erase_types.len() > 0 ==> c.erase_types == info.erase_types
            &&& info.erase_types.len() == 0 ==> c.erase_types == seq![
                EraseType { size_bytes: 4096, opcode: 0x20 },
            ]
            &&& c.sector_is_smallest()
            &&& c.addr_bytes == 4 <==> info.size_bytes > 16 * 1024 * 1024
            &&& c.addr_bytes == 3 <==> info.size_bytes <= 16 * 1024 * 1024
            &&& c.quad <==> info.fast_read_114 || info.fast_read_144
            &&& c.chip_erase_max_ms is Some <==> info.chip_erase_typ_ms is Some
            &&& info.chip_erase_typ_ms matches Some(ms) ==> c.chip_erase_max_ms->0 == 8 * ms
        }),
{
    lemma_sfdp_sector(info, rdid, voltage);
}

/// A chip that the database and its own table describe has name, identifier and voltage of the
/// database, and the geometry of the table where that is complete, else of the database; quad
/// reads where either knows of them; four address bytes just above 16 MiB.
pub proof fn law_merged_chip_takes_geometry_from_a_complete_table(db: SpiNorDef, info: SfdpModel)
    requires
        info.wf(),
    ensures
        ({
            let c = merged_chip(db, info);
            &&& c.name == db.name@
            &&& c.mfr == db.mfr && c.id1 == db.id1 && c.id2 == db.id2
            &&& c.voltage == db.voltage
            &&& c.quad <==> db.quad || info.fast_read_114 || info.fast_read_144
            &&& c.sector_is_smallest()
            &&& c.addr_bytes == 4 <==> c.size_bytes > 16 * 1024 * 1024
            &&& c.addr_bytes == 3 <==> c.size_bytes <= 16 * 1024 * 1024
            &&& info.is_partial ==> {
                &&& c.size_bytes == db.size_bytes
                &&& c.page_size == db.page_size
                &&& c.erase_size == db.erase_size
                &&& c.erase_types.len() == 1
                &&& c.chip_erase_max_ms is None
            }
            &&& !info.is_partial ==> {
                &&& c.size_bytes == info.size_bytes
                &&& c.page_size == info.page_size
                &&& info.erase_types.len() > 0 ==> c.erase_types == info.erase_types
                &&& info.erase_types.len() == 0 ==> c.erase_size == db.erase_size
                &&& c.chip_erase_max_ms is Some <==> info.chip_erase_typ_ms is Some
                &&& info.chip_erase_typ_ms matches Some(ms) ==> c.chip_erase_max_ms->0 == 8 * ms
            }
        }),
{
    lemma_merged_sector(db, info);
}

/// A raw SFDP read sends the opcode, three address bytes and one dummy byte, and asks for as many
/// bytes as it receives.
pub proof fn law_sfdp_read_names_its_range(addr: u32, len: u32)
    requires
        len <= 0xFF_FFFF,
    ensures
        ({
            let script = sfdp_script(addr, len);
            &&& script.len() == 2
            &&& script[0] matches OpModel::Control { req, data, payload, settle }
            &&& script[1] == OpModel::BulkIn { len }
            &&& req == UsbReq::SpiReadFlash
            &&& payload.len() == 11
            &&& payload[0] == 0x5A
            &&& payload[1] == 3
            &&& crate::spi::bus::be_value(payload.subrange(2, 6)) == addr
            &&& crate::spi::bus::be_value(payload.subrange(6, 9)) == len
            &&& payload[9] == 1
        }),
{
    crate::spi::bus::law_address_bytes_spell_the_address(4, addr);
    crate::spi::bus::law_address_bytes_spell_the_address(3, len);
    let packet = read_setup(0x5A, 3, addr, len, 1);
    assert(packet.subrange(2, 6) =~= crate::spi::bus::be4(addr));
    assert(packet.subrange(6, 9) =~= crate::spi::bus::be3(len));
}

/// The name of a chip that is only known from its table shows the three bytes of its identifier.
pub proof fn law_name_shows_the_identifier(rdid: Seq<u8>)
    requires
        rdid.len() == 3,
    ensures
        sfdp_name(rdid).subrange(9, 13) == hex_text(rdid[0] as nat, 2),
        sfdp_name(rdid).subrange(14, 18) == hex_text(rdid[1] as nat, 2),
        sfdp_name(rdid).subrange(19, 23) == hex_text(rdid[2] as nat, 2),
        sfdp_name(rdid).skip(23) == ") via SFDP"@,
{
    reveal_strlit("Unknown (");
    reveal_strlit(":");
    reveal_strlit("0x");
    crate::text::law_byte_takes_two_digits(rdid[0], false);
    crate::text::law_byte_takes_two_digits(rdid[1], false);
    crate::text::law_byte_takes_two_digits(rdid[2], false);
    let name = sfdp_name(rdid);
    assert(name.subrange(9, 13) =~= hex_text(rdid[0] as nat, 2));
    assert(name.subrange(14, 18) =~= hex_text(rdid[1] as nat, 2));
    assert(name.subrange(19, 23) =~= hex_text(rdid[2] as nat, 2));
    assert(name.skip(23) =~= ") via SFDP"@);
}

} // verus!
