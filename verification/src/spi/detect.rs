//! Identifying the chip at a voltage that was asked for.
use vstd::prelude::*;

use crate::chip::{ChipModel, EraseType, ParamSource, ResolvedChip};
use crate::db::{entries, lookup, matching_from, ChipVoltage, SpiNorDef};
use crate::error::Error;
use crate::fpga::Voltage;
use crate::host::{push_op, push_opcode, script_of, send, HostOp, OpModel};
use crate::spi::probe::{
    answers, lemma_candidates, lemma_listed_first, lemma_unlisted, listed_as, listed_first, suits,
    unlisted_from,
};
use crate::spi::sfdp::{
    chip_voltage_of, reset_script, sfdp_chip, sfdp_to_resolved, soft_reset,
    voltage_to_chip_voltage, SfdpInfo, SfdpModel,
};

verus! {

pub const CMD_RDID: u8 = 0x9F;

pub const CMD_ENTER_4BYTE: u8 = 0xB7;

/// The script that reads the identifier.
pub open spec fn rdid_script() -> Seq<OpModel> {
    seq![OpModel::Transfer { tx: seq![CMD_RDID], rx_len: 3 }]
}

/// The script that switches the chip to 4-byte addresses.
pub open spec fn enter_4byte_script() -> Seq<OpModel> {
    seq![send(seq![CMD_ENTER_4BYTE])]
}

/// The script that reads the identifier.
pub fn rdid() -> (script: Vec<HostOp>)
    ensures
        script_of(script@) == rdid_script(),
{
    let mut script: Vec<HostOp> = Vec::new();
    let mut tx: Vec<u8> = Vec::new();
    tx.push(CMD_RDID);
    push_op(&mut script, HostOp::Transfer { tx, rx_len: 3 });
    assert(script_of(script@) =~~= seq![OpModel::Transfer { tx: seq![CMD_RDID], rx_len: 3 }]);
    script
}

/// Decodes an identifier.
pub fn decode_rdid(reply: &[u8]) -> (r: Result<[u8; 3], Error>)
    ensures
        match r {
            Ok(id) => reply@.len() >= 3 && id@ == reply@.take(3),
            Err(e) => reply@.len() < 3 && e == (Error::ShortRdid {
                bytes: reply@.len() as usize,
            }),
        },
{
    if reply.len() < 3 {
        return Err(Error::ShortRdid { bytes: reply.len() });
    }
    let id: [u8; 3] = [reply[0], reply[1], reply[2]];
    assert(id@ =~= reply@.take(3));
    Ok(id)
}

/// The script of a software reset.
pub fn software_reset() -> (script: Vec<HostOp>)
    ensures
        script_of(script@) == reset_script(),
{
    soft_reset()
}

/// The script that switches the chip to 4-byte addresses.
pub fn enter_4byte_mode() -> (script: Vec<HostOp>)
    ensures
        script_of(script@) == enter_4byte_script(),
{
    let mut script: Vec<HostOp> = Vec::new();
    push_opcode(&mut script, CMD_ENTER_4BYTE);
    assert(script_of(script@) =~= seq![send(seq![CMD_ENTER_4BYTE])]);
    script
}

/// Whether a manufacturer byte means that nothing answered.
pub open spec fn blank_id(mfr: u8) -> bool {
    mfr == 0xFF || mfr == 0x00
}

/// Whether a manufacturer byte means that nothing answered.
pub fn is_blank_id(mfr: u8) -> (r: bool)
    ensures
        r == blank_id(mfr),
{
    mfr == 0xFF || mfr == 0x00
}

/// The descriptor that a database entry gives on its own.
pub open spec fn db_chip(db: SpiNorDef) -> ChipModel {
    ChipModel {
        name: db.name@,
        mfr: db.mfr,
        id1: db.id1,
        id2: db.id2,
        voltage: db.voltage,
        size_bytes: db.size_bytes,
        page_size: db.page_size,
        erase_size: db.erase_size,
        erase_types: seq![
            EraseType {
                size_bytes: db.erase_size,
                opcode: if db.addr_bytes == 4 {
                    if db.erase_size <= 4096 {
                        0x21
                    } else {
                        0xDC
                    }
                } else {
                    if db.erase_size <= 4096 {
                        0x20
                    } else {
                        0xD8
                    }
                },
            },
        ],
        addr_bytes: db.addr_bytes,
        quad: db.quad,
        source: ParamSource::Database,
        chip_erase_max_ms: None,
    }
}

/// Builds a descriptor from a database entry alone.
pub fn db_chip_to_resolved(db: &SpiNorDef) -> (r: ResolvedChip)
    ensures
        r@ == db_chip(*db),
        r@.sector_is_smallest(),
{
    let opcode: u8 = if db.addr_bytes == 4 {
        if db.erase_size <= 4096 {
            0x21
        } else {
            0xDC
        }
    } else {
        if db.erase_size <= 4096 {
            0x20
        } else {
            0xD8
        }
    };
    let mut erase_types: Vec<EraseType> = Vec::new();
    erase_types.push(EraseType { size_bytes: db.erase_size, opcode });
    let r = ResolvedChip {
        name: db.name.clone(),
        mfr: db.mfr,
        id1: db.id1,
        id2: db.id2,
        voltage: db.voltage,
        size_bytes: db.size_bytes,
        page_size: db.page_size,
        erase_size: db.erase_size,
        erase_types,
        addr_bytes: db.addr_bytes,
        quad: db.quad,
        source: ParamSource::Database,
        chip_erase_max_ms: None,
    };
    assert(r@ =~= db_chip(*db));
    assert(r@.erase_types[0].size_bytes == r@.erase_size);
    r
}

/// The entry for a voltage among the first `n` candidates that is smallest, and among those
/// the first.
pub open spec fn smallest_at(candidates: Seq<SpiNorDef>, voltage: ChipVoltage, n: int) -> Option<
    SpiNorDef,
>
    decreases n,
{
    if n <= 0 {
        None
    } else {
        let before = smallest_at(candidates, voltage, n - 1);
        let c = candidates[n - 1];
        if c.voltage != voltage {
            before
        } else {
            match before {
                Some(b) => if c.size_bytes < b.size_bytes {
                    Some(c)
                } else {
                    Some(b)
                },
                None => Some(c),
            }
        }
    }
}

/// The voltage that a chip needs.
pub open spec fn needed_voltage(v: ChipVoltage) -> Voltage {
    match v {
        ChipVoltage::V1_8 => Voltage::V1_8,
        ChipVoltage::V3_3 => Voltage::V3_3,
    }
}

/// What the database says of an identifier at a voltage.
pub open spec fn known_chip(db: Seq<SpiNorDef>, id: Seq<u8>, voltage: Voltage) -> Result<
    Option<ChipModel>,
    Error,
> {
    let candidates = matching_from(db, id[0], id[1], id[2], 0);
    if blank_id(id[0]) || candidates.len() == 0 {
        Ok(None)
    } else {
        match smallest_at(candidates, chip_voltage_of(voltage), candidates.len() as int) {
            None => Err(
                Error::VoltageMismatch {
                    required: needed_voltage(candidates[0].voltage),
                    target: voltage,
                },
            ),
            Some(c) => Ok(Some(db_chip(c))),
        }
    }
}

/// Looks an identifier up for a voltage.  Among several entries for the voltage the smallest
/// is taken, so that no address lies outside the chip; an identifier that only stands for
/// chips of another voltage is refused.
pub fn detect_from_id(db: &[SpiNorDef], id: [u8; 3], voltage: Voltage) -> (r: Result<
    Option<ResolvedChip>,
    Error,
>)
    ensures
        match known_chip(db@, id@, voltage) {
            Ok(None) => r matches Ok(None),
            Ok(Some(m)) => r matches Ok(Some(chip)) && chip@ == m,
            Err(e) => r == Err::<Option<ResolvedChip>, _>(e),
        },
{
    if is_blank_id(id[0]) {
        return Ok(None);
    }
    let candidates = lookup(db, id[0], id[1], id[2]);
    let ghost all = entries(candidates@);
    if candidates.len() == 0 {
        return Ok(None);
    }
    let expected: ChipVoltage = voltage_to_chip_voltage(voltage);
    let mut best: Option<&SpiNorDef> = None;
    let mut i: usize = 0;
    while i < candidates.len()
        invariant
            i <= candidates.len(),
            all == entries(candidates@),
            match best {
                Some(b) => smallest_at(all, expected, i as int) == Some(*b),
                None => smallest_at(all, expected, i as int) is None,
            },
        decreases candidates.len() - i,
    {
        let c = candidates[i];
        if c.voltage == expected {
            match best {
                Some(b) => {
                    if c.size_bytes < b.size_bytes {
                        best = Some(c);
                    }
                },
                None => {
                    best = Some(c);
                },
            }
        }
        i += 1;
    }
    match best {
        Some(c) => Ok(Some(db_chip_to_resolved(c))),
        None => {
            let required: Voltage = match candidates[0].voltage {
                ChipVoltage::V1_8 => Voltage::V1_8,
                ChipVoltage::V3_3 => Voltage::V3_3,
            };
            Err(Error::VoltageMismatch { required, target: voltage })
        },
    }
}

/// How many of the first `n` candidates are made for a voltage.
pub open spec fn count_at(candidates: Seq<SpiNorDef>, voltage: ChipVoltage, n: int) -> nat
    decreases n,
{
    if n <= 0 {
        0
    } else {
        count_at(candidates, voltage, n - 1) + (if candidates[n - 1].voltage == voltage {
            1nat
        } else {
            0
        })
    }
}

/// Whether all candidates for a voltage have the same size.
pub open spec fn one_size_at(candidates: Seq<SpiNorDef>, voltage: ChipVoltage) -> bool {
    forall|i: int, j: int|
        0 <= i < candidates.len() && 0 <= j < candidates.len() && (
        #[trigger] candidates[i]).voltage == voltage && (#[trigger] candidates[j]).voltage
            == voltage ==> candidates[i].size_bytes == candidates[j].size_bytes
}

/// How many entries for the voltage share an identifier, where they disagree on the size: the
/// smallest is then used, and only SFDP could tell which chip it is.
pub fn size_conflict(db: &[SpiNorDef], id: [u8; 3], voltage: Voltage) -> (r: Option<usize>)
    ensures
        ({
            let candidates = matching_from(db@, id@[0], id@[1], id@[2], 0);
            let expected = chip_voltage_of(voltage);
            match r {
                None => blank_id(id@[0]) || one_size_at(candidates, expected),
                Some(n) => !blank_id(id@[0]) && !one_size_at(candidates, expected) && n
                    == count_at(candidates, expected, candidates.len() as int),
            }
        }),
{
    if is_blank_id(id[0]) {
        return None;
    }
    let candidates = lookup(db, id[0], id[1], id[2]);
    let ghost all = entries(candidates@);
    let expected: ChipVoltage = voltage_to_chip_voltage(voltage);
    let mut first: Option<&SpiNorDef> = None;
    let mut differ = false;
    let mut count: usize = 0;
    let mut i: usize = 0;
    let ghost mut at: int = 0;
    let ghost mut other: int = 0;
    while i < candidates.len()
        invariant
            i <= candidates.len(),
            all == entries(candidates@),
            count <= i,
            count == count_at(all, expected, i as int),
            match first {
                Some(f) => 0 <= at < i && all[at] == *f && f.voltage == expected,
                None => forall|k: int| 0 <= k < i ==> (#[trigger] all[k]).voltage != expected,
            },
            differ ==> first is Some && 0 <= other < i && all[other].voltage == expected
                && all[other].size_bytes != all[at].size_bytes,
            !differ && first is Some ==> forall|k: int|
                0 <= k < i && (#[trigger] all[k]).voltage == expected ==> all[k].size_bytes
                    == all[at].size_bytes,
        decreases candidates.len() - i,
    {
        let c = candidates[i];
        assert(all[i as int] == *c);
        if c.voltage == expected {
            count += 1;
            match first {
                Some(f) => {
                    if f.size_bytes != c.size_bytes {
                        differ = true;
                        proof {
                            other = i as int;
                        }
                    }
                },
                None => {
                    first = Some(c);
                    proof {
                        at = i as int;
                    }
                },
            }
        }
        i += 1;
    }
    if differ {
        assert(all[at].voltage == expected && all[other].voltage == expected);
        Some(count)
    } else {
        assert(one_size_at(all, expected));
        None
    }
}

/// Where a detection stands.
#[derive(Debug, Clone, Copy, PartialEq, Eq)]
pub enum DetectState {
    /// Waiting for the first identifier.
    FirstId,
    /// Waiting for the identifier after a reset.
    RetryId,
    /// Waiting for what SFDP says of a chip with this identifier.
    Sfdp([u8; 3]),
    Finished,
}

/// What a detection is told.
#[derive(Debug)]
pub enum DetectEvent {
    Id([u8; 3]),
    /// What SFDP says, if it says anything.
    Sfdp(Option<SfdpInfo>),
}

/// What a detection does next.
#[derive(Debug)]
pub enum DetectNext {
    ResetThenReadId,
    ReadSfdp,
    /// Switch to 4-byte addresses where asked for, and take the chip, if there is one.
    Done { chip: Option<ResolvedChip>, enter_4byte: bool },
    Stop(Error),
}

/// The contents of a [`DetectNext`].
#[verifier::ext_equal]
pub enum DetectModel {
    ResetThenReadId,
    ReadSfdp,
    Done { chip: Option<ChipModel>, enter_4byte: bool },
    Stop(Error),
}

/// The contents of a descriptor that may be missing.
pub open spec fn chip_view(chip: Option<ResolvedChip>) -> Option<ChipModel> {
    match chip {
        Some(c) => Some(c@),
        None => None,
    }
}

/// The contents of an SFDP description that may be missing.
pub open spec fn info_view(info: Option<SfdpInfo>) -> Option<SfdpModel> {
    match info {
        Some(i) => Some(i@),
        None => None,
    }
}

impl View for DetectNext {
    type V = DetectModel;

    open spec fn view(&self) -> DetectModel {
        match *self {
            DetectNext::ResetThenReadId => DetectModel::ResetThenReadId,
            DetectNext::ReadSfdp => DetectModel::ReadSfdp,
            DetectNext::Done { chip, enter_4byte } => DetectModel::Done {
                chip: chip_view(chip),
                enter_4byte,
            },
            DetectNext::Stop(e) => DetectModel::Stop(e),
        }
    }
}

impl DetectEvent {
    pub open spec fn wf(self) -> bool {
        self matches DetectEvent::Sfdp(Some(info)) ==> info@.wf()
    }
}

/// The end of a detection with the given outcome.
pub open spec fn detect_done(chip: Option<ChipModel>) -> (DetectState, DetectModel) {
    (
        DetectState::Finished,
        DetectModel::Done {
            chip,
            enter_4byte: chip matches Some(c) && c.addr_bytes == 4,
        },
    )
}

/// What follows from an identifier that shall be used.
pub open spec fn detect_with_id(db: Seq<SpiNorDef>, id: [u8; 3], voltage: Voltage) -> (
    DetectState,
    DetectModel,
) {
    match known_chip(db, id@, voltage) {
        Err(e) => (DetectState::Finished, DetectModel::Stop(e)),
        Ok(Some(c)) => detect_done(Some(c)),
        Ok(None) => if blank_id(id@[0]) {
            detect_done(None)
        } else {
            (DetectState::Sfdp(id), DetectModel::ReadSfdp)
        },
    }
}

/// What follows from an event: a blank first identifier leads to one reset and a second
/// try; an identifier that is not in the database leads to SFDP.
pub open spec fn detect_step(
    db: Seq<SpiNorDef>,
    voltage: Voltage,
    state: DetectState,
    event: DetectEvent,
) -> (DetectState, DetectModel) {
    match (state, event) {
        (DetectState::FirstId, DetectEvent::Id(id)) => if blank_id(id@[0]) {
            (DetectState::RetryId, DetectModel::ResetThenReadId)
        } else {
            detect_with_id(db, id, voltage)
        },
        (DetectState::RetryId, DetectEvent::Id(id)) => detect_with_id(db, id, voltage),
        (DetectState::Sfdp(id), DetectEvent::Sfdp(Some(info))) => detect_done(
            Some(sfdp_chip(info@, id@, voltage)),
        ),
        _ => detect_done(None),
    }
}

fn finish(chip: Option<ResolvedChip>) -> (r: (DetectState, DetectNext))
    ensures
        (r.0, r.1@) == detect_done(chip_view(chip)),
{
    let enter_4byte = match &chip {
        Some(c) => c.addr_bytes == 4,
        None => false,
    };
    (DetectState::Finished, DetectNext::Done { chip, enter_4byte })
}

fn use_id(db: &[SpiNorDef], id: [u8; 3], voltage: Voltage) -> (r: (DetectState, DetectNext))
    ensures
        (r.0, r.1@) == detect_with_id(db@, id, voltage),
{
    match detect_from_id(db, id, voltage) {
        Err(e) => (DetectState::Finished, DetectNext::Stop(e)),
        Ok(Some(c)) => finish(Some(c)),
        Ok(None) => if is_blank_id(id[0]) {
            finish(None)
        } else {
            (DetectState::Sfdp(id), DetectNext::ReadSfdp)
        },
    }
}

/// Takes an event of a detection and decides what to do next.
pub fn detect(db: &[SpiNorDef], voltage: Voltage, state: DetectState, event: DetectEvent) -> (r: (
    DetectState,
    DetectNext,
))
    requires
        event.wf(),
    ensures
        (r.0, r.1@) == detect_step(db@, voltage, state, event),
{
    match (state, event) {
        (DetectState::FirstId, DetectEvent::Id(id)) => if is_blank_id(id[0]) {
            (DetectState::RetryId, DetectNext::ResetThenReadId)
        } else {
            use_id(db, id, voltage)
        },
        (DetectState::RetryId, DetectEvent::Id(id)) => use_id(db, id, voltage),
        (DetectState::Sfdp(id), DetectEvent::Sfdp(Some(info))) => finish(
            Some(sfdp_to_resolved(&info, id, voltage)),
        ),
        _ => finish(None),
    }
}

proof fn lemma_smallest_at(candidates: Seq<SpiNorDef>, voltage: ChipVoltage, n: int)
    requires
        n <= candidates.len(),
    ensures
        smallest_at(candidates, voltage, n) matches Some(c) ==> c.voltage == voltage
            && candidates.contains(c) && forall|k: int|
            0 <= k < n && (#[trigger] candidates[k]).voltage == voltage ==> c.size_bytes
                <= candidates[k].size_bytes,
        smallest_at(candidates, voltage, n) is None ==> forall|k: int|
            0 <= k < n ==> (#[trigger] candidates[k]).voltage != voltage,
    decreases n,
{
    if n > 0 {
        lemma_smallest_at(candidates, voltage, n - 1);
        assert(candidates.contains(candidates[n - 1]));
    }
}

/// The database never names a chip of another voltage than the one that was asked for, and
/// never one larger than another candidate for that voltage.
pub proof fn law_known_chip_suits_the_voltage(db: Seq<SpiNorDef>, id: Seq<u8>, voltage: Voltage)
    ensures
        known_chip(db, id, voltage) matches Ok(Some(chip)) ==> {
            let candidates = matching_from(db, id[0], id[1], id[2], 0);
            &&& chip.voltage == chip_voltage_of(voltage)
            &&& forall|k: int|
                0 <= k < candidates.len() && (#[trigger] candidates[k]).voltage == chip.voltage
                    ==> chip.size_bytes <= candidates[k].size_bytes
        },
{
    let candidates = matching_from(db, id[0], id[1], id[2], 0);
    lemma_smallest_at(candidates, chip_voltage_of(voltage), candidates.len() as int);
}

/// A descriptor that comes from a database entry alone has the entry's fields; its one erase type
/// is its sector, with an opcode that goes with its address width.
pub proof fn law_chip_from_the_database_is_its_entry(db: SpiNorDef)
    ensures
        ({
            let c = db_chip(db);
            &&& c.name == db.name@
            &&& c.mfr == db.mfr && c.id1 == db.id1 && c.id2 == db.id2
            &&& c.voltage == db.voltage
            &&& c.size_bytes == db.size_bytes
            &&& c.page_size == db.page_size
            &&& c.erase_size == db.erase_size
            &&& c.addr_bytes == db.addr_bytes
            &&& c.quad == db.quad
            &&& c.chip_erase_max_ms is None
            &&& c.erase_types.len() == 1
            &&& c.erase_types[0].size_bytes == db.erase_size
            &&& db.addr_bytes == 4 && db.erase_size <= 4096 ==> c.erase_types[0].opcode == 0x21
            &&& db.addr_bytes == 4 && db.erase_size > 4096 ==> c.erase_types[0].opcode == 0xDC
            &&& db.addr_bytes != 4 && db.erase_size <= 4096 ==> c.erase_types[0].opcode == 0x20
            &&& db.addr_bytes != 4 && db.erase_size > 4096 ==> c.erase_types[0].opcode == 0xD8
        }),
{
}

/// At a voltage that was asked for, a chip is found as soon as some entry with its identifier
/// suits the voltage: it is such an entry, and no such entry is smaller.
pub proof fn law_listed_chip_is_detected(
    db: Seq<SpiNorDef>,
    voltage: Voltage,
    id: [u8; 3],
    k: int,
)
    requires
        id@[0] != 0x00 && id@[0] != 0xFF,
        0 <= k < db.len(),
        answers(db[k], id),
        suits(voltage, db[k].voltage),
    ensures
        ({
            let (state, next) = detect_step(
                db,
                voltage,
                DetectState::FirstId,
                DetectEvent::Id(id),
            );
            &&& state == DetectState::Finished
            &&& next matches DetectModel::Done { chip, enter_4byte }
            &&& chip matches Some(c)
            &&& suits(voltage, c.voltage)
            &&& c.size_bytes <= db[k].size_bytes
            &&& enter_4byte <==> c.addr_bytes == 4
            &&& exists|m: int|
                0 <= m < db.len() && answers(#[trigger] db[m], id) && c == db_chip(db[m])
        }),
        detect_step(db, voltage, DetectState::RetryId, DetectEvent::Id(id)) == detect_step(
            db,
            voltage,
            DetectState::FirstId,
            DetectEvent::Id(id),
        ),
{
    let candidates = matching_from(db, id@[0], id@[1], id@[2], 0);
    let n = candidates.len() as int;
    let want = chip_voltage_of(voltage);
    lemma_candidates(db, id, 0);
    lemma_smallest_at(candidates, want, n);
    assert(candidates.contains(db[k]));
    let d = choose|d: int| 0 <= d < n && candidates[d] == db[k];
    assert(candidates[d].voltage == want);
    let c = smallest_at(candidates, want, n)->0;
    let e = choose|e: int| 0 <= e < n && candidates[e] == c;
    assert(listed_as(db, id, 0, candidates[e]));
    let m = choose|m: int| 0 <= m < db.len() && answers(#[trigger] db[m], id) && db[m] == c;
    assert(db_chip(db[m]) == db_chip(c));
}

/// A chip whose entries all need another voltage is refused, with the voltage that the first of
/// them needs.
pub proof fn law_listed_chip_of_another_voltage_is_refused(
    db: Seq<SpiNorDef>,
    voltage: Voltage,
    id: [u8; 3],
    k: int,
)
    requires
        id@[0] != 0x00 && id@[0] != 0xFF,
        listed_first(db, id, k),
        forall|m: int|
            0 <= m < db.len() && answers(#[trigger] db[m], id) ==> !suits(voltage, db[m].voltage),
    ensures
        detect_step(db, voltage, DetectState::FirstId, DetectEvent::Id(id)) == (
            DetectState::Finished,
            DetectModel::Stop(
                Error::VoltageMismatch {
                    required: if voltage == Voltage::V1_8 {
                        Voltage::V3_3
                    } else {
                        Voltage::V1_8
                    },
                    target: voltage,
                },
            ),
        ),
{
    let candidates = matching_from(db, id@[0], id@[1], id@[2], 0);
    let n = candidates.len() as int;
    let want = chip_voltage_of(voltage);
    lemma_candidates(db, id, 0);
    lemma_listed_first(db, id, 0, k);
    lemma_smallest_at(candidates, want, n);
    assert(!suits(voltage, db[k].voltage));
    if let Some(c) = smallest_at(candidates, want, n) {
        let e = choose|e: int| 0 <= e < n && candidates[e] == c;
        assert(listed_as(db, id, 0, candidates[e]));
        let m = choose|m: int| 0 <= m < db.len() && answers(#[trigger] db[m], id) && db[m] == c;
        assert(!suits(voltage, db[m].voltage));
    }
}

/// A chip that is not in the database is asked to describe itself, and is then what its table
/// says; if it does not, there is none.
pub proof fn law_self_described_chip_is_detected(
    db: Seq<SpiNorDef>,
    voltage: Voltage,
    id: [u8; 3],
    info: SfdpInfo,
)
    requires
        id@[0] != 0x00 && id@[0] != 0xFF,
        unlisted_from(db, id, 0),
    ensures
        detect_step(db, voltage, DetectState::FirstId, DetectEvent::Id(id)) == (
            DetectState::Sfdp(id),
            DetectModel::ReadSfdp,
        ),
        detect_step(db, voltage, DetectState::RetryId, DetectEvent::Id(id)) == (
            DetectState::Sfdp(id),
            DetectModel::ReadSfdp,
        ),
        ({
            let (state, next) = detect_step(
                db,
                voltage,
                DetectState::Sfdp(id),
                DetectEvent::Sfdp(Some(info)),
            );
            &&& state == DetectState::Finished
            &&& next matches DetectModel::Done { chip, enter_4byte }
            &&& chip matches Some(c)
            &&& c.mfr == id@[0] && c.id1 == id@[1] && c.id2 == id@[2]
            &&& c.size_bytes == info.size_bytes
            &&& c.page_size == info.page_size
            &&& info.erase_types@.len() > 0 ==> c.erase_types == info.erase_types@
            &&& suits(voltage, c.voltage)
            &&& enter_4byte <==> info.size_bytes > 16 * 1024 * 1024
        }),
        detect_step(db, voltage, DetectState::Sfdp(id), DetectEvent::Sfdp(None)) == (
            DetectState::Finished,
            DetectModel::Done { chip: None, enter_4byte: false },
        ),
{
    lemma_unlisted(db, id, 0);
}

/// Silence is answered by one reset and a second try; silence again means that there is no chip.
pub proof fn law_silence_is_tried_twice(db: Seq<SpiNorDef>, voltage: Voltage, id: [u8; 3])
    requires
        id@[0] == 0x00 || id@[0] == 0xFF,
    ensures
        detect_step(db, voltage, DetectState::FirstId, DetectEvent::Id(id)) == (
            DetectState::RetryId,
            DetectModel::ResetThenReadId,
        ),
        detect_step(db, voltage, DetectState::RetryId, DetectEvent::Id(id)) == (
            DetectState::Finished,
            DetectModel::Done { chip: None, enter_4byte: false },
        ),
{
}

/// The count of candidates for a voltage is the number of those that are made for it.
pub proof fn law_candidates_are_counted(candidates: Seq<SpiNorDef>, voltage: ChipVoltage, n: int)
    requires
        0 <= n <= candidates.len(),
    ensures
        count_at(candidates, voltage, n) == candidates.take(n).filter(
            |e: SpiNorDef| e.voltage == voltage,
        ).len(),
    decreases n,
{
    reveal(Seq::filter);
    if n > 0 {
        law_candidates_are_counted(candidates, voltage, n - 1);
        assert(candidates.take(n).drop_last() =~= candidates.take(n - 1));
    }
}

/// The sizes of the entries for a voltage agree just where no two entries of the database that
/// answer to the identifier and are made for the voltage differ in size.
pub proof fn law_disagreeing_sizes_are_noticed(
    db: Seq<SpiNorDef>,
    id: Seq<u8>,
    voltage: ChipVoltage,
    i: int,
    j: int,
)
    requires
        0 <= i < db.len(),
        0 <= j < db.len(),
        db[i].mfr == id[0] && db[i].id1 == id[1] && db[i].id2 == id[2],
        db[j].mfr == id[0] && db[j].id1 == id[1] && db[j].id2 == id[2],
        db[i].voltage == voltage,
        db[j].voltage == voltage,
        db[i].size_bytes != db[j].size_bytes,
    ensures
        !one_size_at(matching_from(db, id[0], id[1], id[2], 0), voltage),
{
    crate::db::law_lookup_finds_all_and_only_the_matches(db, id[0], id[1], id[2]);
    let p = |e: SpiNorDef| e.mfr == id[0] && e.id1 == id[1] && e.id2 == id[2];
    let found = matching_from(db, id[0], id[1], id[2], 0);
    assert(found == db.filter(p));
    db.lemma_filter_contains(p, i);
    db.lemma_filter_contains(p, j);
    assert(found.contains(db[i]));
    assert(found.contains(db[j]));
    let a = choose|k: int| 0 <= k < found.len() && found[k] == db[i];
    let b = choose|k: int| 0 <= k < found.len() && found[k] == db[j];
    assert(found[a].voltage == voltage && found[b].voltage == voltage);
}

/// The identifier is asked for by its opcode and is three bytes long; a reset is enabled before it
/// is asked for.
pub proof fn law_plain_commands_send_their_opcodes()
    ensures
        rdid_script() == seq![OpModel::Transfer { tx: seq![0x9Fu8], rx_len: 3 }],
        crate::spi::sfdp::reset_script().len() == 3,
        crate::spi::sfdp::reset_script()[0] == (OpModel::Transfer { tx: seq![0x66u8], rx_len: 0 }),
        crate::spi::sfdp::reset_script()[1] == (OpModel::Transfer { tx: seq![0x99u8], rx_len: 0 }),
        crate::spi::sfdp::reset_script()[2] is Sleep,
        enter_4byte_script() == seq![OpModel::Transfer { tx: seq![0xB7u8], rx_len: 0 }],
{
}

} // verus!
