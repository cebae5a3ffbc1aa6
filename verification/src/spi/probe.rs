//! Finding the chip and its voltage: 1.8V first, 3.3V only where that is safe.
use vstd::prelude::*;

use crate::chip::{ChipModel, ResolvedChip};
use crate::db::{entries, lookup, matching_from, ChipVoltage, SpiNorDef};
use crate::error::Error;
use crate::fpga::Voltage;
use crate::programmer::Programmer;
use crate::spi::detect::{blank_id, db_chip, db_chip_to_resolved, info_view, is_blank_id};
use crate::spi::sfdp::{
    chip_voltage_of, density_disagrees, merge_db_with_sfdp, merged_chip, sfdp_chip,
    sfdp_to_resolved, SfdpInfo, SfdpModel,
};

verus! {

/// Pause that lets the 1.8V rail drain before 3.3V is applied.
pub const DRAIN_MS: u64 = 300;

/// Whether a socket voltage suits a chip.
pub fn voltage_matches_chip(voltage: Voltage, chip_voltage: ChipVoltage) -> (r: bool)
    ensures
        r == (chip_voltage_of(voltage) == chip_voltage),
{
    match (voltage, chip_voltage) {
        (Voltage::V1_8, ChipVoltage::V1_8) => true,
        (Voltage::V3_3, ChipVoltage::V3_3) => true,
        (Voltage::V5_0, ChipVoltage::V3_3) => true,
        _ => false,
    }
}

/// What is known of a chip at a voltage.
#[derive(Debug)]
pub enum Resolved {
    /// Identified, and the voltage suits it.
    Match(ResolvedChip),
    /// Identified, and the voltage does not suit it.
    WrongVoltage(ResolvedChip),
    /// Neither the database nor SFDP knows it.
    Unknown,
}

/// The contents of a [`Resolved`].
#[verifier::ext_equal]
pub enum ResolvedModel {
    Match(ChipModel),
    WrongVoltage(ChipModel),
    Unknown,
}

impl View for Resolved {
    type V = ResolvedModel;

    open spec fn view(&self) -> ResolvedModel {
        match *self {
            Resolved::Match(c) => ResolvedModel::Match(c@),
            Resolved::WrongVoltage(c) => ResolvedModel::WrongVoltage(c@),
            Resolved::Unknown => ResolvedModel::Unknown,
        }
    }
}

/// Whether all candidates are made for one voltage.
pub open spec fn one_voltage(candidates: Seq<SpiNorDef>) -> bool {
    forall|i: int|
        0 <= i < candidates.len() ==> (#[trigger] candidates[i]).voltage == candidates[0].voltage
}

/// The candidates among the first `n` that have the given size.
pub open spec fn of_size(candidates: Seq<SpiNorDef>, size: u32, n: int) -> Seq<SpiNorDef>
    decreases n,
{
    if n <= 0 {
        Seq::empty()
    } else if candidates[n - 1].size_bytes == size {
        of_size(candidates, size, n - 1).push(candidates[n - 1])
    } else {
        of_size(candidates, size, n - 1)
    }
}

/// The first 3.3V candidate from `i` on, else the first candidate of all.
pub open spec fn first_3v3(candidates: Seq<SpiNorDef>, i: int) -> SpiNorDef
    decreases candidates.len() - i,
{
    if i < 0 || i >= candidates.len() {
        candidates[0]
    } else if candidates[i].voltage == ChipVoltage::V3_3 {
        candidates[i]
    } else {
        first_3v3(candidates, i + 1)
    }
}

/// A descriptor, judged by whether the voltage suits the entry it comes from.
pub open spec fn judged(chip: ChipModel, voltage: Voltage) -> ResolvedModel {
    if chip.voltage == chip_voltage_of(voltage) {
        ResolvedModel::Match(chip)
    } else {
        ResolvedModel::WrongVoltage(chip)
    }
}

/// What the candidates and SFDP say of a chip.
pub open spec fn resolve(
    candidates: Seq<SpiNorDef>,
    rdid: Seq<u8>,
    voltage: Voltage,
    sfdp: Option<SfdpModel>,
) -> Result<ResolvedModel, Error> {
    let refusal = Error::AmbiguousRdid {
        mfr: rdid[0],
        id1: rdid[1],
        id2: rdid[2],
        sfdp: sfdp is Some,
    };
    if candidates.len() == 0 {
        Ok(
            match sfdp {
                Some(info) => ResolvedModel::Match(sfdp_chip(info, rdid, voltage)),
                None => ResolvedModel::Unknown,
            },
        )
    } else if one_voltage(candidates) {
        let c = candidates[0];
        Ok(
            if c.voltage == chip_voltage_of(voltage) {
                ResolvedModel::Match(
                    match sfdp {
                        Some(info) => merged_chip(c, info),
                        None => db_chip(c),
                    },
                )
            } else {
                ResolvedModel::WrongVoltage(db_chip(c))
            },
        )
    } else {
        match sfdp {
            Some(info) => {
                let sized = of_size(candidates, info.size_bytes, candidates.len() as int);
                if sized.len() == 1 {
                    Ok(judged(merged_chip(sized[0], info), voltage))
                } else if voltage == Voltage::V1_8 {
                    Err(refusal)
                } else {
                    Ok(ResolvedModel::Match(sfdp_chip(info, rdid, voltage)))
                }
            },
            None => if voltage == Voltage::V1_8 {
                Err(refusal)
            } else {
                Ok(judged(db_chip(first_3v3(candidates, 0)), voltage))
            },
        }
    }
}

fn share_voltage(candidates: &Vec<&SpiNorDef>) -> (r: bool)
    requires
        candidates@.len() > 0,
    ensures
        r == one_voltage(entries(candidates@)),
{
    let ghost all = entries(candidates@);
    let mut i: usize = 1;
    while i < candidates.len()
        invariant
            1 <= i <= candidates.len(),
            all == entries(candidates@),
            forall|k: int| 0 <= k < i ==> (#[trigger] all[k]).voltage == all[0].voltage,
        decreases candidates.len() - i,
    {
        if candidates[i - 1].voltage != candidates[i].voltage {
            assert(all[i - 1].voltage == all[0].voltage);
            assert(all[i as int].voltage != all[0].voltage);
            return false;
        }
        assert(all[i - 1].voltage == all[0].voltage);
        assert(all[i as int].voltage == all[0].voltage);
        i += 1;
    }
    true
}

/// Whether what SFDP says bears on the outcome for a chip with this identifier: always, but
/// for one whose candidates all need another voltage.
pub open spec fn sfdp_matters(candidates: Seq<SpiNorDef>, voltage: Voltage) -> bool {
    !(candidates.len() > 0 && one_voltage(candidates) && candidates[0].voltage != chip_voltage_of(
        voltage,
    ))
}

/// Decides whether SFDP must be read to resolve an identifier.
pub fn needs_sfdp(db: &[SpiNorDef], rdid: [u8; 3], voltage: Voltage) -> (r: bool)
    ensures
        r == sfdp_matters(matching_from(db@, rdid@[0], rdid@[1], rdid@[2], 0), voltage),
{
    let candidates = lookup(db, rdid[0], rdid[1], rdid[2]);
    let ghost all = entries(candidates@);
    if candidates.len() == 0 {
        return true;
    }
    assert(all[0] == *candidates@[0]);
    !(share_voltage(&candidates) && !voltage_matches_chip(voltage, candidates[0].voltage))
}

fn judge(chip: ResolvedChip, voltage: Voltage) -> (r: Resolved)
    ensures
        r@ == judged(chip@, voltage),
{
    if voltage_matches_chip(voltage, chip.voltage) {
        Resolved::Match(chip)
    } else {
        Resolved::WrongVoltage(chip)
    }
}

fn only_of_size<'a>(candidates: &Vec<&'a SpiNorDef>, size: u32) -> (r: Option<&'a SpiNorDef>)
    ensures
        ({
            let sized = of_size(entries(candidates@), size, candidates@.len() as int);
            match r {
                Some(c) => sized.len() == 1 && *c == sized[0],
                None => sized.len() != 1,
            }
        }),
{
    let ghost all = entries(candidates@);
    let mut found: Option<&SpiNorDef> = None;
    let mut count: usize = 0;
    let mut i: usize = 0;
    while i < candidates.len()
        invariant
            i <= candidates.len(),
            all == entries(candidates@),
            count <= i,
            count == of_size(all, size, i as int).len(),
            match found {
                Some(c) => count > 0 && *c == of_size(all, size, i as int)[0],
                None => count == 0,
            },
        decreases candidates.len() - i,
    {
        let c = candidates[i];
        assert(all[i as int] == *c);
        if c.size_bytes == size {
            if count == 0 {
                found = Some(c);
            }
            count += 1;
        }
        i += 1;
    }
    if count == 1 {
        found
    } else {
        None
    }
}

fn best_3v3<'a>(candidates: &Vec<&'a SpiNorDef>) -> (r: &'a SpiNorDef)
    requires
        candidates@.len() > 0,
    ensures
        *r == first_3v3(entries(candidates@), 0),
{
    let ghost all = entries(candidates@);
    let mut i: usize = 0;
    while i < candidates.len()
        invariant
            i <= candidates.len(),
            all == entries(candidates@),
            first_3v3(all, 0) == first_3v3(all, i as int),
        decreases candidates.len() - i,
    {
        assert(all[i as int] == *candidates@[i as int]);
        if candidates[i].voltage == ChipVoltage::V3_3 {
            return candidates[i];
        }
        i += 1;
    }
    candidates[0]
}

/// Resolves a chip at a voltage: the database first, then SFDP.
///
/// Where several entries share the identifier and agree on the voltage, the first is used.
/// Where they disagree, the SFDP density decides; if it cannot, the chip is refused at 1.8V
/// and described by SFDP, or guessed, at any other voltage.
pub fn resolve_chip(db: &[SpiNorDef], rdid: [u8; 3], voltage: Voltage, sfdp: Option<SfdpInfo>) -> (r:
    Result<Resolved, Error>)
    requires
        sfdp matches Some(info) ==> info@.wf(),
    ensures
        match resolve(
            matching_from(db@, rdid@[0], rdid@[1], rdid@[2], 0),
            rdid@,
            voltage,
            info_view(sfdp),
        ) {
            Ok(m) => r matches Ok(v) && v@ == m,
            Err(e) => r == Err::<Resolved, _>(e),
        },
{
    let (mfr, id1, id2) = (rdid[0], rdid[1], rdid[2]);
    let candidates = lookup(db, mfr, id1, id2);
    let ghost all = entries(candidates@);
    if candidates.len() == 0 {
        return match sfdp {
            Some(info) => Ok(Resolved::Match(sfdp_to_resolved(&info, rdid, voltage))),
            None => Ok(Resolved::Unknown),
        };
    }
    assert(all[0] == *candidates@[0]);
    if share_voltage(&candidates) {
        let c = candidates[0];
        if voltage_matches_chip(voltage, c.voltage) {
            let chip = match sfdp {
                Some(info) => merge_db_with_sfdp(c, &info),
                None => db_chip_to_resolved(c),
            };
            return Ok(Resolved::Match(chip));
        }
        return Ok(Resolved::WrongVoltage(db_chip_to_resolved(c)));
    }
    match sfdp {
        Some(info) => match only_of_size(&candidates, info.size_bytes) {
            Some(c) => Ok(judge(merge_db_with_sfdp(c, &info), voltage)),
            None => if voltage == Voltage::V1_8 {
                Err(Error::AmbiguousRdid { mfr, id1, id2, sfdp: true })
            } else {
                Ok(Resolved::Match(sfdp_to_resolved(&info, rdid, voltage)))
            },
        },
        None => if voltage == Voltage::V1_8 {
            Err(Error::AmbiguousRdid { mfr, id1, id2, sfdp: false })
        } else {
            Ok(judge(db_chip_to_resolved(best_3v3(&candidates)), voltage))
        },
    }
}

/// What deserves a warning in how a chip was resolved.
#[derive(Debug, Clone, Copy, PartialEq, Eq, Structural)]
pub enum Caution {
    /// The identifier is known but SFDP says nothing: the parameters are the database's alone.
    SfdpAbsent,
    /// SFDP states another density than the database.
    DensityDisagrees { sfdp_bytes: u32, db_bytes: u32 },
    /// The candidates could not be told apart: the parameters are SFDP's alone.
    SfdpOnly,
    /// The candidates could not be told apart and SFDP says nothing: one was guessed.
    Guessed,
}

/// What deserves a warning when [`resolve`] takes these candidates for a chip.  A refusal needs
/// none, nor does a chip that is not taken at this voltage.
pub open spec fn caution(
    candidates: Seq<SpiNorDef>,
    voltage: Voltage,
    sfdp: Option<SfdpModel>,
) -> Option<Caution> {
    if candidates.len() == 0 {
        None
    } else if one_voltage(candidates) {
        let c = candidates[0];
        if c.voltage != chip_voltage_of(voltage) {
            None
        } else {
            match sfdp {
                None => Some(Caution::SfdpAbsent),
                Some(info) => if info.size_bytes != c.size_bytes {
                    Some(
                        Caution::DensityDisagrees {
                            sfdp_bytes: info.size_bytes,
                            db_bytes: c.size_bytes,
                        },
                    )
                } else {
                    None
                },
            }
        }
    } else if voltage == Voltage::V1_8 {
        None
    } else {
        match sfdp {
            Some(info) => if of_size(
                candidates,
                info.size_bytes,
                candidates.len() as int,
            ).len() == 1 {
                None
            } else {
                Some(Caution::SfdpOnly)
            },
            None => Some(Caution::Guessed),
        }
    }
}

/// Decides whether how a chip is resolved deserves a warning.
pub fn resolve_caution(
    db: &[SpiNorDef],
    rdid: [u8; 3],
    voltage: Voltage,
    sfdp: &Option<SfdpInfo>,
) -> (r: Option<Caution>)
    ensures
        r == caution(
            matching_from(db@, rdid@[0], rdid@[1], rdid@[2], 0),
            voltage,
            info_view(*sfdp),
        ),
{
    let candidates = lookup(db, rdid[0], rdid[1], rdid[2]);
    let ghost all = entries(candidates@);
    if candidates.len() == 0 {
        return None;
    }
    assert(all[0] == *candidates@[0]);
    if share_voltage(&candidates) {
        let c = candidates[0];
        if !voltage_matches_chip(voltage, c.voltage) {
            return None;
        }
        return match sfdp {
            None => Some(Caution::SfdpAbsent),
            Some(info) => if density_disagrees(c, info) {
                Some(
                    Caution::DensityDisagrees {
                        sfdp_bytes: info.size_bytes,
                        db_bytes: c.size_bytes,
                    },
                )
            } else {
                None
            },
        };
    }
    if voltage == Voltage::V1_8 {
        return None;
    }
    match sfdp {
        Some(info) => match only_of_size(&candidates, info.size_bytes) {
            Some(_) => None,
            None => Some(Caution::SfdpOnly),
        },
        None => Some(Caution::Guessed),
    }
}

/// Where a probe stands.
#[derive(Debug, Clone, Copy, PartialEq, Eq)]
pub enum ProbeState {
    /// Powered at a voltage, waiting for the identifier.
    AwaitId(Voltage),
    /// Waiting for what SFDP says of a chip with this identifier.
    AwaitSfdp(Voltage, [u8; 3]),
    /// A chip was found.
    Identified,
    /// Neither voltage brought an answer.
    NoChip,
    /// It is not safe to go on.
    Refused,
}

/// What a probe is told.
#[derive(Debug)]
pub enum ProbeEvent {
    Id([u8; 3]),
    /// What SFDP says, if it says anything.
    Sfdp(Option<SfdpInfo>),
}

impl ProbeEvent {
    pub open spec fn wf(self) -> bool {
        self matches ProbeEvent::Sfdp(Some(info)) ==> info@.wf()
    }
}

/// What a probe does next.
#[derive(Debug)]
pub enum ProbeNext {
    /// Wait so long, apply the voltage, and read the identifier.
    PowerUp { wait_ms: u64, voltage: Voltage },
    ReadSfdp,
    /// Switch to 4-byte addresses where asked for, and take the chip.
    Found { chip: ResolvedChip, voltage: Voltage, enter_4byte: bool },
    /// Switch the power off.
    PowerOff,
    Stop(Error),
}

/// The contents of a [`ProbeNext`].
#[verifier::ext_equal]
pub enum ProbeModel {
    PowerUp { wait_ms: u64, voltage: Voltage },
    ReadSfdp,
    Found { chip: ChipModel, voltage: Voltage, enter_4byte: bool },
    PowerOff,
    Stop(Error),
}

impl View for ProbeNext {
    type V = ProbeModel;

    open spec fn view(&self) -> ProbeModel {
        match *self {
            ProbeNext::PowerUp { wait_ms, voltage } => ProbeModel::PowerUp { wait_ms, voltage },
            ProbeNext::ReadSfdp => ProbeModel::ReadSfdp,
            ProbeNext::Found { chip, voltage, enter_4byte } => ProbeModel::Found {
                chip: chip@,
                voltage,
                enter_4byte,
            },
            ProbeNext::PowerOff => ProbeModel::PowerOff,
            ProbeNext::Stop(e) => ProbeModel::Stop(e),
        }
    }
}

/// What follows when a voltage brought no chip that can be used there: 3.3V after 1.8V,
/// else nothing more.
pub open spec fn probe_on(voltage: Voltage) -> (ProbeState, ProbeModel) {
    if voltage == Voltage::V1_8 {
        (
            ProbeState::AwaitId(Voltage::V3_3),
            ProbeModel::PowerUp { wait_ms: DRAIN_MS, voltage: Voltage::V3_3 },
        )
    } else {
        (ProbeState::NoChip, ProbeModel::PowerOff)
    }
}

/// What follows from what is known of a chip.
pub open spec fn probe_resolved(
    rdid: Seq<u8>,
    voltage: Voltage,
    resolved: Result<ResolvedModel, Error>,
) -> (ProbeState, ProbeModel) {
    match resolved {
        Err(e) => (ProbeState::Refused, ProbeModel::Stop(e)),
        Ok(ResolvedModel::Match(chip)) => (
            ProbeState::Identified,
            ProbeModel::Found { chip, voltage, enter_4byte: chip.addr_bytes == 4 },
        ),
        Ok(ResolvedModel::WrongVoltage(_)) => if voltage == Voltage::V1_8 {
            probe_on(voltage)
        } else {
            (
                ProbeState::Refused,
                ProbeModel::Stop(
                    Error::Requires1v8 { mfr: rdid[0], id1: rdid[1], id2: rdid[2] },
                ),
            )
        },
        Ok(ResolvedModel::Unknown) => if voltage == Voltage::V1_8 {
            (
                ProbeState::Refused,
                ProbeModel::Stop(
                    Error::UnknownAt1v8 { mfr: rdid[0], id1: rdid[1], id2: rdid[2] },
                ),
            )
        } else {
            probe_on(voltage)
        },
    }
}

/// What follows from an event.
pub open spec fn probe_step(db: Seq<SpiNorDef>, state: ProbeState, event: ProbeEvent) -> (
    ProbeState,
    ProbeModel,
) {
    match (state, event) {
        (ProbeState::AwaitId(voltage), ProbeEvent::Id(id)) => {
            let candidates = matching_from(db, id@[0], id@[1], id@[2], 0);
            if blank_id(id@[0]) {
                probe_on(voltage)
            } else if sfdp_matters(candidates, voltage) {
                (ProbeState::AwaitSfdp(voltage, id), ProbeModel::ReadSfdp)
            } else {
                probe_resolved(id@, voltage, resolve(candidates, id@, voltage, None))
            }
        },
        (ProbeState::AwaitSfdp(voltage, id), ProbeEvent::Sfdp(info)) => probe_resolved(
            id@,
            voltage,
            resolve(
                matching_from(db, id@[0], id@[1], id@[2], 0),
                id@,
                voltage,
                info_view(info),
            ),
        ),
        _ => (ProbeState::NoChip, ProbeModel::PowerOff),
    }
}

/// Where a probe starts: at 1.8V where the programmer has it.
pub open spec fn probe_first(kind: Programmer) -> Voltage {
    if kind.voltages().contains(Voltage::V1_8) {
        Voltage::V1_8
    } else {
        Voltage::V3_3
    }
}

/// Starts a probe.
pub fn start_probe(kind: Programmer) -> (r: (ProbeState, ProbeNext))
    ensures
        r.0 == ProbeState::AwaitId(probe_first(kind)),
        r.1@ == (ProbeModel::PowerUp { wait_ms: 0, voltage: probe_first(kind) }),
{
    let voltage: Voltage = if kind.supports_voltage(Voltage::V1_8) {
        Voltage::V1_8
    } else {
        Voltage::V3_3
    };
    (ProbeState::AwaitId(voltage), ProbeNext::PowerUp { wait_ms: 0, voltage })
}

fn go_on(voltage: Voltage) -> (r: (ProbeState, ProbeNext))
    ensures
        (r.0, r.1@) == probe_on(voltage),
{
    if voltage == Voltage::V1_8 {
        (
            ProbeState::AwaitId(Voltage::V3_3),
            ProbeNext::PowerUp { wait_ms: DRAIN_MS, voltage: Voltage::V3_3 },
        )
    } else {
        (ProbeState::NoChip, ProbeNext::PowerOff)
    }
}

fn use_resolved(rdid: [u8; 3], voltage: Voltage, resolved: Result<Resolved, Error>) -> (r: (
    ProbeState,
    ProbeNext,
))
    ensures
        (r.0, r.1@) == probe_resolved(
            rdid@,
            voltage,
            match resolved {
                Ok(v) => Ok(v@),
                Err(e) => Err(e),
            },
        ),
{
    match resolved {
        Err(e) => (ProbeState::Refused, ProbeNext::Stop(e)),
        Ok(Resolved::Match(chip)) => {
            let enter_4byte = chip.addr_bytes == 4;
            (ProbeState::Identified, ProbeNext::Found { chip, voltage, enter_4byte })
        },
        Ok(Resolved::WrongVoltage(_)) => if voltage == Voltage::V1_8 {
            go_on(voltage)
        } else {
            (
                ProbeState::Refused,
                ProbeNext::Stop(
                    Error::Requires1v8 { mfr: rdid[0], id1: rdid[1], id2: rdid[2] },
                ),
            )
        },
        Ok(Resolved::Unknown) => if voltage == Voltage::V1_8 {
            (
                ProbeState::Refused,
                ProbeNext::Stop(
                    Error::UnknownAt1v8 { mfr: rdid[0], id1: rdid[1], id2: rdid[2] },
                ),
            )
        } else {
            go_on(voltage)
        },
    }
}

/// Takes an event of a probe and decides what to do next.
pub fn auto_probe(db: &[SpiNorDef], state: ProbeState, event: ProbeEvent) -> (r: (
    ProbeState,
    ProbeNext,
))
    requires
        event.wf(),
    ensures
        (r.0, r.1@) == probe_step(db@, state, event),
{
    match (state, event) {
        (ProbeState::AwaitId(voltage), ProbeEvent::Id(id)) => {
            if is_blank_id(id[0]) {
                go_on(voltage)
            } else if needs_sfdp(db, id, voltage) {
                (ProbeState::AwaitSfdp(voltage, id), ProbeNext::ReadSfdp)
            } else {
                use_resolved(id, voltage, resolve_chip(db, id, voltage, None))
            }
        },
        (ProbeState::AwaitSfdp(voltage, id), ProbeEvent::Sfdp(info)) => use_resolved(
            id,
            voltage,
            resolve_chip(db, id, voltage, info),
        ),
        _ => (ProbeState::NoChip, ProbeNext::PowerOff),
    }
}

proof fn lemma_of_size(candidates: Seq<SpiNorDef>, size: u32, n: int)
    requires
        n <= candidates.len(),
    ensures
        forall|k: int|
            0 <= k < of_size(candidates, size, n).len() ==> candidates.contains(
                #[trigger] of_size(candidates, size, n)[k],
            ),
    decreases n,
{
    if n > 0 {
        lemma_of_size(candidates, size, n - 1);
        assert(candidates.contains(candidates[n - 1]));
        let before = of_size(candidates, size, n - 1);
        let all = of_size(candidates, size, n);
        assert forall|k: int| 0 <= k < all.len() implies candidates.contains(
            #[trigger] all[k],
        ) by {
            if k < before.len() {
                assert(all[k] == before[k]);
            }
        }
    }
}

proof fn lemma_of_size_has_size(candidates: Seq<SpiNorDef>, size: u32, n: int)
    ensures
        forall|k: int|
            0 <= k < of_size(candidates, size, n).len() ==> (#[trigger] of_size(
                candidates,
                size,
                n,
            )[k]).size_bytes == size,
    decreases n,
{
    if n > 0 {
        lemma_of_size_has_size(candidates, size, n - 1);
        let before = of_size(candidates, size, n - 1);
        let all = of_size(candidates, size, n);
        assert forall|k: int| 0 <= k < all.len() implies (#[trigger] all[k]).size_bytes
            == size by {
            if k < before.len() {
                assert(all[k] == before[k]);
            }
        }
    }
}

/// A chip of the database that is taken without a warning was confirmed by SFDP: it has the
/// density that SFDP states.
pub proof fn law_chip_without_caution_is_confirmed(
    candidates: Seq<SpiNorDef>,
    rdid: Seq<u8>,
    voltage: Voltage,
    sfdp: Option<SfdpModel>,
)
    requires
        candidates.len() > 0,
        caution(candidates, voltage, sfdp) is None,
    ensures
        resolve(candidates, rdid, voltage, sfdp) matches Ok(ResolvedModel::Match(chip)) ==> {
            sfdp matches Some(info) && chip.size_bytes == info.size_bytes
        },
{
    if let Some(info) = sfdp {
        lemma_of_size_has_size(candidates, info.size_bytes, candidates.len() as int);
    }
}

/// A chip that is found is made for the voltage it was found at.
pub proof fn law_found_chip_suits_its_voltage(
    db: Seq<SpiNorDef>,
    state: ProbeState,
    event: ProbeEvent,
)
    ensures
        probe_step(db, state, event).1 matches ProbeModel::Found { chip, voltage, .. } ==> {
            &&& chip.voltage == chip_voltage_of(voltage)
            &&& match state {
                ProbeState::AwaitId(v) => v == voltage,
                ProbeState::AwaitSfdp(v, _) => v == voltage,
                _ => false,
            }
        },
{
}

/// From 1.8V a probe goes on to 3.3V in two cases only: nothing answered, or the chip was
/// settled to be a database entry for 3.3V.  It never does for a chip that neither the
/// database nor SFDP knows, nor for an identifier whose candidates could not be told apart.
pub proof fn law_escalation_is_safe(db: Seq<SpiNorDef>, state: ProbeState, event: ProbeEvent)
    requires
        state matches ProbeState::AwaitId(v) ==> v == Voltage::V1_8,
        state matches ProbeState::AwaitSfdp(v, _) ==> v == Voltage::V1_8,
    ensures
        probe_step(db, state, event).1 matches ProbeModel::PowerUp { wait_ms, voltage } ==> {
            &&& voltage == Voltage::V3_3
            &&& wait_ms == DRAIN_MS
            &&& {
                ||| event matches ProbeEvent::Id(id) && blank_id(id@[0])
                ||| exists|entry: SpiNorDef| #[trigger]
                    db.contains(entry) && entry.voltage == ChipVoltage::V3_3 && match (
                        state,
                        event,
                    ) {
                        (_, ProbeEvent::Id(id)) => entry.has_id(id@[0], id@[1], id@[2]),
                        (ProbeState::AwaitSfdp(_, id), _) => entry.has_id(id@[0], id@[1], id@[2]),
                        _ => false,
                    }
            }
        },
{
    let id: Option<[u8; 3]> = match (state, event) {
        (ProbeState::AwaitId(_), ProbeEvent::Id(id)) => Some(id),
        (ProbeState::AwaitSfdp(_, id), ProbeEvent::Sfdp(_)) => Some(id),
        _ => None,
    };
    if let Some(id) = id {
        let candidates = matching_from(db, id@[0], id@[1], id@[2], 0);
        lemma_matching(db, id@[0], id@[1], id@[2], 0);
        assert forall|c: SpiNorDef| #[trigger] candidates.contains(c) implies db.contains(c)
            && c.has_id(id@[0], id@[1], id@[2]) by {}
        if candidates.len() > 0 {
            assert(candidates.contains(candidates[0]));
        }
        if let (ProbeState::AwaitSfdp(_, _), ProbeEvent::Sfdp(Some(info))) = (state, event) {
            lemma_of_size(candidates, info@.size_bytes, candidates.len() as int);
            let sized = of_size(candidates, info@.size_bytes, candidates.len() as int);
            if sized.len() == 1 {
                assert(candidates.contains(sized[0]));
            }
        }
    }
}

/// Whether the database or SFDP settled which chip this is.
pub open spec fn settled(resolved: Result<ResolvedModel, Error>) -> bool {
    match resolved {
        Ok(ResolvedModel::Match(_)) => true,
        Ok(ResolvedModel::WrongVoltage(_)) => true,
        _ => false,
    }
}

/// A chip that answers at 1.8V without being settled stops the probe.
pub proof fn law_unsettled_chip_stops_the_probe(
    db: Seq<SpiNorDef>,
    id: [u8; 3],
    info: Option<SfdpInfo>,
)
    requires
        !settled(
            resolve(
                matching_from(db, id@[0], id@[1], id@[2], 0),
                id@,
                Voltage::V1_8,
                info_view(info),
            ),
        ),
    ensures
        probe_step(
            db,
            ProbeState::AwaitSfdp(Voltage::V1_8, id),
            ProbeEvent::Sfdp(info),
        ).1 is Stop,
{
}

proof fn lemma_matching(db: Seq<SpiNorDef>, mfr: u8, id1: u8, id2: u8, i: int)
    requires
        0 <= i,
    ensures
        forall|k: int|
            0 <= k < matching_from(db, mfr, id1, id2, i).len() ==> {
                let c = #[trigger] matching_from(db, mfr, id1, id2, i)[k];
                db.contains(c) && c.has_id(mfr, id1, id2)
            },
    decreases db.len() - i,
{
    if i < db.len() {
        lemma_matching(db, mfr, id1, id2, i + 1);
        let rest = matching_from(db, mfr, id1, id2, i + 1);
        let all = matching_from(db, mfr, id1, id2, i);
        assert forall|k: int| 0 <= k < all.len() implies {
            let c = #[trigger] all[k];
            db.contains(c) && c.has_id(mfr, id1, id2)
        } by {
            if db[i].has_id(mfr, id1, id2) {
                if k == 0 {
                    assert(db.contains(db[i]));
                } else {
                    assert(all[k] == rest[k - 1]);
                }
            } else {
                assert(all[k] == rest[k]);
            }
        }
    }
}

/// Whether an entry has the three bytes of an identifier.
pub open spec fn answers(e: SpiNorDef, id: [u8; 3]) -> bool {
    e.mfr == id@[0] && e.id1 == id@[1] && e.id2 == id@[2]
}

/// Whether no entry at or after `i` has an identifier.
pub open spec fn unlisted_from(db: Seq<SpiNorDef>, id: [u8; 3], i: int) -> bool {
    forall|k: int| i <= k < db.len() ==> !answers(#[trigger] db[k], id)
}

/// Whether entry `k` is the first with an identifier.
pub open spec fn listed_first(db: Seq<SpiNorDef>, id: [u8; 3], k: int) -> bool {
    &&& 0 <= k < db.len()
    &&& answers(db[k], id)
    &&& forall|j: int| 0 <= j < k ==> !answers(#[trigger] db[j], id)
}

/// Whether all entries with an identifier are for one voltage.
pub open spec fn listed_for(db: Seq<SpiNorDef>, id: [u8; 3], v: ChipVoltage) -> bool {
    forall|k: int| 0 <= k < db.len() && answers(#[trigger] db[k], id) ==> db[k].voltage == v
}

/// Whether a chip voltage is the one a socket voltage suits: 1.8V chips at 1.8V, the others at
/// 3.3V and 5V.
pub open spec fn suits(voltage: Voltage, v: ChipVoltage) -> bool {
    (voltage == Voltage::V1_8) == (v == ChipVoltage::V1_8)
}

pub proof fn lemma_unlisted(db: Seq<SpiNorDef>, id: [u8; 3], i: int)
    requires
        0 <= i,
        unlisted_from(db, id, i),
    ensures
        matching_from(db, id@[0], id@[1], id@[2], i).len() == 0,
    decreases db.len() - i,
{
    if i < db.len() {
        assert(!answers(db[i], id));
        lemma_unlisted(db, id, i + 1);
    }
}

pub proof fn lemma_listed_first(db: Seq<SpiNorDef>, id: [u8; 3], i: int, k: int)
    requires
        0 <= i <= k,
        listed_first(db, id, k),
    ensures
        matching_from(db, id@[0], id@[1], id@[2], i).len() > 0,
        matching_from(db, id@[0], id@[1], id@[2], i)[0] == db[k],
    decreases k - i,
{
    if i < k {
        assert(!answers(db[i], id));
        lemma_listed_first(db, id, i + 1, k);
    }
}

/// Whether an entry at or after `i` has an identifier and is `e`.
pub open spec fn listed_as(db: Seq<SpiNorDef>, id: [u8; 3], i: int, e: SpiNorDef) -> bool {
    exists|k: int| i <= k < db.len() && answers(#[trigger] db[k], id) && db[k] == e
}

/// Every candidate is an entry with the identifier, and every such entry is a candidate.
pub proof fn lemma_candidates(db: Seq<SpiNorDef>, id: [u8; 3], i: int)
    requires
        0 <= i,
    ensures
        forall|c: int|
            0 <= c < matching_from(db, id@[0], id@[1], id@[2], i).len() ==> listed_as(
                db,
                id,
                i,
                #[trigger] matching_from(db, id@[0], id@[1], id@[2], i)[c],
            ),
        forall|k: int|
            i <= k < db.len() && answers(#[trigger] db[k], id) ==> matching_from(
                db,
                id@[0],
                id@[1],
                id@[2],
                i,
            ).contains(db[k]),
    decreases db.len() - i,
{
    if i < db.len() {
        lemma_candidates(db, id, i + 1);
        let rest = matching_from(db, id@[0], id@[1], id@[2], i + 1);
        let all = matching_from(db, id@[0], id@[1], id@[2], i);
        let own = answers(db[i], id);
        assert forall|c: int| 0 <= c < all.len() implies listed_as(
            db,
            id,
            i,
            #[trigger] all[c],
        ) by {
            if own && c == 0 {
                assert(db[i] == all[0]);
            } else {
                let d = if own {
                    c - 1
                } else {
                    c
                };
                assert(all[c] == rest[d]);
                assert(listed_as(db, id, i + 1, rest[d]));
                let k = choose|k: int|
                    i + 1 <= k < db.len() && answers(#[trigger] db[k], id) && db[k] == rest[d];
                assert(answers(db[k], id));
            }
        }
        assert forall|k: int| i <= k < db.len() && answers(#[trigger] db[k], id) implies all.contains(
            db[k],
        ) by {
            if k == i {
                assert(all[0] == db[k]);
            } else {
                let d = choose|d: int| 0 <= d < rest.len() && rest[d] == db[k];
                assert(all[if own {
                    d + 1
                } else {
                    d
                }] == db[k]);
            }
        }
    }
}

proof fn lemma_listed_for(db: Seq<SpiNorDef>, id: [u8; 3], v: ChipVoltage)
    requires
        listed_for(db, id, v),
    ensures
        ({
            let c = matching_from(db, id@[0], id@[1], id@[2], 0);
            one_voltage(c) && (c.len() > 0 ==> c[0].voltage == v)
        }),
{
    lemma_candidates(db, id, 0);
    let c = matching_from(db, id@[0], id@[1], id@[2], 0);
    assert forall|i: int| 0 <= i < c.len() implies (#[trigger] c[i]).voltage == v by {
        assert(listed_as(db, id, 0, c[i]));
        let k = choose|k: int| 0 <= k < db.len() && answers(#[trigger] db[k], id) && db[k] == c[i];
        assert(answers(db[k], id));
    }
}

/// At every voltage a chip that answers, is not in the database and describes itself is found:
/// its table is read, and the chip has the size, page size and erase types of the table.
pub proof fn law_self_described_chip_is_found(
    db: Seq<SpiNorDef>,
    voltage: Voltage,
    id: [u8; 3],
    info: SfdpInfo,
)
    requires
        id@[0] != 0x00 && id@[0] != 0xFF,
        unlisted_from(db, id, 0),
    ensures
        probe_step(db, ProbeState::AwaitId(voltage), ProbeEvent::Id(id)) == (
            ProbeState::AwaitSfdp(voltage, id),
            ProbeModel::ReadSfdp,
        ),
        ({
            let (state, next) = probe_step(
                db,
                ProbeState::AwaitSfdp(voltage, id),
                ProbeEvent::Sfdp(Some(info)),
            );
            &&& state == ProbeState::Identified
            &&& next matches ProbeModel::Found { chip, voltage: at, enter_4byte }
            &&& at == voltage
            &&& chip.mfr == id@[0] && chip.id1 == id@[1] && chip.id2 == id@[2]
            &&& suits(voltage, chip.voltage)
            &&& chip.size_bytes == info.size_bytes
            &&& chip.page_size == info.page_size
            &&& info.erase_types@.len() > 0 ==> chip.erase_types == info.erase_types@
            &&& chip.sector_is_smallest()
            &&& enter_4byte <==> info.size_bytes > 16 * 1024 * 1024
        }),
{
    lemma_unlisted(db, id, 0);
    crate::spi::sfdp::law_sector_size_is_the_smallest_advertised(
        arbitrary(),
        info@,
        id@,
        voltage,
    );
}

/// A chip whose entries in the database all suit the voltage is found there, under the name of
/// the first entry: with the geometry of its table where that is complete, else with that of the
/// entry.
pub proof fn law_listed_chip_is_found_at_its_voltage(
    db: Seq<SpiNorDef>,
    voltage: Voltage,
    id: [u8; 3],
    k: int,
    sfdp: Option<SfdpInfo>,
    v: ChipVoltage,
)
    requires
        id@[0] != 0x00 && id@[0] != 0xFF,
        listed_first(db, id, k),
        listed_for(db, id, v),
        suits(voltage, v),
    ensures
        probe_step(db, ProbeState::AwaitId(voltage), ProbeEvent::Id(id)) == (
            ProbeState::AwaitSfdp(voltage, id),
            ProbeModel::ReadSfdp,
        ),
        ({
            let (state, next) = probe_step(
                db,
                ProbeState::AwaitSfdp(voltage, id),
                ProbeEvent::Sfdp(sfdp),
            );
            &&& state == ProbeState::Identified
            &&& next matches ProbeModel::Found { chip, voltage: at, enter_4byte }
            &&& at == voltage
            &&& chip.name == db[k].name@
            &&& chip.voltage == v
            &&& answers(db[k], id) && chip.mfr == id@[0] && chip.id1 == id@[1] && chip.id2
                == id@[2]
            &&& enter_4byte <==> chip.addr_bytes == 4
            &&& sfdp matches Some(info) ==> {
                &&& chip.size_bytes == if info.is_partial {
                    db[k].size_bytes
                } else {
                    info.size_bytes
                }
                &&& chip.page_size == if info.is_partial {
                    db[k].page_size
                } else {
                    info.page_size
                }
                &&& !info.is_partial && info.erase_types@.len() > 0 ==> chip.erase_types
                    == info.erase_types@
                &&& enter_4byte <==> chip.size_bytes > 16 * 1024 * 1024
            }
            &&& sfdp is None ==> {
                &&& chip.size_bytes == db[k].size_bytes
                &&& chip.page_size == db[k].page_size
                &&& chip.erase_size == db[k].erase_size
                &&& chip.addr_bytes == db[k].addr_bytes
            }
        }),
{
    lemma_listed_first(db, id, 0, k);
    lemma_listed_for(db, id, v);
}

/// A chip whose entries are all for another voltage is never taken: a 3.3V chip that answers at
/// 1.8V makes the probe go on to 3.3V once the rail has drained, and a 1.8V chip that answers at
/// more stops it.
pub proof fn law_listed_chip_is_not_taken_at_another_voltage(
    db: Seq<SpiNorDef>,
    voltage: Voltage,
    id: [u8; 3],
    k: int,
    v: ChipVoltage,
)
    requires
        id@[0] != 0x00 && id@[0] != 0xFF,
        listed_first(db, id, k),
        listed_for(db, id, v),
        !suits(voltage, v),
    ensures
        ({
            let (state, next) = probe_step(db, ProbeState::AwaitId(voltage), ProbeEvent::Id(id));
            &&& voltage == Voltage::V1_8 ==> {
                &&& state == ProbeState::AwaitId(Voltage::V3_3)
                &&& next matches ProbeModel::PowerUp { wait_ms, voltage: up }
                &&& up == Voltage::V3_3
                &&& wait_ms >= 300
            }
            &&& voltage != Voltage::V1_8 ==> {
                &&& state == ProbeState::Refused
                &&& next == ProbeModel::Stop(
                    Error::Requires1v8 { mfr: id@[0], id1: id@[1], id2: id@[2] },
                )
            }
        }),
{
    lemma_listed_first(db, id, 0, k);
    lemma_listed_for(db, id, v);
}

/// Silence at 1.8V leads to 3.3V, and at any other voltage ends the probe with the power off.
pub proof fn law_silence_goes_on_or_ends(db: Seq<SpiNorDef>, voltage: Voltage, id: [u8; 3])
    requires
        id@[0] == 0x00 || id@[0] == 0xFF,
    ensures
        ({
            let (state, next) = probe_step(db, ProbeState::AwaitId(voltage), ProbeEvent::Id(id));
            &&& voltage == Voltage::V1_8 ==> {
                &&& state == ProbeState::AwaitId(Voltage::V3_3)
                &&& next matches ProbeModel::PowerUp { wait_ms, voltage: up }
                &&& up == Voltage::V3_3
                &&& wait_ms >= 300
            }
            &&& voltage != Voltage::V1_8 ==> state == ProbeState::NoChip && next
                == ProbeModel::PowerOff
        }),
{
}

/// A chip that answers but is neither in the database nor describes itself stops the probe at
/// 1.8V, and ends it with the power off elsewhere.
pub proof fn law_unknown_chip_is_not_taken(db: Seq<SpiNorDef>, voltage: Voltage, id: [u8; 3])
    requires
        id@[0] != 0x00 && id@[0] != 0xFF,
        unlisted_from(db, id, 0),
    ensures
        ({
            let (state, next) = probe_step(
                db,
                ProbeState::AwaitSfdp(voltage, id),
                ProbeEvent::Sfdp(None),
            );
            &&& voltage == Voltage::V1_8 ==> state == ProbeState::Refused && next
                == ProbeModel::Stop(
                Error::UnknownAt1v8 { mfr: id@[0], id1: id@[1], id2: id@[2] },
            )
            &&& voltage != Voltage::V1_8 ==> state == ProbeState::NoChip && next
                == ProbeModel::PowerOff
        }),
{
    lemma_unlisted(db, id, 0);
}

/// Whether an entry has an identifier and a size.
pub open spec fn answers_with(e: SpiNorDef, id: [u8; 3], size: u32) -> bool {
    answers(e, id) && e.size_bytes == size
}

proof fn lemma_of_size_front(a: SpiNorDef, rest: Seq<SpiNorDef>, size: u32, n: int)
    requires
        0 <= n <= rest.len(),
    ensures
        of_size(seq![a] + rest, size, n + 1) == (if a.size_bytes == size {
            seq![a]
        } else {
            Seq::empty()
        }) + of_size(rest, size, n),
    decreases n,
{
    let all = seq![a] + rest;
    if n == 0 {
        assert(all[0] == a);
        assert(of_size(all, size, 0) =~= Seq::<SpiNorDef>::empty());
        assert(of_size(all, size, 1) =~= (if a.size_bytes == size {
            seq![a]
        } else {
            Seq::empty()
        }) + of_size(rest, size, 0));
    } else {
        lemma_of_size_front(a, rest, size, n - 1);
        assert(all[n] == rest[n - 1]);
        assert(of_size(all, size, n + 1) =~= (if a.size_bytes == size {
            seq![a]
        } else {
            Seq::empty()
        }) + of_size(rest, size, n));
    }
}

proof fn lemma_none_of_size(db: Seq<SpiNorDef>, id: [u8; 3], size: u32, i: int)
    requires
        0 <= i,
        forall|j: int| i <= j < db.len() ==> !answers_with(#[trigger] db[j], id, size),
    ensures
        ({
            let c = matching_from(db, id@[0], id@[1], id@[2], i);
            of_size(c, size, c.len() as int).len() == 0
        }),
    decreases db.len() - i,
{
    if i < db.len() {
        lemma_none_of_size(db, id, size, i + 1);
        assert(!answers_with(db[i], id, size));
        let rest = matching_from(db, id@[0], id@[1], id@[2], i + 1);
        lemma_of_size_front(db[i], rest, size, rest.len() as int);
    }
}

proof fn lemma_one_of_size(db: Seq<SpiNorDef>, id: [u8; 3], size: u32, i: int, k: int)
    requires
        0 <= i <= k < db.len(),
        answers_with(db[k], id, size),
        forall|j: int| i <= j < db.len() && j != k ==> !answers_with(#[trigger] db[j], id, size),
    ensures
        ({
            let c = matching_from(db, id@[0], id@[1], id@[2], i);
            of_size(c, size, c.len() as int) == seq![db[k]]
        }),
    decreases db.len() - i,
{
    let rest = matching_from(db, id@[0], id@[1], id@[2], i + 1);
    let c = matching_from(db, id@[0], id@[1], id@[2], i);
    lemma_of_size_front(db[i], rest, size, rest.len() as int);
    if i < k {
        lemma_one_of_size(db, id, size, i + 1, k);
        assert(!answers_with(db[i], id, size));
    } else {
        assert forall|j: int| i + 1 <= j < db.len() implies !answers_with(
            #[trigger] db[j],
            id,
            size,
        ) by {}
        lemma_none_of_size(db, id, size, i + 1);
    }
    assert(of_size(c, size, c.len() as int) =~= seq![db[k]]);
}

proof fn lemma_two_of_size(db: Seq<SpiNorDef>, id: [u8; 3], size: u32, i: int, j: int, k: int)
    requires
        0 <= i <= j < k < db.len(),
        answers_with(db[j], id, size),
        answers_with(db[k], id, size),
    ensures
        ({
            let c = matching_from(db, id@[0], id@[1], id@[2], i);
            of_size(c, size, c.len() as int).len() >= 2
        }),
    decreases db.len() - i,
{
    let rest = matching_from(db, id@[0], id@[1], id@[2], i + 1);
    lemma_of_size_front(db[i], rest, size, rest.len() as int);
    if i < j {
        lemma_two_of_size(db, id, size, i + 1, j, k);
    } else {
        lemma_some_of_size(db, id, size, i + 1, k);
    }
}

proof fn lemma_some_of_size(db: Seq<SpiNorDef>, id: [u8; 3], size: u32, i: int, k: int)
    requires
        0 <= i <= k < db.len(),
        answers_with(db[k], id, size),
    ensures
        ({
            let c = matching_from(db, id@[0], id@[1], id@[2], i);
            of_size(c, size, c.len() as int).len() >= 1
        }),
    decreases db.len() - i,
{
    let rest = matching_from(db, id@[0], id@[1], id@[2], i + 1);
    lemma_of_size_front(db[i], rest, size, rest.len() as int);
    if i < k {
        lemma_some_of_size(db, id, size, i + 1, k);
    }
}

/// Whether entries for both voltages have an identifier.
pub open spec fn listed_for_both(db: Seq<SpiNorDef>, id: [u8; 3], j: int, k: int) -> bool {
    &&& 0 <= j < db.len() && answers(db[j], id) && db[j].voltage == ChipVoltage::V1_8
    &&& 0 <= k < db.len() && answers(db[k], id) && db[k].voltage == ChipVoltage::V3_3
}

proof fn lemma_listed_for_both(db: Seq<SpiNorDef>, id: [u8; 3], j: int, k: int)
    requires
        listed_for_both(db, id, j, k),
    ensures
        ({
            let c = matching_from(db, id@[0], id@[1], id@[2], 0);
            c.len() > 0 && !one_voltage(c)
        }),
{
    lemma_candidates(db, id, 0);
    let c = matching_from(db, id@[0], id@[1], id@[2], 0);
    assert(c.contains(db[j]) && c.contains(db[k]));
    let a = choose|a: int| 0 <= a < c.len() && c[a] == db[j];
    let b = choose|b: int| 0 <= b < c.len() && c[b] == db[k];
    assert(c[a].voltage != c[b].voltage);
}

/// Where entries for both voltages share an identifier, the only one with the size that the
/// chip's table states decides: it is found at a voltage that suits it; at 1.8V a 3.3V part makes
/// the probe go on, and at more a 1.8V part stops it.
pub proof fn law_shared_identifier_is_settled_by_size(
    db: Seq<SpiNorDef>,
    voltage: Voltage,
    id: [u8; 3],
    j: int,
    k: int,
    own: int,
    info: SfdpInfo,
)
    requires
        id@[0] != 0x00 && id@[0] != 0xFF,
        listed_for_both(db, id, j, k),
        0 <= own < db.len(),
        answers_with(db[own], id, info.size_bytes),
        forall|m: int|
            0 <= m < db.len() && m != own ==> !answers_with(
                #[trigger] db[m],
                id,
                info.size_bytes,
            ),
    ensures
        probe_step(db, ProbeState::AwaitId(voltage), ProbeEvent::Id(id)) == (
            ProbeState::AwaitSfdp(voltage, id),
            ProbeModel::ReadSfdp,
        ),
        ({
            let (state, next) = probe_step(
                db,
                ProbeState::AwaitSfdp(voltage, id),
                ProbeEvent::Sfdp(Some(info)),
            );
            &&& suits(voltage, db[own].voltage) ==> {
                &&& state == ProbeState::Identified
                &&& next matches ProbeModel::Found { chip, voltage: at, enter_4byte }
                &&& at == voltage
                &&& chip.name == db[own].name@
                &&& chip.voltage == db[own].voltage
                &&& chip.size_bytes == info.size_bytes
                &&& !info.is_partial && info.erase_types@.len() > 0 ==> chip.erase_types
                    == info.erase_types@
                &&& enter_4byte <==> info.size_bytes > 16 * 1024 * 1024
            }
            &&& !suits(voltage, db[own].voltage) && voltage == Voltage::V1_8 ==> {
                &&& state == ProbeState::AwaitId(Voltage::V3_3)
                &&& next matches ProbeModel::PowerUp { wait_ms, voltage: up }
                &&& up == Voltage::V3_3
                &&& wait_ms >= 300
            }
            &&& !suits(voltage, db[own].voltage) && voltage != Voltage::V1_8 ==> state
                == ProbeState::Refused && next is Stop
        }),
{
    lemma_listed_for_both(db, id, j, k);
    lemma_one_of_size(db, id, info.size_bytes, 0, own);
}

/// Where entries for both voltages share an identifier and the table's size does not pick one of
/// them (none has it, or two have), the chip is refused at 1.8V, and elsewhere taken as its table
/// describes it.
pub proof fn law_shared_identifier_that_size_leaves_open(
    db: Seq<SpiNorDef>,
    voltage: Voltage,
    id: [u8; 3],
    j: int,
    k: int,
    one: int,
    two: int,
    info: SfdpInfo,
)
    requires
        id@[0] != 0x00 && id@[0] != 0xFF,
        listed_for_both(db, id, j, k),
        (0 <= one < two < db.len() && answers_with(db[one], id, info.size_bytes) && answers_with(
            db[two],
            id,
            info.size_bytes,
        )) || (forall|m: int|
            0 <= m < db.len() ==> !answers_with(#[trigger] db[m], id, info.size_bytes)),
    ensures
        ({
            let (state, next) = probe_step(
                db,
                ProbeState::AwaitSfdp(voltage, id),
                ProbeEvent::Sfdp(Some(info)),
            );
            &&& voltage == Voltage::V1_8 ==> state == ProbeState::Refused && next
                == ProbeModel::Stop(
                Error::AmbiguousRdid { mfr: id@[0], id1: id@[1], id2: id@[2], sfdp: true },
            )
            &&& voltage != Voltage::V1_8 ==> {
                &&& state == ProbeState::Identified
                &&& next matches ProbeModel::Found { chip, voltage: at, enter_4byte }
                &&& at == voltage
                &&& chip.size_bytes == info.size_bytes
                &&& chip.page_size == info.page_size
                &&& info.erase_types@.len() > 0 ==> chip.erase_types == info.erase_types@
                &&& suits(voltage, chip.voltage)
            }
        }),
{
    lemma_listed_for_both(db, id, j, k);
    if 0 <= one < two < db.len() && answers_with(db[one], id, info.size_bytes) && answers_with(
        db[two],
        id,
        info.size_bytes,
    ) {
        lemma_two_of_size(db, id, info.size_bytes, 0, one, two);
    } else {
        lemma_none_of_size(db, id, info.size_bytes, 0);
    }
}

proof fn lemma_first_3v3(candidates: Seq<SpiNorDef>, i: int, a: int)
    requires
        0 <= i <= a < candidates.len(),
        candidates[a].voltage == ChipVoltage::V3_3,
        forall|b: int| i <= b < a ==> (#[trigger] candidates[b]).voltage != ChipVoltage::V3_3,
    ensures
        first_3v3(candidates, i) == candidates[a],
    decreases a - i,
{
    if i < a {
        assert(candidates[i].voltage != ChipVoltage::V3_3);
        lemma_first_3v3(candidates, i + 1, a);
    }
}

proof fn lemma_first_3v3_entry(db: Seq<SpiNorDef>, id: [u8; 3], i: int, k: int)
    requires
        0 <= i <= k < db.len(),
        answers(db[k], id),
        db[k].voltage == ChipVoltage::V3_3,
        forall|j: int|
            i <= j < k && answers(#[trigger] db[j], id) ==> db[j].voltage != ChipVoltage::V3_3,
    ensures
        ({
            let c = matching_from(db, id@[0], id@[1], id@[2], i);
            exists|a: int| 0 <= a < c.len() && #[trigger] c[a] == db[k] && forall|b: int|
                0 <= b < a ==> (#[trigger] c[b]).voltage != ChipVoltage::V3_3
        }),
    decreases k - i,
{
    let c = matching_from(db, id@[0], id@[1], id@[2], i);
    if i == k {
        assert(c[0] == db[k]);
    } else {
        lemma_first_3v3_entry(db, id, i + 1, k);
        let rest = matching_from(db, id@[0], id@[1], id@[2], i + 1);
        let a = choose|a: int| 0 <= a < rest.len() && #[trigger] rest[a] == db[k] && forall|b: int|
            0 <= b < a ==> (#[trigger] rest[b]).voltage != ChipVoltage::V3_3;
        if answers(db[i], id) {
            assert(c[a + 1] == db[k]);
            assert forall|b: int| 0 <= b < a + 1 implies (#[trigger] c[b]).voltage
                != ChipVoltage::V3_3 by {
                if b > 0 {
                    assert(c[b] == rest[b - 1]);
                }
            }
        } else {
            assert(c =~= rest);
            assert(c[a] == db[k]);
        }
    }
}

/// Where entries for both voltages share an identifier and the chip does not describe itself, it
/// is refused at 1.8V, and elsewhere taken for the first 3.3V part.
pub proof fn law_shared_identifier_without_a_table(
    db: Seq<SpiNorDef>,
    voltage: Voltage,
    id: [u8; 3],
    j: int,
    k: int,
)
    requires
        id@[0] != 0x00 && id@[0] != 0xFF,
        listed_for_both(db, id, j, k),
        forall|m: int|
            0 <= m < k && answers(#[trigger] db[m], id) ==> db[m].voltage != ChipVoltage::V3_3,
    ensures
        ({
            let (state, next) = probe_step(
                db,
                ProbeState::AwaitSfdp(voltage, id),
                ProbeEvent::Sfdp(None),
            );
            &&& voltage == Voltage::V1_8 ==> state == ProbeState::Refused && next
                == ProbeModel::Stop(
                Error::AmbiguousRdid { mfr: id@[0], id1: id@[1], id2: id@[2], sfdp: false },
            )
            &&& voltage != Voltage::V1_8 ==> {
                &&& state == ProbeState::Identified
                &&& next matches ProbeModel::Found { chip, voltage: at, enter_4byte }
                &&& at == voltage
                &&& chip.name == db[k].name@
                &&& chip.size_bytes == db[k].size_bytes
                &&& chip.voltage == ChipVoltage::V3_3
                &&& enter_4byte <==> db[k].addr_bytes == 4
            }
        }),
{
    lemma_listed_for_both(db, id, j, k);
    lemma_first_3v3_entry(db, id, 0, k);
    let c = matching_from(db, id@[0], id@[1], id@[2], 0);
    let a = choose|a: int| 0 <= a < c.len() && #[trigger] c[a] == db[k] && forall|b: int|
        0 <= b < a ==> (#[trigger] c[b]).voltage != ChipVoltage::V3_3;
    lemma_first_3v3(c, 0, a);
}

/// A probe starts at the lowest voltage that the programmer has.
pub proof fn law_probe_starts_low(kind: Programmer)
    ensures
        kind.voltages().contains(probe_first(kind)),
        probe_first(kind) == Voltage::V1_8 <==> kind.with_fpga(),
        probe_first(kind) != Voltage::V5_0,
{
    assert(kind.voltages()[0] == Voltage::V3_3);
    if kind.with_fpga() {
        assert(kind.voltages()[1] == Voltage::V1_8);
    }
}

/// A warning is due just where the parameters rest on one source: for a chip that the database
/// lists for one voltage, where its table is missing or states another size; for one that it lists
/// for both, away from 1.8V, where the table is missing or picks no entry.  At 1.8V a shared
/// identifier is settled or refused, and needs none.
pub proof fn law_caution_tells_what_was_not_confirmed(
    db: Seq<SpiNorDef>,
    voltage: Voltage,
    id: [u8; 3],
    k: int,
    v: ChipVoltage,
    sfdp: Option<SfdpModel>,
)
    requires
        listed_first(db, id, k),
    ensures
        ({
            let warned = caution(matching_from(db, id@[0], id@[1], id@[2], 0), voltage, sfdp);
            &&& listed_for(db, id, v) && !suits(voltage, v) ==> warned is None
            &&& listed_for(db, id, v) && suits(voltage, v) && sfdp is None ==> warned == Some(
                Caution::SfdpAbsent,
            )
            &&& listed_for(db, id, v) && suits(voltage, v) ==> (sfdp matches Some(info) ==> {
                &&& info.size_bytes == db[k].size_bytes ==> warned is None
                &&& info.size_bytes != db[k].size_bytes ==> warned == Some(
                    Caution::DensityDisagrees {
                        sfdp_bytes: info.size_bytes,
                        db_bytes: db[k].size_bytes,
                    },
                )
            })
        }),
{
    lemma_listed_first(db, id, 0, k);
    if listed_for(db, id, v) {
        lemma_listed_for(db, id, v);
    }
}

/// Of a chip that the database lists for both voltages: what is guessed, or taken from its table
/// alone, is warned of.
pub proof fn law_caution_of_a_shared_identifier(
    db: Seq<SpiNorDef>,
    voltage: Voltage,
    id: [u8; 3],
    j: int,
    k: int,
    own: int,
    sfdp: Option<SfdpModel>,
)
    requires
        listed_for_both(db, id, j, k),
    ensures
        ({
            let warned = caution(matching_from(db, id@[0], id@[1], id@[2], 0), voltage, sfdp);
            &&& voltage == Voltage::V1_8 ==> warned is None
            &&& voltage != Voltage::V1_8 && sfdp is None ==> warned == Some(Caution::Guessed)
            &&& voltage != Voltage::V1_8 ==> (sfdp matches Some(info) ==> {
                &&& (0 <= own < db.len() && answers_with(db[own], id, info.size_bytes) && forall|
                    m: int,
                |
                    0 <= m < db.len() && m != own ==> !answers_with(
                        #[trigger] db[m],
                        id,
                        info.size_bytes,
                    )) ==> warned is None
                &&& (forall|m: int|
                    0 <= m < db.len() ==> !answers_with(#[trigger] db[m], id, info.size_bytes))
                    ==> warned == Some(Caution::SfdpOnly)
            })
        }),
{
    lemma_listed_for_both(db, id, j, k);
    if let Some(info) = sfdp {
        if 0 <= own < db.len() && answers_with(db[own], id, info.size_bytes) && forall|m: int|
            0 <= m < db.len() && m != own ==> !answers_with(
                #[trigger] db[m],
                id,
                info.size_bytes,
            ) {
            lemma_one_of_size(db, id, info.size_bytes, 0, own);
        }
        if forall|m: int|
            0 <= m < db.len() ==> !answers_with(#[trigger] db[m], id, info.size_bytes) {
            lemma_none_of_size(db, id, info.size_bytes, 0);
        }
    }
}

/// Among candidates of which none is made for 3.3V the first of all is taken.
pub proof fn law_first_candidate_stands_in(candidates: Seq<SpiNorDef>, i: int)
    requires
        0 <= i <= candidates.len(),
        forall|k: int| i <= k < candidates.len() ==> (#[trigger] candidates[k]).voltage
            != ChipVoltage::V3_3,
    ensures
        first_3v3(candidates, i) == candidates[0],
    decreases candidates.len() - i,
{
    if i < candidates.len() {
        law_first_candidate_stands_in(candidates, i + 1);
    }
}

} // verus!
