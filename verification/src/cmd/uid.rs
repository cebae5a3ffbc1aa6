//! The uid command.
use vstd::prelude::*;

use crate::chip::{ResolvedChip, MFR_EON, MFR_GIGADEVICE, MFR_ISSI, MFR_WINBOND};
use crate::cmd::compare::{hex, hex_of};
use crate::error::Error;
use crate::host::{push_op, script_of, HostOp, OpModel};
use crate::text::{lines_of, push_line};

verus! {

pub const CMD_READ_UNIQUE_ID: u8 = 0x4B;

/// Whether chips of a manufacturer have a unique identifier.
pub open spec fn has_uid(mfr: u8) -> bool {
    mfr == MFR_WINBOND || mfr == MFR_GIGADEVICE || mfr == MFR_ISSI || mfr == MFR_EON
}

/// The script that reads the unique identifier, where there is one: the opcode, four dummy bytes,
/// eight bytes.
pub open spec fn uid_script(mfr: u8) -> Option<Seq<OpModel>> {
    if has_uid(mfr) {
        Some(seq![OpModel::Transfer { tx: seq![CMD_READ_UNIQUE_ID, 0, 0, 0, 0], rx_len: 8 }])
    } else {
        None
    }
}

/// The script that reads the unique identifier.
pub fn read_uid(chip: &ResolvedChip) -> (r: Result<Vec<HostOp>, Error>)
    ensures
        match r {
            Ok(script) => uid_script(chip.mfr) == Some(script_of(script@)),
            Err(e) => uid_script(chip.mfr) is None && e == (Error::NoUniqueId { mfr: chip.mfr }),
        },
{
    let mfr: u8 = chip.mfr;
    if mfr == MFR_WINBOND || mfr == MFR_GIGADEVICE || mfr == MFR_ISSI || mfr == MFR_EON {
        let mut tx: Vec<u8> = Vec::new();
        tx.push(CMD_READ_UNIQUE_ID);
        tx.push(0);
        tx.push(0);
        tx.push(0);
        tx.push(0);
        assert(tx@ =~= seq![CMD_READ_UNIQUE_ID, 0, 0, 0, 0]);
        let mut script: Vec<HostOp> = Vec::new();
        push_op(&mut script, HostOp::Transfer { tx, rx_len: 8 });
        assert(script_of(script@) =~= seq![
            OpModel::Transfer { tx: seq![CMD_READ_UNIQUE_ID, 0, 0, 0, 0], rx_len: 8 },
        ]);
        Ok(script)
    } else {
        Err(Error::NoUniqueId { mfr })
    }
}

/// Whether all bytes have one value.
pub open spec fn all_bytes(uid: Seq<u8>, value: u8) -> bool {
    forall|i: int| 0 <= i < uid.len() ==> #[trigger] uid[i] == value
}

fn all_are(uid: &[u8], value: u8) -> (r: bool)
    ensures
        r == all_bytes(uid@, value),
{
    let mut i: usize = 0;
    while i < uid.len()
        invariant
            i <= uid.len(),
            forall|k: int| 0 <= k < i ==> #[trigger] uid@[k] == value,
        decreases uid.len() - i,
    {
        if uid[i] != value {
            assert(uid@[i as int] != value);
            return false;
        }
        i += 1;
    }
    true
}

/// The report of an identifier.
pub fn uid_report(chip: &ResolvedChip, uid: &[u8]) -> (out: Vec<String>)
    ensures
        lines_of(out@) == seq![
            "Chip: "@ + chip@.name,
            "UID:  "@ + hex_of(uid@, uid@.len() as int),
        ],
{
    let mut out: Vec<String> = Vec::new();
    let mut s = String::from_str("Chip: ");
    s.append(chip.name.as_str());
    push_line(&mut out, s);
    let mut s = String::from_str("UID:  ");
    let digits = hex(uid);
    s.append(digits.as_str());
    push_line(&mut out, s);
    assert(lines_of(out@) =~= seq![
        "Chip: "@ + chip@.name,
        "UID:  "@ + hex_of(uid@, uid@.len() as int),
    ]);
    out
}

/// What a blank identifier gives away.
pub open spec fn uid_doubt(uid: Seq<u8>) -> Option<Seq<char>> {
    if all_bytes(uid, 0x00) {
        Some("\x1b[31m⚠ UID is all zeros — likely counterfeit\x1b[0m"@)
    } else if all_bytes(uid, 0xFF) {
        Some("\x1b[31m⚠ UID is all 0xFF — chip does not support unique ID\x1b[0m"@)
    } else {
        None
    }
}

/// The warning about a blank identifier; a plausible one gives none.
pub fn uid_warning(uid: &[u8]) -> (r: Option<String>)
    ensures
        match r {
            Some(s) => uid_doubt(uid@) == Some(s@),
            None => uid_doubt(uid@) is None,
        },
{
    if all_are(uid, 0x00) {
        Some("\x1b[31m⚠ UID is all zeros — likely counterfeit\x1b[0m".to_owned())
    } else if all_are(uid, 0xFF) {
        Some(
            "\x1b[31m⚠ UID is all 0xFF — chip does not support unique ID\x1b[0m".to_owned(),
        )
    } else {
        None
    }
}

/// The manufacturers whose chips have a unique identifier are Winbond, GigaDevice, ISSI and EON;
/// it is asked for by the opcode and four dummy bytes, and is eight bytes long.
pub proof fn law_uid_is_asked_of_those_who_have_one(mfr: u8)
    ensures
        uid_script(mfr) is Some <==> mfr == 0xEF || mfr == 0xC8 || mfr == 0x9D || mfr == 0x1C,
        uid_script(mfr) matches Some(script) ==> script.len() == 1 && (script[0] matches OpModel::Transfer {
            tx,
            rx_len,
        } && tx == seq![0x4Bu8, 0x00, 0x00, 0x00, 0x00] && rx_len == 8),
{
}

/// An identifier is doubted just where all of its bytes are 00h, or all are FFh.
pub proof fn law_only_blank_identifiers_are_doubted(uid: Seq<u8>, i: int, j: int)
    requires
        0 <= i < uid.len(),
        0 <= j < uid.len(),
        uid[i] != 0x00,
        uid[j] != 0xFF,
    ensures
        uid_doubt(uid) is None,
{
}

} // verus!
