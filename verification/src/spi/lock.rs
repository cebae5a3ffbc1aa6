//! Individual block locks of Winbond chips.  They are volatile.
use vstd::prelude::*;

use crate::chip::{ChipModel, ResolvedChip, MFR_WINBOND};
use crate::error::Error;
use crate::host::{push_op, push_opcode, push_send, script_of, send, HostOp, OpModel};
use crate::spi::bus::{
    address_bytes, address_command, be_value, law_address_bytes_spell_the_address, push_address,
    CMD_WRITE_ENABLE,
};
use crate::spi::write::write_enable;

verus! {

pub const CMD_READ_BLOCK_LOCK: u8 = 0x3D;

pub const CMD_BLOCK_LOCK: u8 = 0x36;

pub const CMD_BLOCK_UNLOCK: u8 = 0x39;

pub const CMD_GLOBAL_LOCK: u8 = 0x7E;

pub const CMD_GLOBAL_UNLOCK: u8 = 0x98;

/// Pause after a global lock or unlock.
pub const GLOBAL_LOCK_MS: u64 = 1;

/// Why block locks of a chip cannot be used, if they cannot.
pub open spec fn lock_refusal(chip: ChipModel) -> Option<Error> {
    if chip.mfr != MFR_WINBOND {
        Some(Error::NotWinbond { mfr: chip.mfr })
    } else {
        None
    }
}

/// Why the block lock at an address cannot be used, if it cannot.
pub open spec fn block_refusal(chip: ChipModel, addr: u32) -> Option<Error> {
    if chip.mfr != MFR_WINBOND {
        Some(Error::NotWinbond { mfr: chip.mfr })
    } else if addr >= chip.size_bytes {
        Some(Error::AddressOutOfRange { addr, size: chip.size_bytes })
    } else {
        None
    }
}

/// Refuses a chip that is not Winbond's.
pub fn require_winbond(chip: &ResolvedChip) -> (r: Result<(), Error>)
    ensures
        r == match lock_refusal(chip@) {
            Some(e) => Err::<(), Error>(e),
            None => Ok(()),
        },
{
    if chip.mfr != MFR_WINBOND {
        Err(Error::NotWinbond { mfr: chip.mfr })
    } else {
        Ok(())
    }
}

fn check_block(chip: &ResolvedChip, addr: u32) -> (r: Result<(), Error>)
    ensures
        r == match block_refusal(chip@, addr) {
            Some(e) => Err::<(), Error>(e),
            None => Ok(()),
        },
{
    match require_winbond(chip) {
        Ok(()) => {},
        Err(e) => return Err(e),
    }
    if addr >= chip.size_bytes {
        return Err(Error::AddressOutOfRange { addr, size: chip.size_bytes });
    }
    Ok(())
}

/// An address as the chip takes it: 3 or 4 bytes, most significant first.
pub fn addr_vec(chip: &ResolvedChip, addr: u32) -> (r: Vec<u8>)
    ensures
        r@ == address_bytes(chip.addr_bytes, addr),
{
    let mut r: Vec<u8> = Vec::new();
    push_address(&mut r, chip.addr_bytes, addr);
    assert(r@ =~= address_bytes(chip.addr_bytes, addr));
    r
}

/// Whether a fallible script is what a specification says.
pub open spec fn scripted(
    r: Result<Vec<HostOp>, Error>,
    refusal: Option<Error>,
    script: Seq<OpModel>,
) -> bool {
    match refusal {
        Some(e) => r == Err::<Vec<HostOp>, _>(e),
        None => r matches Ok(v) && script_of(v@) == script,
    }
}

/// The script that reads the lock of the block that contains `addr`.
pub open spec fn lock_query(chip: ChipModel, addr: u32) -> Seq<OpModel> {
    seq![
        OpModel::Transfer {
            tx: seq![CMD_READ_BLOCK_LOCK] + address_bytes(chip.addr_bytes, addr),
            rx_len: 1,
        },
    ]
}

/// The script that reads the lock of the block that contains `addr`.
pub fn read_block_lock(chip: &ResolvedChip, addr: u32) -> (r: Result<Vec<HostOp>, Error>)
    ensures
        scripted(r, block_refusal(chip@, addr), lock_query(chip@, addr)),
{
    match check_block(chip, addr) {
        Ok(()) => {},
        Err(e) => return Err(e),
    }
    let mut script: Vec<HostOp> = Vec::new();
    let tx = address_command(CMD_READ_BLOCK_LOCK, chip.addr_bytes, addr);
    push_op(&mut script, HostOp::Transfer { tx, rx_len: 1 });
    assert(script_of(script@) =~= lock_query(chip@, addr));
    Ok(script)
}

/// Whether the reply to a lock read says that the block is locked.
pub fn decode_block_lock(reply: &[u8]) -> (r: Result<bool, Error>)
    ensures
        r == if reply@.len() == 0 {
            Err::<bool, Error>(Error::EmptyBlockLock)
        } else {
            Ok(reply@[0] & 0x01 != 0)
        },
{
    if reply.len() == 0 {
        Err(Error::EmptyBlockLock)
    } else {
        Ok(reply[0] & 0x01 != 0)
    }
}

/// The script of a command on the block that contains `addr`.
pub open spec fn block_command(chip: ChipModel, opcode: u8, addr: u32) -> Seq<OpModel> {
    seq![
        send(seq![CMD_WRITE_ENABLE]),
        send(seq![opcode] + address_bytes(chip.addr_bytes, addr)),
    ]
}

fn block_script(chip: &ResolvedChip, opcode: u8, addr: u32) -> (r: Result<Vec<HostOp>, Error>)
    ensures
        scripted(r, block_refusal(chip@, addr), block_command(chip@, opcode, addr)),
{
    match check_block(chip, addr) {
        Ok(()) => {},
        Err(e) => return Err(e),
    }
    let mut script = write_enable();
    push_send(&mut script, address_command(opcode, chip.addr_bytes, addr));
    assert(script_of(script@) =~= block_command(chip@, opcode, addr));
    Ok(script)
}

/// The script that locks the block that contains `addr`.
pub open spec fn lock_script(chip: ChipModel, addr: u32) -> Seq<OpModel> {
    block_command(chip, CMD_BLOCK_LOCK, addr)
}

/// The script that unlocks the block that contains `addr`.
pub open spec fn unlock_script(chip: ChipModel, addr: u32) -> Seq<OpModel> {
    block_command(chip, CMD_BLOCK_UNLOCK, addr)
}

/// The script that locks the block that contains `addr`.
pub fn lock_block(chip: &ResolvedChip, addr: u32) -> (r: Result<Vec<HostOp>, Error>)
    ensures
        scripted(r, block_refusal(chip@, addr), lock_script(chip@, addr)),
{
    block_script(chip, CMD_BLOCK_LOCK, addr)
}

/// The script that unlocks the block that contains `addr`.
pub fn unlock_block(chip: &ResolvedChip, addr: u32) -> (r: Result<Vec<HostOp>, Error>)
    ensures
        scripted(r, block_refusal(chip@, addr), unlock_script(chip@, addr)),
{
    block_script(chip, CMD_BLOCK_UNLOCK, addr)
}

/// The script of a command on all blocks.
pub open spec fn global_command(opcode: u8) -> Seq<OpModel> {
    seq![
        send(seq![CMD_WRITE_ENABLE]),
        send(seq![opcode]),
        OpModel::Sleep { ms: GLOBAL_LOCK_MS },
    ]
}

fn global_script(chip: &ResolvedChip, opcode: u8) -> (r: Result<Vec<HostOp>, Error>)
    ensures
        scripted(r, lock_refusal(chip@), global_command(opcode)),
{
    match require_winbond(chip) {
        Ok(()) => {},
        Err(e) => return Err(e),
    }
    let mut script = write_enable();
    push_opcode(&mut script, opcode);
    push_op(&mut script, HostOp::Sleep { ms: GLOBAL_LOCK_MS });
    assert(script_of(script@) =~~= global_command(opcode));
    Ok(script)
}

/// The script that locks all blocks.
pub open spec fn global_lock_script() -> Seq<OpModel> {
    global_command(CMD_GLOBAL_LOCK)
}

/// The script that unlocks all blocks.
pub open spec fn global_unlock_script() -> Seq<OpModel> {
    global_command(CMD_GLOBAL_UNLOCK)
}

/// The script that locks all blocks.
pub fn global_lock(chip: &ResolvedChip) -> (r: Result<Vec<HostOp>, Error>)
    ensures
        scripted(r, lock_refusal(chip@), global_lock_script()),
{
    global_script(chip, CMD_GLOBAL_LOCK)
}

/// The script that unlocks all blocks.
pub fn global_unlock(chip: &ResolvedChip) -> (r: Result<Vec<HostOp>, Error>)
    ensures
        scripted(r, lock_refusal(chip@), global_unlock_script()),
{
    global_script(chip, CMD_GLOBAL_UNLOCK)
}

/// Whether the block at an address is locked after a command, by what it was before: 36h and 39h
/// behind a write enable lock and unlock the block at the address that follows, 7Eh and 98h all
/// blocks.
pub open spec fn locked_after(
    chip: ChipModel,
    locked: Set<int>,
    blocks: Set<int>,
    script: Seq<OpModel>,
) -> Set<int> {
    if script.len() >= 2 && script[0] == (OpModel::Transfer { tx: seq![0x06u8], rx_len: 0 }) {
        match script[1] {
            OpModel::Transfer { tx, rx_len } => if tx.len() == 1 + chip.addr_bytes && tx[0] == 0x36 {
                locked.insert(be_value(tx.skip(1)))
            } else if tx.len() == 1 + chip.addr_bytes && tx[0] == 0x39 {
                locked.remove(be_value(tx.skip(1)))
            } else if tx.len() == 1 && tx[0] == 0x7E {
                blocks
            } else if tx.len() == 1 && tx[0] == 0x98 {
                Set::empty()
            } else {
                locked
            },
            _ => locked,
        }
    } else {
        locked
    }
}

/// Locking and unlocking a block change the lock of the block at that address and of no other,
/// and the two global commands the locks of all; the lock that is queried is the one at the
/// address.
pub proof fn law_lock_scripts_name_the_block(
    chip: ChipModel,
    locked: Set<int>,
    blocks: Set<int>,
    addr: u32,
)
    requires
        chip.addr_bytes == 3 || chip.addr_bytes == 4,
        chip.addr_bytes == 3 ==> addr < 0x100_0000,
    ensures
        locked_after(chip, locked, blocks, lock_script(chip, addr)) == locked.insert(addr as int),
        locked_after(chip, locked, blocks, unlock_script(chip, addr)) == locked.remove(addr as int),
        locked_after(chip, locked, blocks, global_lock_script()) == blocks,
        locked_after(chip, locked, blocks, global_unlock_script()) == Set::<int>::empty(),
        ({
            let query = lock_query(chip, addr);
            &&& query.len() == 1
            &&& query[0] matches OpModel::Transfer { tx, rx_len }
            &&& rx_len == 1
            &&& tx[0] == 0x3D
            &&& tx.len() == 1 + chip.addr_bytes
            &&& be_value(tx.skip(1)) == addr
        }),
{
    law_address_bytes_spell_the_address(chip.addr_bytes, addr);
    let a = address_bytes(chip.addr_bytes, addr);
    if chip.addr_bytes == 3 {
        vstd::arithmetic::div_mod::lemma_small_mod(addr as nat, 0x100_0000);
    }
    assert((seq![CMD_BLOCK_LOCK] + a).skip(1) =~= a);
    assert((seq![CMD_BLOCK_UNLOCK] + a).skip(1) =~= a);
    assert((seq![CMD_READ_BLOCK_LOCK] + a).skip(1) =~= a);
    assert(lock_script(chip, addr)[0]->tx =~= seq![0x06u8]);
    assert(unlock_script(chip, addr)[0]->tx =~= seq![0x06u8]);
    assert(global_lock_script()[0]->tx =~= seq![0x06u8]);
    assert(global_unlock_script()[0]->tx =~= seq![0x06u8]);
}

/// Locks are for Winbond parts only, and a block's for addresses on the chip only.
pub proof fn law_locks_are_refused_elsewhere(chip: ChipModel, addr: u32)
    ensures
        lock_refusal(chip) is None <==> chip.mfr == 0xEF,
        block_refusal(chip, addr) is None <==> chip.mfr == 0xEF && addr < chip.size_bytes,
        chip.mfr != 0xEF ==> block_refusal(chip, addr) == Some(Error::NotWinbond { mfr: chip.mfr }),
        chip.mfr == 0xEF && addr >= chip.size_bytes ==> block_refusal(chip, addr) == Some(
            Error::AddressOutOfRange { addr, size: chip.size_bytes },
        ),
{
}

} // verus!
