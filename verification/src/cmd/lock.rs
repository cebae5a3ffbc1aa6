//! The block-lock and block-unlock commands.
use vstd::prelude::*;

use crate::error::Error;
use crate::text::{hex_text, lines_of, push_hex, push_line, push_text};

verus! {

/// What is locked or unlocked.
#[derive(Debug, Clone, Copy, PartialEq, Eq, Structural)]
pub enum LockTarget {
    All,
    Block(u32),
}

/// What the arguments stand for: either all blocks or one address.
pub fn lock_target(global: bool, addr: Option<u32>) -> (r: Result<LockTarget, Error>)
    ensures
        r == match (global, addr) {
            (true, None) => Ok::<LockTarget, Error>(LockTarget::All),
            (false, Some(a)) => Ok(LockTarget::Block(a)),
            (true, Some(_)) => Err(Error::GlobalAndAddress),
            (false, None) => Err(Error::GlobalOrAddress),
        },
{
    match (global, addr) {
        (true, None) => Ok(LockTarget::All),
        (false, Some(a)) => Ok(LockTarget::Block(a)),
        (true, Some(_)) => Err(Error::GlobalAndAddress),
        (false, None) => Err(Error::GlobalOrAddress),
    }
}

/// The notes below every lock report.
pub open spec fn closing_notes() -> Seq<Seq<char>> {
    seq![
        "  note: lock bits are volatile — cleared on power cycle or reset"@,
        "  note: flashcat cuts VCC after this command; bits persist only on externally-powered chips"@,
    ]
}

fn push_closing_notes(out: &mut Vec<String>)
    ensures
        lines_of(final(out)@) == lines_of(old(out)@) + closing_notes(),
{
    push_text(out, "  note: lock bits are volatile — cleared on power cycle or reset");
    push_text(
        out,
        "  note: flashcat cuts VCC after this command; bits persist only on externally-powered chips",
    );
    assert(lines_of(out@) =~= lines_of(old(out)@) + closing_notes());
}

/// The line that states the lock of one block.
pub open spec fn block_line(addr: u32, state: Seq<char>) -> Seq<char> {
    "Block at "@ + hex_text(addr as nat, 8) + ": "@ + state
}

fn push_block_line(out: &mut Vec<String>, addr: u32, state: &str)
    ensures
        lines_of(final(out)@) == lines_of(old(out)@).push(block_line(addr, state@)),
{
    let mut s = String::from_str("Block at ");
    push_hex(&mut s, addr as u64, 8);
    s.append(": ");
    s.append(state);
    assert(s@ =~= block_line(addr, state@));
    push_line(out, s);
}

/// The report of the block-lock command.
pub open spec fn lock_lines(target: LockTarget, locked: bool, block_lock_mode: bool) -> Seq<
    Seq<char>,
> {
    (match target {
        LockTarget::All => seq!["All blocks locked"@] + (if block_lock_mode {
            Seq::empty()
        } else {
            seq![
                "  note: WPS=0 — block lock bits set but not active; set SR3.WPS=1 to use per-block protection"@,
            ]
        }),
        LockTarget::Block(addr) => seq![
            block_line(
                addr,
                if locked {
                    "locked"@
                } else {
                    "not locked"@
                },
            ),
        ] + (if block_lock_mode {
            Seq::empty()
        } else {
            seq![
                "  note: WPS=0 — individual block lock bits are set but BP-range protection (SR1) is active"@,
                "  set SR3.WPS=1 to enable per-block protection"@,
            ]
        }),
    }) + closing_notes()
}

/// Reports a block-lock command: the lock that was read back, and whether locks count at all.
pub fn lock_report(target: LockTarget, locked: bool, block_lock_mode: bool) -> (out: Vec<String>)
    ensures
        lines_of(out@) == lock_lines(target, locked, block_lock_mode),
{
    let mut out: Vec<String> = Vec::new();
    match target {
        LockTarget::All => {
            push_text(&mut out, "All blocks locked");
            if !block_lock_mode {
                push_text(
                    &mut out,
                    "  note: WPS=0 — block lock bits set but not active; set SR3.WPS=1 to use per-block protection",
                );
            }
        },
        LockTarget::Block(addr) => {
            if locked {
                push_block_line(&mut out, addr, "locked");
            } else {
                push_block_line(&mut out, addr, "not locked");
            }
            if !block_lock_mode {
                push_text(
                    &mut out,
                    "  note: WPS=0 — individual block lock bits are set but BP-range protection (SR1) is active",
                );
                push_text(&mut out, "  set SR3.WPS=1 to enable per-block protection");
            }
        },
    }
    push_closing_notes(&mut out);
    assert(lines_of(out@) =~= lock_lines(target, locked, block_lock_mode));
    out
}

/// The report of the block-unlock command.
pub open spec fn unlock_lines(target: LockTarget, locked: bool, block_lock_mode: bool) -> Seq<
    Seq<char>,
> {
    (match target {
        LockTarget::All => seq!["All blocks unlocked"@],
        LockTarget::Block(addr) => seq![
            block_line(
                addr,
                if locked {
                    "locked"@
                } else {
                    "unlocked"@
                },
            ),
        ],
    }) + (if block_lock_mode {
        Seq::empty()
    } else {
        seq![
            "  note: WPS=0 — individual block lock bits are not active (BP-range protection via SR1 is in effect)"@,
        ]
    }) + closing_notes()
}

/// Reports a block-unlock command.
pub fn unlock_report(target: LockTarget, locked: bool, block_lock_mode: bool) -> (out: Vec<
    String,
>)
    ensures
        lines_of(out@) == unlock_lines(target, locked, block_lock_mode),
{
    let mut out: Vec<String> = Vec::new();
    match target {
        LockTarget::All => push_text(&mut out, "All blocks unlocked"),
        LockTarget::Block(addr) => {
            if locked {
                push_block_line(&mut out, addr, "locked");
            } else {
                push_block_line(&mut out, addr, "unlocked");
            }
        },
    }
    if !block_lock_mode {
        push_text(
            &mut out,
            "  note: WPS=0 — individual block lock bits are not active (BP-range protection via SR1 is in effect)",
        );
    }
    push_closing_notes(&mut out);
    assert(lines_of(out@) =~= unlock_lines(target, locked, block_lock_mode));
    out
}

/// The first line tells what became of the block, by its address; a note that the locks do not
/// count stands there just where they do not; the last two lines are the same in every report.
pub proof fn law_lock_reports_tell_the_outcome(
    target: LockTarget,
    locked: bool,
    block_lock_mode: bool,
    addr: u32,
)
    ensures
        ({
            let lock = lock_lines(target, locked, block_lock_mode);
            let unlock = unlock_lines(target, locked, block_lock_mode);
            &&& lock.len() == 3 <==> block_lock_mode
            &&& unlock.len() == 3 <==> block_lock_mode
            &&& lock.len() >= 3
            &&& unlock.len() >= 3
            &&& lock.skip(lock.len() - 2) == unlock.skip(unlock.len() - 2)
            &&& target == LockTarget::All ==> lock[0] == "All blocks locked"@ && unlock[0]
                == "All blocks unlocked"@
            &&& target == LockTarget::Block(addr) ==> {
                &&& lock[0].subrange(9, 19) == hex_text(addr as nat, 8)
                &&& unlock[0].subrange(9, 19) == hex_text(addr as nat, 8)
                &&& lock[0].skip(21) == if locked {
                    "locked"@
                } else {
                    "not locked"@
                }
                &&& unlock[0].skip(21) == if locked {
                    "locked"@
                } else {
                    "unlocked"@
                }
            }
        }),
{
    reveal_strlit("Block at ");
    reveal_strlit(": ");
    crate::text::lemma_hex_column(addr as nat);
    let lock = lock_lines(target, locked, block_lock_mode);
    let unlock = unlock_lines(target, locked, block_lock_mode);
    assert(lock.skip(lock.len() - 2) =~= closing_notes());
    assert(unlock.skip(unlock.len() - 2) =~= closing_notes());
    if target == LockTarget::Block(addr) {
        let a = if locked {
            "locked"@
        } else {
            "not locked"@
        };
        let b = if locked {
            "locked"@
        } else {
            "unlocked"@
        };
        assert(lock[0] == block_line(addr, a));
        assert(unlock[0] == block_line(addr, b));
        assert(lock[0].subrange(9, 19) =~= hex_text(addr as nat, 8));
        assert(unlock[0].subrange(9, 19) =~= hex_text(addr as nat, 8));
        assert(lock[0].skip(21) =~= a);
        assert(unlock[0].skip(21) =~= b);
    }
}

} // verus!
