//! The read command.
use vstd::prelude::*;

use crate::args::VoltageChoice;
use crate::chip::ResolvedChip;
use crate::error::Error;
use crate::programmer::Programmer;
use crate::spi::SpiSpeed;
use crate::text::{dec_text, push_dec};

verus! {

/// Options of the read command.
#[derive(Debug)]
pub struct ReadOpts {
    pub vc: VoltageChoice,
    pub speed: SpiSpeed,
    pub file: String,
    pub offset: u32,
    pub length: Option<u32>,
    pub quad: bool,
    pub legacy_read: bool,
    pub layout: Option<String>,
    pub region: Option<String>,
}

/// Refuses a quad read that the chip or the programmer cannot do: the chip must have quad
/// reads, and only Mach1 routes all four lines.
pub fn check_quad(quad: bool, chip: &ResolvedChip, kind: Programmer) -> (r: Result<(), Error>)
    ensures
        r == if quad && !chip.quad {
            Err::<(), Error>(Error::ChipWithoutQuad)
        } else if quad && kind != Programmer::Mach1 {
            Err(Error::QuadNeedsMach1)
        } else {
            Ok(())
        },
{
    if quad && !chip.quad {
        Err(Error::ChipWithoutQuad)
    } else if quad && kind != Programmer::Mach1 {
        Err(Error::QuadNeedsMach1)
    } else {
        Ok(())
    }
}

/// The closing line.
pub fn saved_line(bytes: usize, file: &str) -> (s: String)
    ensures
        s@ == "Saved "@ + dec_text(bytes as nat) + " bytes → "@ + file@,
{
    let mut s = String::from_str("Saved ");
    push_dec(&mut s, bytes as u64);
    s.append(" bytes → ");
    s.append(file);
    assert(s@ =~= "Saved "@ + dec_text(bytes as nat) + " bytes → "@ + file@);
    s
}

} // verus!
