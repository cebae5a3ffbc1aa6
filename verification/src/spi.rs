//! SPI NOR access.
use vstd::prelude::*;

use crate::host::{command, push_command, push_op, script_of, HostOp, OpModel};
use crate::usb::UsbReq;

pub mod bus;
pub mod detect;
pub mod effect;
pub mod erase;
pub mod lock;
pub mod probe;
pub mod protect;
pub mod quad;
pub mod read;
pub mod sfdp;
pub mod smart;
pub mod write;

verus! {

/// Clock in MHz.
#[derive(Debug, Clone, Copy, PartialEq, Eq, Structural)]
pub struct SpiSpeed(pub u8);

impl SpiSpeed {
    /// The clocks that a programmer can run at.
    pub open spec fn speeds() -> Seq<SpiSpeed> {
        seq![
            SpiSpeed(1),
            SpiSpeed(2),
            SpiSpeed(4),
            SpiSpeed(8),
            SpiSpeed(12),
            SpiSpeed(16),
            SpiSpeed(24),
            SpiSpeed(32),
        ]
    }

    /// The clocks that a programmer can run at.
    pub fn all() -> (r: [SpiSpeed; 8])
        ensures
            r@ == SpiSpeed::speeds(),
    {
        let r: [SpiSpeed; 8] = [
            SpiSpeed(1),
            SpiSpeed(2),
            SpiSpeed(4),
            SpiSpeed(8),
            SpiSpeed(12),
            SpiSpeed(16),
            SpiSpeed(24),
            SpiSpeed(32),
        ];
        assert(r@ =~= SpiSpeed::speeds());
        r
    }

    /// Whether a programmer can run at this clock.
    pub fn is_supported(self) -> (r: bool)
        ensures
            r == SpiSpeed::speeds().contains(self),
    {
        let all: [SpiSpeed; 8] = SpiSpeed::all();
        let mut i: usize = 0;
        while i < 8
            invariant
                i <= 8,
                all@ == SpiSpeed::speeds(),
                forall|k: int| 0 <= k < i ==> all@[k] != self,
            decreases 8 - i,
        {
            if all[i] == self {
                assert(all@[i as int] == self);
                return true;
            }
            i += 1;
        }
        false
    }
}

/// The script that sets the SPI interface up for a clock.
pub open spec fn init_script(speed: SpiSpeed) -> Seq<OpModel> {
    seq![command(UsbReq::SpiInit, speed.0 as u32), OpModel::Sleep { ms: 50 }]
}

/// The script that sets the SPI interface up for a clock.
pub fn init(speed: SpiSpeed) -> (script: Vec<HostOp>)
    ensures
        script_of(script@) == init_script(speed),
{
    let mut script: Vec<HostOp> = Vec::new();
    push_command(&mut script, UsbReq::SpiInit, speed.0 as u32);
    push_op(&mut script, HostOp::Sleep { ms: 50 });
    assert(script_of(script@) =~= init_script(speed));
    script
}

/// Setting the interface up hands the clock on as it is, and then waits.
pub proof fn law_clock_is_handed_on(speed: SpiSpeed)
    ensures
        init_script(speed).len() == 2,
        init_script(speed)[0] matches OpModel::Control { req, data, payload, settle } && req
            == UsbReq::SpiInit && data == speed.0 && payload.len() == 0,
        init_script(speed)[1] matches OpModel::Sleep { ms } && ms == 50,
{
}

} // verus!
