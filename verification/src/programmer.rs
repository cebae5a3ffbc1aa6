//! Programmer variants.
use vstd::prelude::*;

use crate::error::Error;
use crate::fpga::Voltage;

verus! {

/// Hardware programmer variant, known from its USB product id.
#[derive(Debug, Clone, Copy, PartialEq, Eq, Structural)]
pub enum Programmer {
    /// Classic (PCB 2.x): no FPGA; 3.3V and 5V.
    Classic,
    /// Pro (PCB 5.x): FPGA; 3.3V and 1.8V.
    Pro5,
    /// Mach1 (PCB 2.x): FPGA; 3.3V and 1.8V.
    Mach1,
}

impl Programmer {
    /// Whether the variant has an FPGA.
    pub open spec fn with_fpga(self) -> bool {
        self is Pro5 || self is Mach1
    }

    /// The voltages the variant can apply.
    pub open spec fn voltages(self) -> Seq<Voltage> {
        if self is Classic {
            seq![Voltage::V3_3, Voltage::V5_0]
        } else {
            seq![Voltage::V3_3, Voltage::V1_8]
        }
    }

    /// Whether this programmer has an FPGA that must be loaded each session.
    pub fn has_fpga(self) -> (r: bool)
        ensures
            r == self.with_fpga(),
    {
        match self {
            Programmer::Classic => false,
            Programmer::Pro5 => true,
            Programmer::Mach1 => true,
        }
    }

    /// Whether USB control transfers address the interface rather than the device.
    pub fn uses_interface_recipient(self) -> (r: bool)
        ensures
            r == self.with_fpga(),
    {
        self.has_fpga()
    }

    /// Supported target voltages of this programmer.
    pub fn supported_voltages(self) -> (r: [Voltage; 2])
        ensures
            r@ == self.voltages(),
    {
        let r: [Voltage; 2] = match self {
            Programmer::Classic => [Voltage::V3_3, Voltage::V5_0],
            Programmer::Pro5 => [Voltage::V3_3, Voltage::V1_8],
            Programmer::Mach1 => [Voltage::V3_3, Voltage::V1_8],
        };
        assert(r@ =~= self.voltages());
        r
    }

    /// Whether `v` is one of the supported target voltages.
    pub fn supports_voltage(self, v: Voltage) -> (r: bool)
        ensures
            r == self.voltages().contains(v),
    {
        let all: [Voltage; 2] = self.supported_voltages();
        let r = all[0] == v || all[1] == v;
        assert(all@[0] == v ==> self.voltages().contains(v));
        assert(all@[1] == v ==> self.voltages().contains(v));
        r
    }

    /// Refuses a voltage that the programmer cannot apply.
    pub fn check_voltage(self, voltage: Voltage) -> (r: Result<(), Error>)
        ensures
            r == if self.voltages().contains(voltage) {
                Ok::<(), Error>(())
            } else {
                Err(Error::UnsupportedVoltage { kind: self, voltage })
            },
    {
        if self.supports_voltage(voltage) {
            Ok(())
        } else {
            Err(Error::UnsupportedVoltage { kind: self, voltage })
        }
    }
}

} // verus!
