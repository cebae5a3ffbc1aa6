//! Power and logic configuration of a programmer.
use vstd::prelude::*;

use crate::error::Error;
use crate::host::{arm, command, push_command, push_op, script_of, HostOp, OpModel};
use crate::programmer::Programmer;
use crate::usb::UsbReq;

verus! {

/// Voltage a programmer applies to the chip socket.
#[derive(Debug, Clone, Copy, PartialEq, Eq, Structural)]
pub enum Voltage {
    V1_8,
    V3_3,
    /// Classic only.
    V5_0,
}

/// The logic images that a programmer with an FPGA is loaded with.
#[derive(Debug, Clone, Copy, PartialEq, Eq, Structural)]
pub enum Bitstream {
    Pro5V3_3,
    Pro5V1_8,
    Mach1V3_3,
    Mach1V1_8,
}

/// The image for a programmer and a voltage: none where there is no FPGA.
pub open spec fn image_for(kind: Programmer, voltage: Voltage) -> Result<Option<Bitstream>, Error> {
    match (kind, voltage) {
        (Programmer::Classic, _) => Ok(None),
        (_, Voltage::V5_0) => Err(Error::FpgaNo5v),
        (Programmer::Pro5, Voltage::V3_3) => Ok(Some(Bitstream::Pro5V3_3)),
        (Programmer::Pro5, Voltage::V1_8) => Ok(Some(Bitstream::Pro5V1_8)),
        (Programmer::Mach1, Voltage::V3_3) => Ok(Some(Bitstream::Mach1V3_3)),
        (Programmer::Mach1, Voltage::V1_8) => Ok(Some(Bitstream::Mach1V1_8)),
    }
}

/// Chooses the image for a programmer and a voltage.
pub fn bitstream(kind: Programmer, voltage: Voltage) -> (r: Result<Option<Bitstream>, Error>)
    ensures
        r == image_for(kind, voltage),
{
    match (kind, voltage) {
        (Programmer::Classic, _) => Ok(None),
        (_, Voltage::V5_0) => Err(Error::FpgaNo5v),
        (Programmer::Pro5, Voltage::V3_3) => Ok(Some(Bitstream::Pro5V3_3)),
        (Programmer::Pro5, Voltage::V1_8) => Ok(Some(Bitstream::Pro5V1_8)),
        (Programmer::Mach1, Voltage::V3_3) => Ok(Some(Bitstream::Mach1V3_3)),
        (Programmer::Mach1, Voltage::V1_8) => Ok(Some(Bitstream::Mach1V1_8)),
    }
}

/// The script that cuts the power of the chip socket.
pub open spec fn off_script(kind: Programmer) -> Seq<OpModel> {
    seq![
        command(
            if kind.with_fpga() {
                UsbReq::LogicOff
            } else {
                UsbReq::VccOff
            },
            0,
        ),
    ]
}

/// The script that cuts the power of the chip socket.
pub fn vcc_off(kind: Programmer) -> (script: Vec<HostOp>)
    ensures
        script_of(script@) == off_script(kind),
{
    let mut script: Vec<HostOp> = Vec::new();
    if kind.has_fpga() {
        push_command(&mut script, UsbReq::LogicOff, 0);
    } else {
        push_command(&mut script, UsbReq::VccOff, 0);
    }
    assert(script_of(script@) =~= off_script(kind));
    script
}

/// The argument that sets the configuration port up: select 1, mode 3, 24 MHz.
pub const SSPI_INIT: u32 = 0x0103_0018;

/// Bytes sent to the configuration port.
pub open spec fn sspi_bytes(data: Seq<u8>) -> Seq<OpModel> {
    seq![
        arm(UsbReq::SpiWrData, data.len() as u32),
        OpModel::BulkOut { bytes: data },
        OpModel::Sleep { ms: 2 },
    ]
}

fn push_sspi(script: &mut Vec<HostOp>, data: Vec<u8>)
    requires
        data@.len() <= u32::MAX,
    ensures
        script_of(final(script)@) == script_of(old(script)@) + sspi_bytes(data@),
{
    let payload: Vec<u8> = Vec::new();
    push_op(
        script,
        HostOp::Control {
            req: UsbReq::SpiWrData,
            data: data.len() as u32,
            payload,
            settle: false,
        },
    );
    push_op(script, HostOp::BulkOut { bytes: data });
    push_op(script, HostOp::Sleep { ms: 2 });
    assert(script_of(script@) =~~= script_of(old(script)@) + sspi_bytes(data@));
}

/// `n` zero bytes.
pub open spec fn zeros(n: nat) -> Seq<u8> {
    Seq::new(n, |i: int| 0u8)
}

/// The script that loads an image: power, configuration port, reset pulse, one dummy byte, the
/// image, trailing clocks, status, start.
pub open spec fn load_script(voltage: Voltage, image: Seq<u8>) -> Seq<OpModel> {
    seq![
        command(
            if voltage == Voltage::V1_8 {
                UsbReq::Logic1v8
            } else {
                UsbReq::Logic3v3
            },
            0,
        ),
        command(UsbReq::SpiInit, SSPI_INIT),
        command(UsbReq::SpiSsEnable, 0),
        command(UsbReq::PulseReset, 0),
        command(UsbReq::SpiSsDisable, 0),
    ] + sspi_bytes(zeros(1)) + seq![command(UsbReq::SpiSsEnable, 0)] + sspi_bytes(image) + seq![
        command(UsbReq::SpiSsDisable, 0),
    ] + sspi_bytes(zeros(13)) + seq![
        OpModel::ControlIn { req: UsbReq::LogicStatus, data: 0, len: 4 },
        command(UsbReq::LogicStart, 0),
        OpModel::Sleep { ms: 50 },
    ]
}

/// The script that loads an image.  Power is never cut before: that would reset the
/// configuration port.
pub fn load(voltage: Voltage, image: Vec<u8>) -> (script: Vec<HostOp>)
    requires
        voltage != Voltage::V5_0,
        image@.len() <= u32::MAX,
    ensures
        script_of(script@) == load_script(voltage, image@),
{
    let mut script: Vec<HostOp> = Vec::new();
    if voltage == Voltage::V1_8 {
        push_command(&mut script, UsbReq::Logic1v8, 0);
    } else {
        push_command(&mut script, UsbReq::Logic3v3, 0);
    }
    push_command(&mut script, UsbReq::SpiInit, SSPI_INIT);
    push_command(&mut script, UsbReq::SpiSsEnable, 0);
    push_command(&mut script, UsbReq::PulseReset, 0);
    push_command(&mut script, UsbReq::SpiSsDisable, 0);
    let mut dummy: Vec<u8> = Vec::new();
    dummy.push(0);
    assert(dummy@ =~= zeros(1));
    push_sspi(&mut script, dummy);
    push_command(&mut script, UsbReq::SpiSsEnable, 0);
    push_sspi(&mut script, image);
    push_command(&mut script, UsbReq::SpiSsDisable, 0);
    let mut clocks: Vec<u8> = Vec::new();
    clocks.resize(13, 0);
    assert(clocks@ =~= zeros(13));
    push_sspi(&mut script, clocks);
    push_op(
        &mut script,
        HostOp::ControlIn { req: UsbReq::LogicStatus, data: 0, len: 4 },
    );
    push_command(&mut script, UsbReq::LogicStart, 0);
    push_op(&mut script, HostOp::Sleep { ms: 50 });
    assert(script_of(script@) =~~= load_script(voltage, image@));
    script
}

/// Whether a status reply leaves it open that the image was taken.  Some firmware never says
/// so, even on success.
pub fn cdone_missing(status: &[u8]) -> (r: bool)
    ensures
        r == (status@.len() > 0 && status@[0] & 0x01 == 0),
{
    status.len() > 0 && status[0] & 0x01 == 0
}

/// The script that applies a voltage: with an FPGA only the settling time, since loading has
/// switched it on; else the supply is chosen and switched on.
pub open spec fn vcc_script(kind: Programmer, voltage: Voltage) -> Result<Seq<OpModel>, Error> {
    if kind.with_fpga() {
        Ok(seq![OpModel::Sleep { ms: 100 }])
    } else if voltage == Voltage::V1_8 {
        Err(Error::ClassicNo1v8)
    } else {
        Ok(
            seq![
                command(
                    if voltage == Voltage::V5_0 {
                        UsbReq::Vcc5v
                    } else {
                        UsbReq::Vcc3v
                    },
                    0,
                ),
                command(UsbReq::VccOn, 0),
                OpModel::Sleep { ms: 250 },
            ],
        )
    }
}

/// The script that applies a voltage.
pub fn set_vcc(kind: Programmer, voltage: Voltage) -> (r: Result<Vec<HostOp>, Error>)
    ensures
        match vcc_script(kind, voltage) {
            Ok(script) => r matches Ok(v) && script_of(v@) == script,
            Err(e) => r == Err::<Vec<HostOp>, _>(e),
        },
{
    let mut script: Vec<HostOp> = Vec::new();
    if kind.has_fpga() {
        push_op(&mut script, HostOp::Sleep { ms: 100 });
        assert(script_of(script@) =~= seq![OpModel::Sleep { ms: 100 }]);
        return Ok(script);
    }
    match voltage {
        Voltage::V3_3 => push_command(&mut script, UsbReq::Vcc3v, 0),
        Voltage::V5_0 => push_command(&mut script, UsbReq::Vcc5v, 0),
        Voltage::V1_8 => return Err(Error::ClassicNo1v8),
    }
    push_command(&mut script, UsbReq::VccOn, 0);
    push_op(&mut script, HostOp::Sleep { ms: 250 });
    assert(script_of(script@) =~= seq![
        command(
            if voltage == Voltage::V5_0 {
                UsbReq::Vcc5v
            } else {
                UsbReq::Vcc3v
            },
            0,
        ),
        command(UsbReq::VccOn, 0),
        OpModel::Sleep { ms: 250 },
    ]);
    Ok(script)
}

/// A voltage that the programmer supports can be applied: there is an image for it where one
/// is needed, and a supply where there is none.
pub proof fn law_supported_voltage_can_be_applied(kind: Programmer, voltage: Voltage)
    requires
        kind.voltages().contains(voltage),
    ensures
        image_for(kind, voltage) is Ok,
        kind.with_fpga() ==> image_for(kind, voltage)->Ok_0 is Some && voltage != Voltage::V5_0,
        !kind.with_fpga() ==> voltage != Voltage::V1_8,
{
}

/// What the supply of the socket is set to, and what it applies.
pub struct Supply {
    pub chosen: Option<Voltage>,
    pub applied: Option<Voltage>,
}

/// The supply after one step: a programmer without FPGA chooses a voltage and switches it on, one
/// with FPGA applies the voltage of its logic.
pub open spec fn supply_step(s: Supply, op: OpModel) -> Supply {
    match op {
        OpModel::Control { req, data, payload, settle } => match req {
            UsbReq::Vcc3v => Supply { chosen: Some(Voltage::V3_3), ..s },
            UsbReq::Vcc5v => Supply { chosen: Some(Voltage::V5_0), ..s },
            UsbReq::VccOn => Supply { applied: s.chosen, ..s },
            UsbReq::VccOff => Supply { applied: None, ..s },
            UsbReq::Logic1v8 => Supply { applied: Some(Voltage::V1_8), ..s },
            UsbReq::Logic3v3 => Supply { applied: Some(Voltage::V3_3), ..s },
            UsbReq::LogicOff => Supply { applied: None, ..s },
            _ => s,
        },
        _ => s,
    }
}

/// The supply after the steps of a script from the `i`-th on.
pub open spec fn supply_after(s: Supply, script: Seq<OpModel>, i: int) -> Supply
    decreases script.len() - i,
{
    if i < 0 || i >= script.len() {
        s
    } else {
        supply_after(supply_step(s, script[i]), script, i + 1)
    }
}

/// Switching off leaves no voltage on the socket, whatever was there; on a programmer without FPGA
/// the voltage that is set is the one that is applied, and on one with FPGA loading applies it and
/// setting it changes nothing.
pub proof fn law_asked_for_voltage_is_applied(
    kind: Programmer,
    voltage: Voltage,
    image: Seq<u8>,
    s: Supply,
)
    ensures
        supply_after(s, off_script(kind), 0).applied is None,
        off_script(kind)[0] == command(UsbReq::LogicOff, 0) <==> kind.with_fpga(),
        !kind.with_fpga() && voltage != Voltage::V1_8 ==> (vcc_script(kind, voltage) matches Ok(script)
            && supply_after(s, script, 0).applied == Some(voltage)),
        !kind.with_fpga() && voltage == Voltage::V1_8 ==> vcc_script(kind, voltage) == Err::<
            Seq<OpModel>,
            _,
        >(Error::ClassicNo1v8),
        kind.with_fpga() ==> (vcc_script(kind, voltage) matches Ok(script) && supply_after(
            s,
            script,
            0,
        ) == s),
        voltage != Voltage::V5_0 ==> supply_after(s, load_script(voltage, image), 0).applied == Some(
            voltage,
        ),
        vcc_script(kind, voltage) matches Ok(script) ==> (forall|k: int|
            0 <= k < script.len() ==> ((#[trigger] script[k]) matches OpModel::Control {
                req,
                data,
                payload,
                settle,
            } ==> data == 0 && payload.len() == 0 && settle) && (script[k] is Control
                || script[k] is Sleep)),
{
    reveal_with_fuel(supply_after, 4);
    lemma_load_steps(voltage, image);
    let script = load_script(voltage, image);
    let t = supply_step(s, script[0]);
    lemma_supply_kept(t, script, 1);
}

proof fn lemma_supply_kept(s: Supply, script: Seq<OpModel>, i: int)
    requires
        0 <= i,
        forall|k: int| i <= k < script.len() ==> supply_step(s, #[trigger] script[k]) == s,
    ensures
        supply_after(s, script, i) == s,
    decreases script.len() - i,
{
    if i < script.len() {
        assert(supply_step(s, script[i]) == s);
        lemma_supply_kept(s, script, i + 1);
    }
}

/// The steps of loading, one by one.
proof fn lemma_load_steps(voltage: Voltage, image: Seq<u8>)
    ensures
        ({
            let s = load_script(voltage, image);
            &&& s.len() == 19
            &&& s[0] == command(
                if voltage == Voltage::V1_8 {
                    UsbReq::Logic1v8
                } else {
                    UsbReq::Logic3v3
                },
                0,
            )
            &&& s[1] == command(UsbReq::SpiInit, SSPI_INIT)
            &&& s[2] == command(UsbReq::SpiSsEnable, 0)
            &&& s[3] == command(UsbReq::PulseReset, 0)
            &&& s[4] == command(UsbReq::SpiSsDisable, 0)
            &&& s[5] == arm(UsbReq::SpiWrData, 1)
            &&& s[6] == OpModel::BulkOut { bytes: zeros(1) }
            &&& s[7] is Sleep
            &&& s[8] == command(UsbReq::SpiSsEnable, 0)
            &&& s[9] == arm(UsbReq::SpiWrData, image.len() as u32)
            &&& s[10] == OpModel::BulkOut { bytes: image }
            &&& s[11] is Sleep
            &&& s[12] == command(UsbReq::SpiSsDisable, 0)
            &&& s[13] == arm(UsbReq::SpiWrData, 13)
            &&& s[14] == OpModel::BulkOut { bytes: zeros(13) }
            &&& s[15] is Sleep
            &&& s[16] == OpModel::ControlIn { req: UsbReq::LogicStatus, data: 0, len: 4 }
            &&& s[17] == command(UsbReq::LogicStart, 0)
            &&& s[18] is Sleep
        }),
{
}

/// The bytes that a script sends, from its `i`-th step on, while the configuration port is selected,
/// or while it is not.
pub open spec fn sent_from(script: Seq<OpModel>, i: int, selected: bool, wanted: bool) -> Seq<u8>
    decreases script.len() - i,
{
    if i < 0 || i >= script.len() {
        Seq::empty()
    } else {
        match script[i] {
            OpModel::BulkOut { bytes } => (if selected == wanted {
                bytes
            } else {
                Seq::empty()
            }) + sent_from(script, i + 1, selected, wanted),
            OpModel::Control { req, data, payload, settle } => sent_from(
                script,
                i + 1,
                if req == UsbReq::SpiSsEnable {
                    true
                } else if req == UsbReq::SpiSsDisable {
                    false
                } else {
                    selected
                },
                wanted,
            ),
            _ => sent_from(script, i + 1, selected, wanted),
        }
    }
}

/// Loading sends the image, and nothing else, to the selected port; one byte before and thirteen
/// behind go out unselected.  Every transfer is announced with its length, the port is reset
/// before the image is sent, and the logic is started at the end.
pub proof fn law_loading_sends_just_the_image(voltage: Voltage, image: Seq<u8>, k: int)
    requires
        image.len() <= u32::MAX,
    ensures
        ({
            let s = load_script(voltage, image);
            &&& sent_from(s, 0, false, true) == image
            &&& sent_from(s, 0, false, false).len() == 14
            &&& forall|i: int| 0 <= i < 14 ==> #[trigger] sent_from(s, 0, false, false)[i] == 0
            &&& 0 <= k < s.len() ==> (s[k] matches OpModel::BulkOut { bytes } ==> k > 0 && (s[k
                - 1] matches OpModel::Control { req, data, payload, settle } && req
                == UsbReq::SpiWrData && data == bytes.len() && !settle))
            &&& s[3] == command(UsbReq::PulseReset, 0)
            &&& s[17] == command(UsbReq::LogicStart, 0)
        }),
{
    let s = load_script(voltage, image);
    let none = Seq::<u8>::empty();
    lemma_load_steps(voltage, image);
    reveal_with_fuel(sent_from, 8);
    assert(sent_from(s, 15, false, true) =~= none);
    assert(sent_from(s, 15, false, false) =~= none);
    assert(sent_from(s, 11, true, true) =~= none);
    assert(sent_from(s, 11, true, false) =~= zeros(13));
    assert(sent_from(s, 7, false, true) =~= image);
    assert(sent_from(s, 7, false, false) =~= zeros(13));
    assert(sent_from(s, 2, false, true) =~= image);
    assert(sent_from(s, 2, false, false) =~= zeros(1) + zeros(13));
}

/// There is an image just for programmers with FPGA, and it is the one of that programmer and of
/// that voltage; none runs at 5V.
pub proof fn law_image_goes_with_programmer_and_voltage(kind: Programmer, voltage: Voltage)
    ensures
        kind is Classic ==> image_for(kind, voltage) == Ok::<Option<Bitstream>, Error>(None),
        kind.with_fpga() && voltage == Voltage::V5_0 ==> image_for(kind, voltage) == Err::<
            Option<Bitstream>,
            _,
        >(Error::FpgaNo5v),
        kind.with_fpga() && voltage != Voltage::V5_0 ==> (image_for(kind, voltage) matches Ok(
            Some(image),
        ) && {
            &&& image is Pro5V1_8 || image is Pro5V3_3 <==> kind is Pro5
            &&& image is Pro5V1_8 || image is Mach1V1_8 <==> voltage == Voltage::V1_8
        }),
{
}

} // verus!
