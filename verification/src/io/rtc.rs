//! Real Time Clock state.
//!
//! The clock is read through a pair of CMOS ports: a control port that
//! selects a register and masks the non-maskable interrupt, and a data
//! port that carries the value. The port reads and writes themselves are
//! privileged instructions and live with the hardware-facing code; here
//! live the port accounting, the register-select encoding, and the
//! date-and-time record the reader fills in.

use crate::io::{Port, PortHandler};
use vstd::prelude::*;

verus! {

/// The control-port bit that keeps the non-maskable interrupt disabled:
/// clear to enable it, set to mask it.
pub fn nmi_mask(nmi_enable: bool) -> (r: u8)
    ensures
        r == if nmi_enable {
            0u8
        } else {
            128u8
        },
{
    proof {
        assert(1u8 << 7 == 128) by (bit_vector);
    }
    if nmi_enable {
        0
    } else {
        1 << 7
    }
}

/// A calendar date and wall-clock time as the clock's registers report
/// them.
#[derive(Clone, Copy, Debug, PartialEq, Eq, Structural)]
pub struct DateTime {
    pub seconds: u8,
    pub minutes: u8,
    pub hours: u8,
    pub weekday: u8,
    pub day: u8,
    pub month: u8,
    pub year: u8,
    pub century: u8,
}

/// Failure to bring up the clock: one of its two ports was already
/// claimed.
#[derive(Clone, Copy, Debug, PartialEq, Eq, Structural)]
pub enum RtcInitError {
    /// The CMOS control port was not available.
    FailedToConnectToControlPort,
    /// The CMOS data port was not available.
    FailedToConnectToDataPort,
}

/// The Real Time Clock: its claimed control and data ports.
pub struct Rtc {
    cmos_nmi_control_port: Port,
    cmos_data_port: Port,
}

impl Rtc {
    /// The control port's address, for contracts.
    pub closed spec fn control_addr(&self) -> u16 {
        self.cmos_nmi_control_port.addr_spec()
    }

    /// The data port's address, for contracts.
    pub closed spec fn data_addr(&self) -> u16 {
        self.cmos_data_port.addr_spec()
    }

    /// Claims the clock's two ports, `0x70` for control and `0x71` for
    /// data. Each port must still be free; the caller then enables the
    /// clock's binary 24-hour format through them before reading.
    pub fn new(port_handler: &mut PortHandler) -> (r: Result<Rtc, RtcInitError>)
        ensures
            match r {
                Ok(rtc) => {
                    &&& !old(port_handler).claimed().contains(0x70)
                    &&& !old(port_handler).claimed().contains(0x71)
                    &&& rtc.control_addr() == 0x70
                    &&& rtc.data_addr() == 0x71
                    &&& final(port_handler).claimed() == old(port_handler).claimed().insert(
                        0x70,
                    ).insert(0x71)
                },
                Err(e) => {
                    &&& e == RtcInitError::FailedToConnectToControlPort <==> old(
                        port_handler,
                    ).claimed().contains(0x70)
                    &&& e == RtcInitError::FailedToConnectToDataPort <==> !old(
                        port_handler,
                    ).claimed().contains(0x70) && old(port_handler).claimed().contains(0x71)
                    &&& final(port_handler).claimed() == if old(port_handler).claimed().contains(
                        0x70,
                    ) {
                        old(port_handler).claimed()
                    } else {
                        old(port_handler).claimed().insert(0x70)
                    }
                },
            },
    {
        let cmos_nmi_control_port = match port_handler.add(0x70) {
            Some(p) => p,
            None => {
                return Err(RtcInitError::FailedToConnectToControlPort);
            },
        };
        let cmos_data_port = match port_handler.add(0x71) {
            Some(p) => p,
            None => {
                return Err(RtcInitError::FailedToConnectToDataPort);
            },
        };

        Ok(Rtc { cmos_nmi_control_port, cmos_data_port })
    }
}

} // verus!
