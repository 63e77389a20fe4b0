use os1::io::rtc::{nmi_mask, Rtc, RtcInitError};
use os1::io::{init_io_exit, init_io_ports, PortHandler, SinkPort, SinksLock};

#[test]
fn each_port_is_handed_out_once() {
    let mut handler = PortHandler::new();

    let first = handler.add(0x3f8).expect("the port is free");
    assert_eq!(first.addr(), 0x3f8);

    assert!(handler.add(0x3f8).is_none());

    let other = handler.add(0x2f8).expect("another port is free");
    assert_eq!(other.addr(), 0x2f8);
}

#[test]
fn nmi_mask_bit() {
    assert_eq!(nmi_mask(true), 0);
    assert_eq!(nmi_mask(false), 0x80);
}

#[test]
fn rtc_claims_its_two_ports() {
    let mut handler = PortHandler::new();
    let rtc = Rtc::new(&mut handler);
    assert!(rtc.is_ok());

    // Both CMOS ports are gone now.
    assert!(handler.add(0x70).is_none());
    assert!(handler.add(0x71).is_none());
}

#[test]
fn rtc_fails_when_the_control_port_is_taken() {
    let mut handler = PortHandler::new();
    handler.add(0x70).expect("the port is free");
    match Rtc::new(&mut handler) {
        Err(RtcInitError::FailedToConnectToControlPort) => (),
        _ => panic!("expected the control-port failure"),
    }
}

#[test]
fn rtc_fails_when_the_data_port_is_taken() {
    let mut handler = PortHandler::new();
    handler.add(0x71).expect("the port is free");
    match Rtc::new(&mut handler) {
        Err(RtcInitError::FailedToConnectToDataPort) => (),
        _ => panic!("expected the data-port failure"),
    }
}

#[test]
fn sinks_start_empty() {
    let mut sinks = SinksLock::new();
    let inner = sinks.borrow_mut();
    assert!(inner.serial.is_none());
    assert!(inner.vga.is_none());
}

#[test]
fn sink_port_takes_a_claimed_port() {
    let mut handler = PortHandler::new();
    let port = handler.add(0xf4).expect("the port is free");
    let mut sink = SinkPort::new();
    sink.set(port);
}

#[test]
fn io_ports_bring_up_both_sinks() {
    let mut sinks = SinksLock::new();
    let mut handler = PortHandler::new();
    init_io_ports(sinks.borrow_mut(), &mut handler);

    let inner = sinks.borrow_mut();
    assert!(inner.vga.is_some());
    let serial = inner.serial.as_ref().expect("the serial port was free");
    assert_eq!(serial.addr(), 0x3f8);

    // The serial data port is claimed now.
    assert!(handler.add(0x3f8).is_none());
}

#[test]
fn io_ports_leave_serial_out_when_taken() {
    let mut sinks = SinksLock::new();
    let mut handler = PortHandler::new();
    handler.add(0x3f8).expect("the port is free");
    init_io_ports(sinks.borrow_mut(), &mut handler);
    assert!(sinks.borrow_mut().serial.is_none());
}

#[test]
fn io_exit_claims_its_port() {
    let mut sink = SinkPort::new();
    let mut handler = PortHandler::new();
    init_io_exit(&mut sink, &mut handler);
    assert!(handler.add(0xf4).is_none());
}
