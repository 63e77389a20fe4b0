//! I/O port accounting.
//!
//! A [`Port`] stands for one x86 I/O port address. The [`PortHandler`] hands
//! out each port at most once, so that two drivers can never talk to the
//! same port; it keeps the set of claimed addresses in a `hashbrown`
//! hash set behind a small trusted boundary.

pub mod rtc;
pub mod vga;

use vstd::prelude::*;

verus! {

/// One I/O port, identified by its 16-bit address.
pub struct Port {
    addr: u16,
}

impl Port {
    /// The port's address, for contracts.
    pub closed spec fn addr_spec(&self) -> u16 {
        self.addr
    }

    /// The port's address.
    pub fn addr(&self) -> (r: u16)
        ensures
            r == self.addr_spec(),
    {
        self.addr
    }
}

/// Holds a `hashbrown::HashSet<u16>` of port addresses; the set itself is
/// opaque to the verifier, and the wrappers below say what its methods do.
#[verifier::external_body]
pub struct PortSet {
    inner: hashbrown::HashSet<u16>,
}

/// The set of port addresses a [`PortSet`] holds.
pub uninterp spec fn claimed_ports(s: &PortSet) -> Set<u16>;

/// Relies on `hashbrown::HashSet::new`: the new set is empty.
#[verifier::external_body]
fn port_set_new() -> (s: PortSet)
    ensures
        claimed_ports(&s) == Set::<u16>::empty(),
{
    PortSet { inner: hashbrown::HashSet::new() }
}

/// Relies on `hashbrown::HashSet::contains`: membership in the set.
#[verifier::external_body]
fn port_set_contains(s: &PortSet, port: u16) -> (r: bool)
    ensures
        r == claimed_ports(s).contains(port),
{
    s.inner.contains(&port)
}

/// Relies on `hashbrown::HashSet::insert`: the value is added to the set,
/// and the call reports whether it was new.
#[verifier::external_body]
fn port_set_insert(s: &mut PortSet, port: u16) -> (r: bool)
    ensures
        claimed_ports(final(s)) == claimed_ports(old(s)).insert(port),
        r == !claimed_ports(old(s)).contains(port),
{
    s.inner.insert(port)
}

/// Hands out I/O ports, each address at most once.
pub struct PortHandler {
    ports: PortSet,
}

impl PortHandler {
    /// The addresses already handed out.
    pub closed spec fn claimed(&self) -> Set<u16> {
        claimed_ports(&self.ports)
    }

    /// A fresh handler with no port claimed yet.
    pub fn new() -> (r: Self)
        ensures
            r.claimed() == Set::<u16>::empty(),
    {
        PortHandler { ports: port_set_new() }
    }

    /// Claims `port`: returns it the first time it is asked for and never
    /// again afterwards.
    pub fn add(&mut self, port: u16) -> (r: Option<Port>)
        ensures
            old(self).claimed().contains(port) ==> {
                &&& r is None
                &&& final(self).claimed() == old(self).claimed()
            },
            !old(self).claimed().contains(port) ==> {
                &&& r matches Some(p) && p.addr_spec() == port
                &&& final(self).claimed() == old(self).claimed().insert(port)
            },
    {
        if port_set_contains(&self.ports, port) {
            return None;
        }

        port_set_insert(&mut self.ports, port);
        Some(Port { addr: port })
    }
}

/// The kernel's output sinks: the serial line, stood for by its claimed
/// data port, and the VGA terminal. Either may be absent when its device
/// failed to come up.
pub struct Sinks {
    /// The serial sink's port, when the serial line is up.
    pub serial: Option<Port>,
    /// The VGA terminal, when the screen is up.
    pub vga: Option<vga::TerminalWriter>,
}

/// Single-owner access to the kernel's output sinks.
pub struct SinksLock {
    data: Sinks,
}

impl SinksLock {
    /// The guarded sinks, for contracts.
    pub closed spec fn inner(&self) -> Sinks {
        self.data
    }

    /// A lock over sinks that are not up yet.
    pub fn new() -> (r: Self)
        ensures
            r.inner().serial is None,
            r.inner().vga is None,
    {
        SinksLock { data: Sinks { serial: None, vga: None } }
    }

    /// Grants exclusive access to the sinks until the borrow ends.
    pub fn borrow_mut(&mut self) -> (r: &mut Sinks)
        ensures
            *r == old(self).inner(),
            final(self).inner() == *final(r),
    {
        &mut self.data
    }
}

/// Single-owner access to the port used to report an exit code.
pub struct SinkPort {
    port: Option<Port>,
}

impl SinkPort {
    /// The held port, for contracts.
    pub closed spec fn inner(&self) -> Option<Port> {
        self.port
    }

    /// A slot with no port claimed yet.
    pub fn new() -> (r: Self)
        ensures
            r.inner() is None,
    {
        SinkPort { port: None }
    }

    /// Puts a claimed port into the slot.
    pub fn set(&mut self, port: Port)
        ensures
            final(self).inner() == Some(port),
    {
        self.port = Some(port);
    }
}

/// Brings up the kernel's output sinks: the VGA terminal is always
/// created; the serial sink claims its data port at `0x3f8` and is left
/// out when that port is already taken.
pub fn init_io_ports(sinks: &mut Sinks, port_handler: &mut PortHandler)
    ensures
        final(sinks).vga is Some,
        old(port_handler).claimed().contains(0x3f8) ==> final(sinks).serial is None
            && final(port_handler).claimed() == old(port_handler).claimed(),
        !old(port_handler).claimed().contains(0x3f8) ==> (final(sinks).serial matches Some(p)
            && p.addr_spec() == 0x3f8) && final(port_handler).claimed() == old(
            port_handler,
        ).claimed().insert(0x3f8),
{
    sinks.vga = Some(vga::TerminalWriter::new());
    sinks.serial = port_handler.add(0x3f8);
}

/// Claims the machine-exit port for the exit sink. The port must still be
/// free; the kernel cannot run without a way to report its exit code.
pub fn init_io_exit(sink: &mut SinkPort, port_handler: &mut PortHandler)
    requires
        !old(port_handler).claimed().contains(0xf4),
    ensures
        final(sink).inner() matches Some(p) && p.addr_spec() == 0xf4,
        final(port_handler).claimed() == old(port_handler).claimed().insert(0xf4),
{
    match port_handler.add(0xf4) {
        Some(port) => {
            sink.set(port);
        },
        None => (),
    }
}

} // verus!
