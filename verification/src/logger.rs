//! The kernel's log store.
//!
//! Log records accumulate in a fixed circular buffer until a service pass
//! drains them; a per-module verbosity table, kept in a `hashbrown` hash
//! map behind a small trusted boundary, decides which records are worth
//! storing. Printing the drained records is left to the serial and
//! terminal sinks.

use crate::util::circular_buffer::CircularBuffer;
use vstd::prelude::*;

verus! {

/// One log record.
pub struct Log {
    /// Source file that produced the record.
    pub file: String,
    /// Line in that file.
    pub line: u32,
    /// How important the record is.
    pub verbosity: Verbosity,
    /// The rendered message.
    pub message: String,
}

/// How important a log record is, least severe first.
#[derive(Clone, Copy, Debug, PartialEq, Eq, Structural)]
pub enum Verbosity {
    Debug,
    Info,
    Warning,
    Error,
}

impl Verbosity {
    /// The numeric rank of the verbosity, `Debug` lowest.
    pub open spec fn spec_code(self) -> u8 {
        match self {
            Verbosity::Debug => 0,
            Verbosity::Info => 1,
            Verbosity::Warning => 2,
            Verbosity::Error => 3,
        }
    }

    /// The numeric rank of the verbosity.
    pub fn code(self) -> (r: u8)
        ensures
            r == self.spec_code(),
    {
        match self {
            Verbosity::Debug => 0,
            Verbosity::Info => 1,
            Verbosity::Warning => 2,
            Verbosity::Error => 3,
        }
    }

    /// The verbosity of a stored rank; anything unexpected reads as
    /// `Info`.
    pub fn from_code(code: u8) -> (r: Verbosity)
        ensures
            r == spec_verbosity_from_code(code),
    {
        match code {
            0 => Verbosity::Debug,
            2 => Verbosity::Warning,
            3 => Verbosity::Error,
            _ => Verbosity::Info,
        }
    }
}

/// The verbosity a stored rank decodes to.
pub open spec fn spec_verbosity_from_code(code: u8) -> Verbosity {
    if code == 0 {
        Verbosity::Debug
    } else if code == 2 {
        Verbosity::Warning
    } else if code == 3 {
        Verbosity::Error
    } else {
        Verbosity::Info
    }
}

/// Holds a `hashbrown::HashMap` from module path to verbosity rank; the
/// map itself is opaque to the verifier, and the wrappers below say what
/// its methods do.
#[verifier::external_body]
pub struct VerbosityTable {
    inner: hashbrown::HashMap<String, u8>,
}

/// The entries a [`VerbosityTable`] holds, keyed by module path.
pub uninterp spec fn verbosity_entries(t: &VerbosityTable) -> Map<Seq<char>, u8>;

/// A verbosity table with nothing in it.
pub open spec fn no_verbosity_entries() -> Map<Seq<char>, u8> {
    Map::empty()
}

/// Relies on `hashbrown::HashMap::new`: the new map is empty.
#[verifier::external_body]
fn table_new() -> (r: VerbosityTable)
    ensures
        verbosity_entries(&r) == no_verbosity_entries(),
{
    VerbosityTable { inner: hashbrown::HashMap::new() }
}

/// Relies on `hashbrown::HashMap::insert`: afterwards the key maps to the
/// value and every other key is as before.
#[verifier::external_body]
fn table_insert(t: &mut VerbosityTable, module: String, code: u8)
    ensures
        verbosity_entries(final(t)) == verbosity_entries(old(t)).insert(module@, code),
{
    t.inner.insert(module, code);
}

/// Relies on `hashbrown::HashMap::get`: the value stored for the key, if
/// any.
#[verifier::external_body]
fn table_get(t: &VerbosityTable, module: &str) -> (r: Option<u8>)
    ensures
        r == if verbosity_entries(t).dom().contains(module@) {
            Some(verbosity_entries(t)[module@])
        } else {
            None::<u8>
        },
{
    t.inner.get(module).copied()
}

impl VerbosityTable {
    /// An empty table.
    pub fn new() -> (t: VerbosityTable)
        ensures
            verbosity_entries(&t) == no_verbosity_entries(),
    {
        table_new()
    }

    /// Records the wanted verbosity for one module.
    pub fn set(&mut self, module: String, verbosity: Verbosity)
        ensures
            verbosity_entries(final(self)) == verbosity_entries(old(self)).insert(
                module@,
                verbosity.spec_code(),
            ),
    {
        table_insert(self, module, verbosity.code())
    }
}

/// Capacity of the log buffer.
pub const LOG_CAPACITY: usize = 1024;

/// The log store: the per-module verbosity table, once configured, and
/// the ring of pending records.
pub struct Logger {
    verbose: Option<VerbosityTable>,
    logs: CircularBuffer<Log, LOG_CAPACITY>,
}

impl Logger {
    /// The configured verbosity entries, if the logger has been set up.
    pub closed spec fn verbosity_table(&self) -> Option<Map<Seq<char>, u8>> {
        match self.verbose {
            Some(t) => Some(verbosity_entries(&t)),
            None => None,
        }
    }

    /// The pending records, oldest first.
    pub closed spec fn pending(&self) -> Seq<Log> {
        self.logs@
    }

    /// Whether the ring of records has ever been full; from then on no
    /// record can be stored.
    pub closed spec fn pending_saturated(&self) -> bool {
        self.logs.saturated()
    }

    /// Internal soundness of the record ring.
    pub closed spec fn wf(&self) -> bool {
        self.logs.wf()
    }

    /// A logger with no verbosity table and no pending record.
    pub fn new() -> (r: Logger)
        ensures
            r.wf(),
            r.verbosity_table() is None,
            r.pending() == Seq::<Log>::empty(),
            !r.pending_saturated(),
    {
        Logger { verbose: None, logs: CircularBuffer::new() }
    }

    /// Adopts the verbosity table. Must happen before any verbosity is
    /// asked for.
    pub fn init(&mut self, verbose: VerbosityTable)
        requires
            old(self).wf(),
        ensures
            final(self).wf(),
            final(self).verbosity_table() == Some(verbosity_entries(&verbose)),
            final(self).pending() == old(self).pending(),
            final(self).pending_saturated() == old(self).pending_saturated(),
    {
        self.verbose = Some(verbose);
    }

    /// The verbosity worth logging for `module`: the configured entry, or
    /// `Info` for a module the table does not name.
    pub fn get_verbosity(&self, module: &str) -> (r: Verbosity)
        requires
            self.verbosity_table() is Some,
        ensures
            ({
                let entries = self.verbosity_table().unwrap();
                r == if entries.dom().contains(module@) {
                    spec_verbosity_from_code(entries[module@])
                } else {
                    Verbosity::Info
                }
            }),
    {
        match &self.verbose {
            Some(t) => match table_get(t, module) {
                Some(code) => Verbosity::from_code(code),
                None => Verbosity::Info,
            },
            None => Verbosity::Info,
        }
    }

    /// Whether a record has ever been dropped for want of room.
    pub fn is_saturated(&self) -> (r: bool)
        requires
            self.wf(),
        ensures
            r == self.pending_saturated(),
    {
        self.logs.is_saturated()
    }

    /// Stores one record at the end of the ring. The ring must never have
    /// been full: a logger that has dropped a record is of no further
    /// use, and the kernel treats that as fatal.
    pub fn push_log(&mut self, log: Log)
        requires
            old(self).wf(),
            !old(self).pending_saturated(),
        ensures
            final(self).wf(),
            final(self).pending() == old(self).pending().push(log),
            final(self).verbosity_table() == old(self).verbosity_table(),
            final(self).pending_saturated() <==> old(self).pending().len() == LOG_CAPACITY - 1,
    {
        match self.logs.push_back(log) {
            Ok(_) => (),
            Err(_) => (),
        }
    }

    /// Drains the pending records, oldest first, handing them to the
    /// caller to print.
    pub fn service(&mut self) -> (r: Vec<Log>)
        requires
            old(self).wf(),
        ensures
            final(self).wf(),
            r@ == old(self).pending(),
            final(self).pending() == Seq::<Log>::empty(),
            final(self).verbosity_table() == old(self).verbosity_table(),
            final(self).pending_saturated() == old(self).pending_saturated(),
    {
        let mut drained: Vec<Log> = Vec::new();
        loop
            invariant
                self.wf(),
                self.verbosity_table() == old(self).verbosity_table(),
                self.pending_saturated() == old(self).pending_saturated(),
                drained@ + self.pending() == old(self).pending(),
            ensures
                self.wf(),
                self.verbosity_table() == old(self).verbosity_table(),
                self.pending_saturated() == old(self).pending_saturated(),
                drained@ == old(self).pending(),
                self.pending().len() == 0,
            decreases self.pending().len(),
        {
            match self.logs.pop_front() {
                Some(v) => {
                    drained.push(v);
                    proof {
                        assert(drained@ + self.pending() =~= old(self).pending());
                    }
                },
                None => {
                    proof {
                        assert(drained@ + self.pending() =~= drained@);
                    }
                    break ;
                },
            }
        }
        proof {
            assert(self.pending() =~= Seq::<Log>::empty());
        }
        drained
    }
}

} // verus!
