use os1::logger::{Log, Logger, Verbosity, VerbosityTable};

fn record(line: u32, message: &str) -> Log {
    Log {
        file: String::from("kernel.rs"),
        line,
        verbosity: Verbosity::Info,
        message: String::from(message),
    }
}

#[test]
fn verbosity_lookup_uses_the_table() {
    let mut table = VerbosityTable::new();
    table.set(String::from("kernel::mm"), Verbosity::Debug);
    table.set(String::from("kernel::io"), Verbosity::Error);

    let mut logger = Logger::new();
    logger.init(table);

    assert_eq!(logger.get_verbosity("kernel::mm"), Verbosity::Debug);
    assert_eq!(logger.get_verbosity("kernel::io"), Verbosity::Error);
    // A module the table does not name defaults to Info.
    assert_eq!(logger.get_verbosity("kernel::task"), Verbosity::Info);
}

#[test]
fn later_entries_replace_earlier_ones() {
    let mut table = VerbosityTable::new();
    table.set(String::from("kernel"), Verbosity::Debug);
    table.set(String::from("kernel"), Verbosity::Warning);

    let mut logger = Logger::new();
    logger.init(table);
    assert_eq!(logger.get_verbosity("kernel"), Verbosity::Warning);
}

#[test]
fn service_drains_in_order() {
    let mut logger = Logger::new();
    assert!(!logger.is_saturated());

    logger.push_log(record(1, "first"));
    logger.push_log(record(2, "second"));
    logger.push_log(record(3, "third"));

    let drained = logger.service();
    assert_eq!(drained.len(), 3);
    assert_eq!(drained[0].message, "first");
    assert_eq!(drained[1].message, "second");
    assert_eq!(drained[2].message, "third");
    assert_eq!(drained[0].line, 1);
    assert_eq!(drained[2].line, 3);

    let empty = logger.service();
    assert!(empty.is_empty());
}

#[test]
fn verbosity_codes_round_trip() {
    for v in [Verbosity::Debug, Verbosity::Info, Verbosity::Warning, Verbosity::Error] {
        assert_eq!(Verbosity::from_code(v.code()), v);
    }
    // An unexpected rank reads as Info.
    assert_eq!(Verbosity::from_code(200), Verbosity::Info);
}
