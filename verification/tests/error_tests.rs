use taskcache::error::{Error, ErrorKind};

#[test]
fn descriptions_are_fixed_per_kind() {
    assert_eq!(
        Error::new(ErrorKind::ParserError).description(),
        "Failed to create a Task from JSON"
    );
    assert_eq!(
        Error::new(ErrorKind::ReaderError).description(),
        "Failed to read tasks from a Reader"
    );
    assert_eq!(
        Error::new(ErrorKind::TaskCmdError).description(),
        "There was a problem while calling the external 'task' binary"
    );
    assert_eq!(
        Error::new(ErrorKind::SerializeError).description(),
        "A Task could not be converted to JSON"
    );
    assert_eq!(
        Error::new(ErrorKind::CacheMissError).description(),
        "A not cached Task was marked as dirty. This is a bug in the task cache."
    );
    assert_eq!(
        Error::new(ErrorKind::DirtyCacheError).description(),
        "Tried to discard unsaved changes in TaskCache."
    );
}

#[test]
fn bare_error_has_no_cause() {
    let e = Error::new(ErrorKind::TaskCmdError);
    assert_eq!(e.kind(), ErrorKind::TaskCmdError);
    assert!(e.cause().is_none());
}

#[test]
fn chained_error_keeps_kind_and_cause() {
    let e = Error::chained(
        ErrorKind::TaskCmdError,
        String::from("spawning the process failed"),
    );
    assert_eq!(e.kind(), ErrorKind::TaskCmdError);
    assert_eq!(e.cause().unwrap(), "spawning the process failed");
    assert_eq!(
        e.description(),
        "There was a problem while calling the external 'task' binary"
    );
}
