use veneer::io::{write_all_step, WriteStep};
use veneer::Error;

#[test]
fn write_step_advances_by_what_was_written() {
    assert_eq!(
        write_all_step(0, 10, Ok(4)),
        WriteStep::Continue { offset: 4 }
    );
    assert_eq!(
        write_all_step(4, 10, Ok(2)),
        WriteStep::Continue { offset: 6 }
    );
    assert_eq!(write_all_step(6, 10, Ok(4)), WriteStep::Done);
    // A write reporting more than what remains still just finishes.
    assert_eq!(write_all_step(6, 10, Ok(100)), WriteStep::Done);
    // Nothing left to write.
    assert_eq!(write_all_step(10, 10, Ok(0)), WriteStep::Done);
}

#[test]
fn write_step_zero_progress_is_an_error() {
    assert_eq!(
        write_all_step(3, 10, Ok(0)),
        WriteStep::Fail { error: Error(9) }
    );
}

#[test]
fn write_step_retries_would_block_and_fails_otherwise() {
    assert_eq!(
        write_all_step(3, 10, Err(Error(11))),
        WriteStep::Continue { offset: 3 }
    );
    assert_eq!(
        write_all_step(3, 10, Err(Error(5))),
        WriteStep::Fail { error: Error(5) }
    );
}
