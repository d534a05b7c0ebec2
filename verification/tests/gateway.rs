use baccounts::gateway::{begin_read, begin_write, next, Next, Step};
use baccounts::Error;

fn run(start: Step, outcomes: &[bool]) -> (Vec<Step>, Next) {
    let mut taken = vec![start];
    let mut step = start;
    for &succeeded in outcomes {
        match next(step, succeeded) {
            Next::Run(then) => {
                taken.push(then);
                step = then;
            }
            ended => return (taken, ended),
        }
    }
    (taken, Next::Run(step))
}

#[test]
fn reading_takes_its_steps_in_order() {
    assert_eq!(begin_read(), Step::Locate);
    let (taken, end) = run(begin_read(), &[true, true, true]);
    assert_eq!(taken, vec![Step::Locate, Step::Decrypt, Step::Parse]);
    assert_eq!(end, Next::Done);
}

#[test]
fn reading_a_missing_file_fails_with_not_found() {
    let (taken, end) = run(begin_read(), &[false, true, true]);
    assert_eq!(taken, vec![Step::Locate]);
    assert_eq!(end, Next::Fail(Error::NotFound));
}

#[test]
fn reading_fails_with_decrypt_failed_when_tool_fails() {
    let (taken, end) = run(begin_read(), &[true, false, true]);
    assert_eq!(taken, vec![Step::Locate, Step::Decrypt]);
    assert_eq!(end, Next::Fail(Error::DecryptFailed));
}

#[test]
fn reading_fails_with_malformed_store_when_parse_fails() {
    let (taken, end) = run(begin_read(), &[true, true, false]);
    assert_eq!(taken, vec![Step::Locate, Step::Decrypt, Step::Parse]);
    assert_eq!(end, Next::Fail(Error::MalformedStore));
}

#[test]
fn writing_takes_its_steps_in_order() {
    assert_eq!(begin_write(), Step::Launch);
    let (taken, end) = run(begin_write(), &[true, true, true, true, true]);
    assert_eq!(
        taken,
        vec![Step::Launch, Step::Feed, Step::Wait, Step::Stage, Step::Replace]
    );
    assert_eq!(end, Next::Done);
}

#[test]
fn writing_never_replaces_after_a_failed_step() {
    for failing in 0..4 {
        let mut outcomes = [true; 5];
        outcomes[failing] = false;
        let (taken, end) = run(begin_write(), &outcomes);
        assert_eq!(taken.len(), failing + 1);
        assert!(!taken.contains(&Step::Replace));
        assert_eq!(end, Next::Fail(Error::EncryptFailed));
    }
}

#[test]
fn writing_fails_when_rename_fails() {
    let (taken, end) = run(begin_write(), &[true, true, true, true, false]);
    assert_eq!(taken.last(), Some(&Step::Replace));
    assert_eq!(end, Next::Fail(Error::EncryptFailed));
}

#[test]
fn each_step_has_its_own_failure() {
    assert_eq!(next(Step::Locate, false), Next::Fail(Error::NotFound));
    assert_eq!(next(Step::Decrypt, false), Next::Fail(Error::DecryptFailed));
    assert_eq!(next(Step::Parse, false), Next::Fail(Error::MalformedStore));
    assert_eq!(next(Step::Launch, false), Next::Fail(Error::EncryptFailed));
    assert_eq!(next(Step::Feed, false), Next::Fail(Error::EncryptFailed));
    assert_eq!(next(Step::Wait, false), Next::Fail(Error::EncryptFailed));
    assert_eq!(next(Step::Stage, false), Next::Fail(Error::EncryptFailed));
    assert_eq!(next(Step::Replace, false), Next::Fail(Error::EncryptFailed));
}
