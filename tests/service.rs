use audio_fingerprint::service::{after_index, recognition_outcome, EchoService, IngestAction, Recognition, RetryPolicy};
use audio_fingerprint::store::StoreError;

#[test]
fn found_name_is_answered() {
    let r = recognition_outcome(Ok(Some("Song".to_string())));
    assert_eq!(r, Recognition::Found("Song".to_string()));
}

#[test]
fn no_match_is_not_found() {
    assert_eq!(recognition_outcome(Ok(None)), Recognition::NotFound);
}

#[test]
fn failure_aborts_with_cause() {
    let r = recognition_outcome(Err(StoreError::ConnectionFailed("refused".to_string())));
    assert_eq!(r, Recognition::Aborted("refused".to_string()));
    let r = recognition_outcome(Err(StoreError::Unsupported));
    assert_eq!(r, Recognition::Aborted("deleting songs is not supported".to_string()));
}

#[test]
fn describe_each_error() {
    assert_eq!(StoreError::TransactionAborted("full".to_string()).describe(), "full");
    assert_eq!(StoreError::QueryTooLarge.describe(), "the query casts too many votes");
}

#[test]
fn indexed_song_is_confirmed() {
    assert_eq!(after_index("Song", &Ok(3)), IngestAction::Confirm("Song".to_string()));
}

#[test]
fn failed_index_is_reported() {
    let r = after_index("Song", &Err(StoreError::TransactionAborted("boom".to_string())));
    assert_eq!(r, IngestAction::Report("boom".to_string()));
}

#[test]
fn retry_delay_grows_and_stops() {
    let p = RetryPolicy { max_attempts: 4, base_delay_ms: 2000 };
    assert_eq!(p.delay_after(0), None);
    assert_eq!(p.delay_after(1), Some(2000));
    assert_eq!(p.delay_after(3), Some(6000));
    assert_eq!(p.delay_after(4), None);
    let big = RetryPolicy { max_attempts: 10, base_delay_ms: u64::MAX / 2 };
    assert_eq!(big.delay_after(3), Some(u64::MAX));
}

#[test]
fn echo_prefixes_message() {
    assert_eq!(EchoService::default().echo("hi"), "Echo: hi");
    assert_eq!(EchoService::default().echo(""), "Echo: ");
}
