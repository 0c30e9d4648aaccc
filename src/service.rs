//! The decisions of the collaborators around the store: how a recognition is
//! answered, how an ingested song is confirmed, and when to retry a connection.
use vstd::prelude::*;
use vstd::string::StringExecFns;

use crate::store::StoreError;

verus! {

/// The echo service, which answers a message with itself behind a prefix.
#[derive(Debug, Default)]
pub struct EchoService {}

impl EchoService {
    /// The reply to `message`: `"Echo: "` followed by the message.
    pub fn echo(&self, message: &str) -> (r: String)
        ensures
            r@ == "Echo: "@ + message@,
    {
        String::from_str("Echo: ").concat(message)
    }
}

/// What a recognition request is answered with.
#[derive(Debug, Clone, PartialEq, Eq)]
pub enum Recognition {
    /// The clip was recognized as the named song.
    Found(String),
    /// No song holds enough aligned votes: a distinct not-found answer.
    NotFound,
    /// The store failed; the request is aborted with the cause.
    Aborted(String),
}

/// `m` describes the failure `e`: the cause it carries, or a fixed sentence.
pub open spec fn describes(e: StoreError, m: Seq<char>) -> bool {
    match e {
        StoreError::ConnectionFailed(c) => m == c@,
        StoreError::TransactionAborted(c) => m == c@,
        StoreError::Unsupported => m == "deleting songs is not supported"@,
        StoreError::QueryTooLarge => m == "the query casts too many votes"@,
    }
}

impl StoreError {
    /// A description of the failure, for the caller's logs and answers.
    pub fn describe(&self) -> (r: String)
        ensures
            describes(*self, r@),
    {
        match self {
            StoreError::ConnectionFailed(m) => m.clone(),
            StoreError::TransactionAborted(m) => m.clone(),
            StoreError::Unsupported => String::from_str("deleting songs is not supported"),
            StoreError::QueryTooLarge => String::from_str("the query casts too many votes"),
        }
    }
}

/// Maps the result of a `find` to the answer of a recognition request: a name is
/// found, no match is not found, and a failure aborts with its description.
pub fn recognition_outcome(found: Result<Option<String>, StoreError>) -> (r: Recognition)
    ensures
        found matches Ok(Some(name)) ==> (r matches Recognition::Found(n) && n@ == name@),
        found matches Ok(None) ==> r is NotFound,
        found matches Err(e) ==> (r matches Recognition::Aborted(m) && describes(e, m@)),
{
    match found {
        Ok(Some(name)) => Recognition::Found(name),
        Ok(None) => Recognition::NotFound,
        Err(e) => Recognition::Aborted(e.describe()),
    }
}

/// What the ingestion consumer does once a delivered song was offered to `index`.
#[derive(Debug, Clone, PartialEq, Eq)]
pub enum IngestAction {
    /// Publish the song's name on the confirmation queue.
    Confirm(String),
    /// Log the failure and go on with the next message.
    Report(String),
}

/// Decides the ingestion step after indexing `song`: confirm it when it was stored,
/// report the failure otherwise.
pub fn after_index(song: &str, indexed: &Result<usize, StoreError>) -> (r: IngestAction)
    ensures
        indexed is Ok ==> (r matches IngestAction::Confirm(n) && n@ == song@),
        indexed matches Err(e) ==> (r matches IngestAction::Report(m) && describes(*e, m@)),
{
    match indexed {
        Ok(_) => IngestAction::Confirm(song.to_owned()),
        Err(e) => IngestAction::Report(e.describe()),
    }
}

/// A bounded retry policy with a delay that grows with each failed attempt.
#[derive(Debug, Clone, Copy, PartialEq, Eq)]
pub struct RetryPolicy {
    /// How many attempts are made in all.
    pub max_attempts: u32,
    /// The delay after the first failure, in milliseconds.
    pub base_delay_ms: u64,
}

impl RetryPolicy {
    /// The delay to wait after `failed` attempts have failed, or `None` when no
    /// attempt is left: `base_delay_ms` times `failed`, saturating.
    pub fn delay_after(&self, failed: u32) -> (r: Option<u64>)
        ensures
            failed == 0 || failed >= self.max_attempts ==> r.is_none(),
            0 < failed < self.max_attempts ==> r == Some(
                if self.base_delay_ms * failed <= u64::MAX {
                    (self.base_delay_ms * failed) as u64
                } else {
                    u64::MAX
                },
            ),
    {
        if failed == 0 || failed >= self.max_attempts {
            None
        } else {
            match self.base_delay_ms.checked_mul(failed as u64) {
                Some(d) => Some(d),
                None => Some(u64::MAX),
            }
        }
    }
}

} // verus!
