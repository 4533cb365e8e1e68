//! The types that come from std and from the `regex` crate, and the calls
//! into them; the contracts here are taken as given, not proved.
use vstd::prelude::*;

verus! {

/// `std::path::PathBuf`: carried through as an opaque value.
#[verifier::external_type_specification]
#[verifier::external_body]
pub struct ExPathBuf(std::path::PathBuf);

/// `std::io::Error`: the error type of `std::io::Read::read`.
#[verifier::external_type_specification]
#[verifier::external_body]
pub struct ExIoError(std::io::Error);

/// `std::sync::mpsc::Sender`: the sending half of a channel.
#[verifier::external_type_specification]
#[verifier::external_body]
#[verifier::reject_recursive_types(T)]
pub struct ExSender<T>(std::sync::mpsc::Sender<T>);

/// `std::sync::mpsc::Receiver`: the receiving half of a channel.
#[verifier::external_type_specification]
#[verifier::external_body]
#[verifier::reject_recursive_types(T)]
pub struct ExReceiver<T>(std::sync::mpsc::Receiver<T>);

/// Sends `value` with `std::sync::mpsc::Sender::send`. The result is `true`
/// when the value was handed to the channel and `false` when the receiving
/// half is gone; which of the two happens depends on another thread, so
/// nothing is stated of it.
#[verifier::external_body]
pub(crate) fn channel_send<T>(tx: &std::sync::mpsc::Sender<T>, value: T) -> (r: bool) {
    tx.send(value).is_ok()
}

/// Waits for a value with `std::sync::mpsc::Receiver::recv`. `None` when
/// every sending half is gone. What arrives is decided by another thread, so
/// nothing is stated of it.
#[verifier::external_body]
pub(crate) fn channel_recv<T>(rx: &std::sync::mpsc::Receiver<T>) -> (r: Option<T>) {
    rx.recv().ok()
}

/// What `regex::Regex::new(pattern)` followed by `Regex::is_match(haystack)`
/// gives: `None` when the pattern does not compile, otherwise whether the
/// regular expression matches anywhere in the haystack. It depends on the two
/// strings alone.
pub uninterp spec fn regex_match_spec(pattern: Seq<char>, haystack: Seq<char>) -> Option<bool>;

/// Whether `part` occurs in `text` as a run of consecutive characters.
pub open spec fn contains_run(text: Seq<char>, part: Seq<char>) -> bool {
    exists|i: int|
        0 <= i && i + part.len() <= text.len() && #[trigger] text.subrange(i, i + part.len())
            == part
}

/// Compiles `pattern` with `regex::Regex::new` and, when that succeeds, asks
/// `regex::Regex::is_match` whether it matches anywhere in `haystack`. In
/// general the contract only names the result (`regex_match_spec`); what the
/// regular expression engine computes is not restated. For the pattern
/// `.*Error.*` it states what the `regex` documentation gives: the pattern
/// is valid, `.*` may match nothing (and `.` any character but a newline),
/// and `is_match` looks for a match anywhere, so it matches exactly when the
/// haystack contains `Error`.
#[verifier::external_body]
pub(crate) fn regex_is_match(pattern: &str, haystack: &str) -> (r: Option<bool>)
    ensures
        r == regex_match_spec(pattern@, haystack@),
        pattern@ == ".*Error.*"@ ==> r == Some(contains_run(haystack@, "Error"@)),
{
    match regex::Regex::new(pattern) {
        Ok(re) => Some(re.is_match(haystack)),
        Err(_) => None,
    }
}

} // verus!
