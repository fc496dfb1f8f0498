use vstd::prelude::*;

verus! {

/// Relies on std::time::SystemTime::now: reads the wall clock and reduces it
/// to whole seconds since the Unix epoch (zero if the clock reads earlier
/// than the epoch). Nothing is promised of the value: the clock may move
/// arbitrarily between calls.
#[verifier::external_body]
pub(crate) fn now_secs() -> u64 {
    std::time::SystemTime::now()
        .duration_since(std::time::UNIX_EPOCH)
        .unwrap_or_default()
        .as_secs()
}

} // verus!
