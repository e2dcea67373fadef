//! Trusted boundary to the system: the clock and the random generator, plus
//! the one string-building primitive of std that the node-id generator needs.
use rand::RngExt;
use vstd::prelude::*;

verus! {

/// True of the ASCII characters `a`-`z`, `A`-`Z` and `0`-`9`.
pub open spec fn is_alphanumeric_char(c: char) -> bool {
    ('a' <= c && c <= 'z') || ('A' <= c && c <= 'Z') || ('0' <= c && c <= '9')
}

/// Relies on std's SystemTime: returns the seconds of the system clock since
/// the Unix epoch, or zero if the clock reads earlier than the epoch. The
/// result depends on the wall clock, so nothing is promised of it.
#[verifier::external_body]
pub(crate) fn unix_timestamp_now() -> u64 {
    match std::time::SystemTime::now().duration_since(std::time::UNIX_EPOCH) {
        Ok(d) => d.as_secs(),
        Err(_) => 0,
    }
}

/// Relies on rand's Alphanumeric distribution: every sampled byte is one of
/// the ASCII bytes `a`-`z`, `A`-`Z` or `0`-`9`.
#[verifier::external_body]
fn sample_alphanumeric_byte() -> (r: u8)
    ensures
        is_alphanumeric_char(r as char),
{
    rand::rng().sample(rand::distr::Alphanumeric)
}

/// Relies on std's String::push: appends exactly the given character.
#[verifier::external_body]
fn push_char(s: &mut String, c: char)
    ensures
        final(s)@ == old(s)@.push(c),
{
    s.push(c);
}

/// A freshly drawn alphanumeric identifier of the requested length, for
/// nodes that start without a configured node id.
pub fn random_alphanumeric_id(len: usize) -> (r: String)
    ensures
        r@.len() == len,
        forall|i: int| 0 <= i < r@.len() ==> is_alphanumeric_char(#[trigger] r@[i]),
{
    let mut s = String::new();
    let mut i: usize = 0;
    while i < len
        invariant
            i <= len,
            s@.len() == i,
            forall|k: int| 0 <= k < s@.len() ==> is_alphanumeric_char(#[trigger] s@[k]),
        decreases len - i,
    {
        let b = sample_alphanumeric_byte();
        push_char(&mut s, b as char);
        i = i + 1;
    }
    s
}

} // verus!
