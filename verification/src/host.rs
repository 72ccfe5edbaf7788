//! The interpreter's host calls: random choices, regular-expression search,
//! the standard streams, and the clock. Each stands behind one trusted
//! wrapper; what depends on chance, the terminal or the clock promises only
//! what holds of every outcome.
use crate::value::Value;
use rustc_apfloat::Float;
use vstd::prelude::*;

verus! {

/// Relies on rand's `random_range` over `0..len`: a uniformly drawn index
/// that is always in range. Its source panics on an empty range, so a
/// positive length is required.
#[verifier::external_body]
pub fn pick_index(len: usize) -> (r: usize)
    requires
        len > 0,
    ensures
        r < len,
{
    rand::random_range(0..len)
}

/// Relies on rand's `SliceRandom::shuffle`: a permutation of the same
/// elements, so the sequence keeps its length and its multiset of models.
#[verifier::external_body]
pub fn shuffle_values(v: &mut Vec<Value>)
    ensures
        final(v)@.len() == old(v)@.len(),
        crate::value::models(final(v)@).to_multiset() == crate::value::models(
            old(v)@,
        ).to_multiset(),
{
    rand::seq::SliceRandom::shuffle(v.as_mut_slice(), &mut rand::rng())
}

pub uninterp spec fn regex_ok(pattern: Seq<char>) -> bool;

pub uninterp spec fn regex_found(pattern: Seq<char>, text: Seq<char>) -> Seq<Seq<char>>;

/// Relies on regex's `Regex::new` and `Regex::captures_iter`: whether the
/// pattern compiles, and the whole-match text of each non-overlapping match
/// in order, both depend on the pattern and the text alone.
#[verifier::external_body]
pub fn regex_find(pattern: &str, text: &str) -> (r: Option<Vec<String>>)
    ensures
        r is Some <==> regex_ok(pattern@),
        r matches Some(v) ==> crate::strings::views_of(v@) == regex_found(pattern@, text@),
{
    match regex::Regex::new(pattern) {
        Ok(re) => Some(re.captures_iter(text).map(|c| c[0].to_string()).collect()),
        Err(_) => None,
    }
}

/// Relies on `std::io::Stdout`: writes the text to standard output and
/// flushes it. Nothing is promised of the terminal.
#[verifier::external_body]
pub fn emit(s: &str) {
    let mut out = std::io::stdout();
    let _ = std::io::Write::write_all(&mut out, s.as_bytes());
    let _ = std::io::Write::flush(&mut out);
}

/// Relies on `std::io::Stdin::read_line`: one line from standard input, with
/// surrounding whitespace trimmed, or an empty string when the stream ends.
/// Nothing is promised of what the user types.
#[verifier::external_body]
pub fn read_input_line() -> (r: String) {
    let mut line = String::new();
    let _ = std::io::stdin().read_line(&mut line);
    line.trim().to_string()
}

/// Relies on `std::time::SystemTime::now`: the bit pattern of the seconds
/// since the epoch as a double, carried at millisecond precision. Nothing
/// is promised of the clock.
#[verifier::external_body]
pub fn now_seconds_bits() -> (r: u64) {
    match std::time::SystemTime::now().duration_since(std::time::UNIX_EPOCH) {
        Ok(d) => {
            let s = format!("{}.{:03}", d.as_secs(), d.subsec_millis());
            match s.parse::<rustc_apfloat::ieee::Double>() {
                Ok(x) => x.to_bits() as u64,
                Err(_) => 0,
            }
        },
        Err(_) => 0,
    }
}

} // verus!
