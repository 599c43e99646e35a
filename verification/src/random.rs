//! Random numbers.

use rand::RngExt;
use vstd::prelude::*;

verus! {

/// Calls `rand::RngExt::random_range` on the thread's generator: a number between `low` and
/// `high`, both of them possible. Which one comes is left to chance.
#[verifier::external_body]
pub(crate) fn random_between(low: u16, high: u16) -> (x: u16)
    requires
        low <= high,
    ensures
        low <= x <= high,
{
    rand::rng().random_range(low..=high)
}

/// Whether a text is made of `n` lower-case ASCII letters.
pub open spec fn is_lower_word(s: Seq<char>, n: nat) -> bool {
    s.len() == n && forall|i: int| 0 <= i < s.len() ==> 'a' <= #[trigger] s[i] <= 'z'
}

/// A random word of `n` lower-case ASCII letters.
pub fn random_word(n: usize) -> (word: String)
    ensures
        is_lower_word(word@, n as nat),
{
    let mut word = String::new();
    let mut i: usize = 0;
    while i < n
        invariant
            i <= n,
            is_lower_word(word@, i as nat),
        decreases n - i,
    {
        let c: u16 = random_between(97, 122);
        word.push(c as u8 as char);
        i += 1;
    }
    word
}

/// A random 16-bit number.
pub fn random_u16() -> (x: u16) {
    random_between(0, u16::MAX)
}

} // verus!
