//! Session id generation: 30 characters drawn uniformly from the 62-character
//! alphanumeric alphabet.

use vstd::prelude::*;

verus! {

use crate::text::push_char;
use rand::Rng;

/// Number of characters in a session id.
pub const SID_LENGTH: usize = 30;

/// True of the 62 ASCII alphanumeric characters.
pub open spec fn is_sid_char(c: char) -> bool {
    ('0' <= c && c <= '9') || ('A' <= c && c <= 'Z') || ('a' <= c && c <= 'z')
}

/// A well-formed session id: exactly `SID_LENGTH` alphanumeric characters.
pub open spec fn is_sid(s: Seq<char>) -> bool {
    s.len() == SID_LENGTH && forall|i: int| 0 <= i < s.len() ==> is_sid_char(#[trigger] s[i])
}

/// Relies on rand's `Alphanumeric` distribution: every sample is one of the
/// 62 ASCII alphanumeric bytes, so the character it names is alphanumeric.
#[verifier::external_body]
fn sample_alphanumeric() -> (c: char)
    ensures
        is_sid_char(c),
{
    rand::thread_rng().sample(rand::distributions::Alphanumeric) as char
}

/// Produces a fresh session id.
pub fn generate_sid() -> (s: String)
    ensures
        is_sid(s@),
{
    let mut s = String::new();
    let mut i: usize = 0;
    while i < SID_LENGTH
        invariant
            i <= SID_LENGTH,
            s@.len() == i,
            forall|j: int| 0 <= j < s@.len() ==> is_sid_char(#[trigger] s@[j]),
        decreases SID_LENGTH - i,
    {
        let c = sample_alphanumeric();
        push_char(&mut s, c);
        i = i + 1;
    }
    s
}

} // verus!
