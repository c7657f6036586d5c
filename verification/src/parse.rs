//! What a reader can find in the bytes received so far.

use vstd::prelude::*;

verus! {

/// What stands at a position of a byte sequence.
pub enum Parse<A, E> {
    /// The value is cut off; at least this many bytes are missing.
    Need(nat),
    /// No continuation of the bytes makes a value.
    Fail(E),
    /// The value, and the position just behind it.
    Done(A, nat),
}

/// How what is found in `have` bytes relates to what is found once `more` bytes
/// have been added to them. What was found stays. A gap shrinks by what is
/// added, and filling it exactly reads no byte behind the value.
pub open spec fn continues<A, E>(
    found: Parse<A, E>,
    then: Parse<A, E>,
    have: nat,
    more: nat,
) -> bool {
    match found {
        Parse::Need(n) => {
            &&& n > 0
            &&& more < n ==> then == Parse::<A, E>::Need((n - more) as nat)
            &&& more == n ==> (then matches Parse::Done(_, end) ==> end == have + more)
        },
        _ => then == found,
    }
}

/// What is found where the bytes stand `d` places further on.
pub open spec fn shifted<A, E>(found: Parse<A, E>, d: nat) -> Parse<A, E> {
    match found {
        Parse::Done(v, end) => Parse::Done(v, end + d),
        other => other,
    }
}

} // verus!
