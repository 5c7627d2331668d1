use itertools::Itertools;
use vstd::prelude::*;

verus! {

/// The pairs `(i, i + 1)` for `0 <= i < n - 1`, in order, and nothing when
/// `n < 2`.
pub open spec fn consecutive_pairs_spec(n: nat) -> Seq<(usize, usize)> {
    Seq::new(
        if n == 0 { 0 } else { (n - 1) as nat },
        |i: int| (i as usize, (i + 1) as usize),
    )
}

/// Calls `Itertools::tuple_windows` on the range `0..n`, with pairs as the
/// window shape, and collects the windows.
///
/// What is trusted: that the pair windows of `0..n` are exactly
/// `(0, 1), (1, 2), ..., (n - 2, n - 1)`, as the crate documents
/// (`(1..5).tuple_windows()` gives `(1, 2), (2, 3), (3, 4)`) and as its
/// `TupleWindows::next` does (one window per element after the first).
#[verifier::external_body]
pub(crate) fn consecutive_pairs(n: usize) -> (pairs: Vec<(usize, usize)>)
    ensures
        pairs@ == consecutive_pairs_spec(n as nat),
{
    (0..n).tuple_windows::<(usize, usize)>().collect()
}

} // verus!
