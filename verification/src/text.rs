//! Text helpers shared by the engine scan and the target derivation.
use vstd::prelude::*;

verus! {

/// The lowercasing of a sequence of characters, as `str::to_lowercase`
/// computes it. It depends on the characters alone, so it is given a name
/// here rather than a definition.
pub uninterp spec fn lower_of(s: Seq<char>) -> Seq<char>;

/// Relies on str::to_lowercase: the Unicode lowercasing of the input, a
/// function of the input characters alone.
#[verifier::external_body]
pub(crate) fn lowercase(s: &str) -> (r: String)
    ensures
        r@ == lower_of(s@),
{
    s.to_lowercase()
}

} // verus!
