//! Method-name patterns shared by the rules about getters and
//! conversions. The Rust API Guidelines give `as_`, `to_` and `into_`
//! distinct meanings as conversion prefixes.
use vstd::prelude::*;
use crate::text::str_starts_with;

verus! {

/// The conversion prefixes.
pub const CONVERSION_PREFIXES: [&'static str; 3] = ["as_", "into_", "to_"];

/// Whether `name` starts with a conversion prefix.
pub fn is_conversion_name(name: &str) -> (r: bool)
    ensures
        r == exists|k: int| 0 <= k < 3 && (#[trigger] CONVERSION_PREFIXES@[k])@.is_prefix_of(name@),
{
    let mut k: usize = 0;
    while k < 3
        invariant
            k <= 3,
            forall|j: int| 0 <= j < k ==> !(#[trigger] CONVERSION_PREFIXES@[j])@.is_prefix_of(name@),
        decreases 3 - k,
    {
        if str_starts_with(name, CONVERSION_PREFIXES[k]) {
            return true;
        }
        k = k + 1;
    }
    false
}

} // verus!
