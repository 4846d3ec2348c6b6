//! Checks shared by the records.

use crate::number::{in_range, Number};
use vstd::prelude::*;

verus! {

/// Whether each channel of a colour lies in `[0, 1]`, by the value that was
/// written and not by the nearest 32-bit float.
pub open spec fn rgb_in_range(rgb: (Seq<char>, Seq<char>, Seq<char>)) -> bool {
    in_range(rgb.0, 1) && in_range(rgb.1, 1) && in_range(rgb.2, 1)
}

/// What `check_rgb` reports for a colour out of range.
pub open spec fn rgb_reason() -> Seq<char> {
    "invalid rgb on mtl file"@
}

/// Tests whether each channel of a colour lies in `[0, 1]`.
pub fn is_rgb(rgb: &(Number, Number, Number)) -> (r: bool)
    ensures
        r == rgb_in_range(rgb@),
{
    rgb.0.in_range(1) && rgb.1.in_range(1) && rgb.2.in_range(1)
}

/// Accepts a colour whose channels all lie in `[0, 1]`, and rejects any
/// other with a message.
pub fn check_rgb(rgb: &(Number, Number, Number)) -> (r: Result<bool, String>)
    ensures
        rgb_in_range(rgb@) ==> r == Ok::<bool, String>(true),
        !rgb_in_range(rgb@) ==> (r matches Err(e) && e@ == rgb_reason()),
{
    if is_rgb(rgb) {
        Ok(true)
    } else {
        Err("invalid rgb on mtl file".to_owned())
    }
}

} // verus!
