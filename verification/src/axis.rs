//! Axis codes: the numeric identifiers of a device's absolute axes, resolved
//! from their canonical textual names ("ABS_X", "ABS_RY", ...).
//!
//! An axis code is carried as the bare `u16` the input protocol assigns to
//! the axis. The name table itself belongs to the device crate; this module
//! only gives its lookup a name the rest of the library can state contracts
//! over.

use vstd::prelude::*;

verus! {

/// The axis code a canonical axis name resolves to, or `None` when the name
/// matches no known axis. This names the lookup that `evdev`'s `FromStr` for
/// `AbsoluteAxisCode` performs over its fixed name table; the result depends
/// on the name alone.
pub uninterp spec fn axis_code_of(name: Seq<char>) -> Option<u16>;

/// Relies on `evdev`'s `FromStr` for `AbsoluteAxisCode`: the name is looked
/// up in a fixed table of canonical axis names, so the result is a function
/// of the name alone; an unknown name yields an error.
#[verifier::external_body]
pub(crate) fn parse_axis_name(s: &str) -> (r: Option<u16>)
    ensures
        r == axis_code_of(s@),
{
    <evdev::AbsoluteAxisCode as core::str::FromStr>::from_str(s).ok().map(|c| c.0)
}

} // verus!
