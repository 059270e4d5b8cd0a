//! Which machine a request is about.
use vstd::prelude::*;

use crate::fault::{Fault, FaultKind, FaultView};
use crate::text::same;

verus! {

broadcast use vstd::string::group_string_axioms;

/// The only target there is.
pub const LOCAL_TARGET: &'static str = "local";

/// Reject an alias that names no target.
///
/// An unknown alias is a malformed request, not an unreachable machine.
pub fn check_target(target: &str) -> (r: Result<(), Fault>)
    ensures
        r is Ok <==> target@ == LOCAL_TARGET@,
        r matches Err(fault) ==> fault@ == (FaultView::UnknownTarget { target: target@ })
            && fault@.kind() == FaultKind::InvalidParams,
{
    if same(target, LOCAL_TARGET) {
        return Ok(());
    }
    Err(Fault::UnknownTarget { target: target.to_owned() })
}

} // verus!
