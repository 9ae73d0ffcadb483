use vstd::prelude::*;

verus! {

/// The editing operations have no recoverable failures: boundary moves are
/// silent no-ops and everything else always succeeds. No constructor for
/// this type is offered and the library never produces a value of it.
#[derive(Debug)]
pub struct Error {
    reserved: (),
}

} // verus!
