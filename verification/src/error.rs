//! The error kinds a call can end with. Every error is final for the call
//! that returns it: the buffer it was given is left as it was.

use vstd::prelude::*;

verus! {

/// Why an operation was not carried out.
#[derive(Clone, Copy, Debug, PartialEq, Eq, Structural, Hash)]
pub enum CoreError {
    /// The actor lacks the permission the operation needs: a participant
    /// rejected it, or nobody approved it.
    Authority,
    /// The buffer does not hold a well-formed entity, or an offset or size
    /// would leave the range of the machine's integers.
    Layout,
    /// The operation needs a plugin of a type that is not attached.
    NotFound,
    /// The operation would break a structural rule, such as attaching a
    /// second plugin of one type or leaving a plugin without any authority.
    InvalidState,
}

} // verus!
