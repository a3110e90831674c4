use vstd::prelude::*;

verus! {

/// Immutable tenant identity handed to host capabilities.
///
/// The database handle that travels with it in the running service is held
/// by the host; the library only needs the tenant id to scope every
/// key-value operation.
#[derive(Clone, Copy, Debug, PartialEq, Eq, Structural)]
pub struct Session {
    pub user_id: i32,
}

impl Session {
    pub fn new(user_id: i32) -> (s: Session)
        ensures
            s.user_id == user_id,
    {
        Session { user_id }
    }
}

} // verus!
