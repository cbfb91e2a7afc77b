//! Permission levels that gate administrative operations.

use vstd::prelude::*;

verus! {

/// A permission level. Levels are ordered: `Admin` includes `Mod`.
#[derive(Debug, Clone, Copy, PartialEq, Eq, PartialOrd, Ord)]
pub enum Permission {
    Mod,
    Admin,
}

impl Permission {
    /// The rank of a level: a holder of rank `r` may do what any rank
    /// up to `r` may do.
    pub open spec fn rank(self) -> int {
        match self {
            Permission::Mod => 0,
            Permission::Admin => 1,
        }
    }

    /// Whether a holder of `self` may do what `required` asks for.
    pub open spec fn covers(self, required: Permission) -> bool {
        self.rank() >= required.rank()
    }

    /// Decides whether this level is at least `required`.
    pub fn allows(self, required: Permission) -> (ok: bool)
        ensures
            ok == self.covers(required),
    {
        match (self, required) {
            (Permission::Mod, Permission::Admin) => false,
            _ => true,
        }
    }
}

} // verus!
