//! Limits on the work that one path construction may do.

use vstd::prelude::*;

use crate::error::{ErrorView, ValidationError};

verus! {

/// The work that is still allowed.
#[derive(Debug, Clone, Copy, PartialEq, Eq)]
pub struct Budget {
    pub name_constraint_checks: usize,
    pub signature_checks: usize,
}

impl Budget {
    /// The maximum number of name constraint checks performed when attempting
    /// path construction. This is the same limit as other validators.
    pub const DEFAULT_NAME_CONSTRAINT_CHECK_LIMIT: usize = 1 << 20;

    /// The maximum number of signature verifications performed when attempting
    /// path construction. This is similar to other validators: both Go and
    /// rustls-webpki pick 100.
    pub const DEFAULT_SIGNATURE_CHECK_LIMIT: usize = 1 << 7;

    /// The full budget of one path construction.
    pub fn new() -> (r: Budget)
        ensures
            r == Budget::full(),
    {
        assert(1usize << 20 == 1_048_576) by (bit_vector);
        assert(1usize << 7 == 128) by (bit_vector);
        Budget {
            name_constraint_checks: Self::DEFAULT_NAME_CONSTRAINT_CHECK_LIMIT,
            signature_checks: Self::DEFAULT_SIGNATURE_CHECK_LIMIT,
        }
    }

    /// The budget that a path construction starts with.
    pub open spec fn full() -> Budget {
        Budget { name_constraint_checks: 1_048_576, signature_checks: 128 }
    }

    /// Pays for one name constraint check.
    pub fn name_constraint_check(&mut self) -> (r: Result<(), ValidationError>)
        ensures
            final(self).signature_checks == old(self).signature_checks,
            match r {
                Ok(_) => old(self).name_constraint_checks
                    == final(self).name_constraint_checks + 1,
                Err(e) => old(self).name_constraint_checks == 0
                    && final(self).name_constraint_checks == 0
                    && e@ == name_constraint_limit(),
            },
    {
        match self.name_constraint_checks.checked_sub(1) {
            Some(left) => {
                self.name_constraint_checks = left;
                Ok(())
            },
            None => Err(
                ValidationError::FatalError("Exceeded maximum name constraint check limit"),
            ),
        }
    }

    /// Pays for one signature verification.
    pub fn signature_check(&mut self) -> (r: Result<(), ValidationError>)
        ensures
            final(self).name_constraint_checks == old(self).name_constraint_checks,
            match r {
                Ok(_) => old(self).signature_checks == final(self).signature_checks + 1,
                Err(e) => old(self).signature_checks == 0 && final(self).signature_checks == 0
                    && e@ == signature_limit(),
            },
    {
        match self.signature_checks.checked_sub(1) {
            Some(left) => {
                self.signature_checks = left;
                Ok(())
            },
            None => Err(ValidationError::FatalError("Exceeded maximum signature check limit")),
        }
    }
}

/// The error of a name constraint check that the budget does not cover.
pub open spec fn name_constraint_limit() -> ErrorView {
    ErrorView::FatalError("Exceeded maximum name constraint check limit"@)
}

/// The error of a signature verification that the budget does not cover.
pub open spec fn signature_limit() -> ErrorView {
    ErrorView::FatalError("Exceeded maximum signature check limit"@)
}

} // verus!
