//! The policy that the certificates of a chain have to satisfy.

use vstd::prelude::*;

use crate::budget::{signature_limit, Budget};
use crate::certificate::{Certificate, Extensions};
use crate::error::{result_view, ErrorView, ValidationError};
use crate::ops::{CryptoOps, VerificationCertificate};

verus! {

/// The certificate profile that a policy enforces, supplied by the user of the
/// library. Nothing is promised of it: what the library states holds whatever
/// it decides.
pub trait Profile: Sized {
    /// Succeeds if `cert` may stand at the end of a chain, as an end entity.
    fn permits_ee(&self, cert: &Certificate, extensions: &Extensions) -> Result<
        (),
        ValidationError,
    >;

    /// Succeeds if `cert` may issue a certificate that has `current_depth`
    /// certificates between itself and the leaf.
    fn permits_ca(
        &self,
        cert: &Certificate,
        current_depth: u8,
        extensions: &Extensions,
    ) -> Result<(), ValidationError>;
}

/// A policy.
pub struct Policy<B: CryptoOps, P: Profile> {
    pub ops: B,
    pub profile: P,
    /// How many intermediates a chain may have.
    pub max_chain_depth: u8,
}

impl<B: CryptoOps, P: Profile> Policy<B, P> {
    /// The policy with the given parts.
    pub fn new(ops: B, profile: P, max_chain_depth: u8) -> (r: Policy<B, P>)
        ensures
            r == (Policy { ops, profile, max_chain_depth }),
    {
        Policy { ops, profile, max_chain_depth }
    }

    /// Whether the profile may decide `r` on the leaf `cert`.
    pub open spec fn ee_outcome(
        self,
        cert: Certificate,
        extensions: Extensions,
        r: Result<(), ErrorView>,
    ) -> bool {
        exists|decision: Result<(), ValidationError>|
            {
                &&& #[trigger] call_ensures(
                    P::permits_ee,
                    (&self.profile, &cert, &extensions),
                    decision,
                )
                &&& r == result_view(decision)
            }
    }

    /// Whether the profile may decide `r` on the issuer `cert`.
    pub open spec fn ca_outcome(
        self,
        cert: Certificate,
        current_depth: u8,
        extensions: Extensions,
        r: Result<(), ErrorView>,
    ) -> bool {
        exists|decision: Result<(), ValidationError>|
            {
                &&& #[trigger] call_ensures(
                    P::permits_ca,
                    (&self.profile, &cert, current_depth, &extensions),
                    decision,
                )
                &&& r == result_view(decision)
            }
    }

    /// Whether verifying the signature on `child` with `key` may succeed, or
    /// if `good` is false, may fail.
    pub open spec fn verification_outcome(
        self,
        child: Certificate,
        key: B::Key,
        good: bool,
    ) -> bool {
        exists|verified: Result<(), B::Err>|
            {
                &&& #[trigger] call_ensures(
                    B::verify_signed_by,
                    (&self.ops, &child, &key),
                    verified,
                )
                &&& (verified is Ok) == good
            }
    }

    /// Whether the policy may turn `issuer` down with `r` without verifying a
    /// signature: the profile does not permit it, its key cannot be extracted,
    /// or the budget `before` has no signature check left.
    pub open spec fn refused_outcome(
        self,
        issuer: Certificate,
        current_depth: u8,
        issuer_extensions: Extensions,
        before: Budget,
        r: Result<(), ErrorView>,
    ) -> bool {
        ||| r is Err && self.ca_outcome(issuer, current_depth, issuer_extensions, r)
        ||| {
            &&& self.ca_outcome(issuer, current_depth, issuer_extensions, Ok(()))
            &&& exists|key: Result<B::Key, B::Err>|
                {
                    &&& #[trigger] call_ensures(B::public_key, (&self.ops, &issuer), key)
                    &&& match key {
                        Err(_) => r == Err::<(), ErrorView>(
                            ErrorView::Other("issuer has malformed public key"@),
                        ),
                        Ok(_) => before.signature_checks == 0 && r == Err::<(), ErrorView>(
                            signature_limit(),
                        ),
                    }
                }
        }
    }

    /// Whether the policy may answer `r` on `issuer` by verifying the
    /// signature on `child`, at the price of one signature check: the profile
    /// permits the issuer, its key is extracted, and the signature was made
    /// with the key or not.
    pub open spec fn verified_outcome(
        self,
        issuer: Certificate,
        child: Certificate,
        current_depth: u8,
        issuer_extensions: Extensions,
        before: Budget,
        r: Result<(), ErrorView>,
        after: Budget,
    ) -> bool {
        &&& self.ca_outcome(issuer, current_depth, issuer_extensions, Ok(()))
        &&& after.name_constraint_checks == before.name_constraint_checks
        &&& after.signature_checks == before.signature_checks - 1
        &&& r matches Err(e) ==> e == ErrorView::Other("signature does not match"@)
        &&& exists|key: Result<B::Key, B::Err>|
            {
                &&& #[trigger] call_ensures(B::public_key, (&self.ops, &issuer), key)
                &&& key is Ok
                &&& self.verification_outcome(child, key->Ok_0, r is Ok)
            }
    }

    /// Whether asking if `issuer` issued `child` may end with `r` and leave
    /// the budget `after` of `before`.
    pub open spec fn issuer_outcome(
        self,
        issuer: Certificate,
        child: Certificate,
        current_depth: u8,
        issuer_extensions: Extensions,
        before: Budget,
        r: Result<(), ErrorView>,
        after: Budget,
    ) -> bool {
        ||| self.refused_outcome(issuer, current_depth, issuer_extensions, before, r) && after
            == before
        ||| self.verified_outcome(
            issuer,
            child,
            current_depth,
            issuer_extensions,
            before,
            r,
            after,
        )
    }

    /// Succeeds if the profile allows `cert` to be a leaf.
    pub fn permits_ee(&self, cert: &Certificate, extensions: &Extensions) -> (r: Result<
        (),
        ValidationError,
    >)
        ensures
            self.ee_outcome(*cert, *extensions, result_view(r)),
    {
        self.profile.permits_ee(cert, extensions)
    }

    /// Succeeds if `issuer` conforms to the policy and signs for `child`. A
    /// signature verification is paid for out of `budget`; that it is paid for
    /// before it is made is how the code goes, and no clause says so.
    pub fn valid_issuer(
        &self,
        issuer: &VerificationCertificate<B>,
        child: &Certificate,
        current_depth: u8,
        issuer_extensions: &Extensions,
        budget: &mut Budget,
    ) -> (r: Result<(), ValidationError>)
        ensures
            self.issuer_outcome(
                *issuer.cert,
                *child,
                current_depth,
                *issuer_extensions,
                *old(budget),
                result_view(r),
                *final(budget),
            ),
    {
        match self.profile.permits_ca(issuer.certificate(), current_depth, issuer_extensions) {
            Ok(_) => {},
            Err(e) => return Err(e),
        }
        let key = match self.ops.public_key(issuer.certificate()) {
            Ok(key) => key,
            Err(_) => return Err(ValidationError::other("issuer has malformed public key")),
        };
        match budget.signature_check() {
            Ok(_) => {},
            Err(e) => return Err(e),
        }
        let verified = self.ops.verify_signed_by(child, &key);
        match verified {
            Ok(_) => Ok(()),
            Err(_) => Err(ValidationError::other("signature does not match")),
        }
    }
}

} // verus!
