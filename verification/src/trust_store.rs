//! The set of trust anchors.

use vstd::prelude::*;

use crate::certificate::bytes_eq;
use crate::ops::{same_certificate, CryptoOps, VerificationCertificate};

verus! {

/// The trusted root certificates.
pub struct Store<B: CryptoOps> {
    pub certs: Vec<VerificationCertificate<B>>,
}

impl<B: CryptoOps> Store<B> {
    /// Whether `cert` is one of the trusted certificates.
    pub open spec fn trusts(self, cert: VerificationCertificate<B>) -> bool {
        exists|i: int|
            0 <= i < self.certs@.len() && same_certificate(#[trigger] self.certs@[i], cert)
    }

    /// The store that trusts `trusted`.
    pub fn new(trusted: Vec<VerificationCertificate<B>>) -> (r: Store<B>)
        ensures
            r.certs == trusted,
    {
        Store { certs: trusted }
    }

    /// Whether `cert` is one of the trusted certificates.
    pub fn contains(&self, cert: &VerificationCertificate<B>) -> (r: bool)
        ensures
            r == self.trusts(*cert),
    {
        let mut i: usize = 0;
        while i < self.certs.len()
            invariant
                i <= self.certs@.len(),
                forall|k: int|
                    0 <= k < i ==> !same_certificate(#[trigger] self.certs@[k], *cert),
            decreases self.certs@.len() - i,
        {
            if bytes_eq(
                self.certs[i].certificate().encoded.as_slice(),
                cert.certificate().encoded.as_slice(),
            ) {
                return true;
            }
            i = i + 1;
        }
        false
    }

    /// The trusted certificates with the given subject, in the order in which
    /// they were added.
    pub fn get_by_subject(&self, subject: &[u8]) -> (r: Vec<&VerificationCertificate<B>>)
        ensures
            r@.unref() == with_subject(self.certs@, subject@),
    {
        filter_by_subject(&self.certs, subject)
    }
}

/// Whether the subject of `cert` is `subject`.
pub open spec fn has_subject<B: CryptoOps>(
    cert: VerificationCertificate<B>,
    subject: Seq<u8>,
) -> bool {
    cert.cert.subject@ == subject
}

/// The certificates among `certs` whose subject is `subject`, in their order.
pub open spec fn with_subject<B: CryptoOps>(
    certs: Seq<VerificationCertificate<B>>,
    subject: Seq<u8>,
) -> Seq<VerificationCertificate<B>> {
    certs.filter(|c: VerificationCertificate<B>| has_subject(c, subject))
}

/// The certificates among `certs` whose subject is `subject`, in their order.
pub fn filter_by_subject<'a, B: CryptoOps>(
    certs: &'a Vec<VerificationCertificate<B>>,
    subject: &[u8],
) -> (r: Vec<&'a VerificationCertificate<B>>)
    ensures
        r@.unref() == with_subject(certs@, subject@),
{
    let mut found: Vec<&'a VerificationCertificate<B>> = Vec::new();
    let mut i: usize = 0;
    while i < certs.len()
        invariant
            i <= certs@.len(),
            found@.unref() == with_subject(certs@.take(i as int), subject@),
        decreases certs@.len() - i,
    {
        proof {
            assert(certs@.take(i + 1).drop_last() =~= certs@.take(i as int));
            reveal(Seq::filter);
        }
        if bytes_eq(certs[i].certificate().subject.as_slice(), subject) {
            found.push(&certs[i]);
        }
        i = i + 1;
    }
    assert(certs@.take(i as int) =~= certs@);
    found
}

} // verus!
