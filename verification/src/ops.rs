//! The cryptography that path construction relies on, and the certificates
//! that it works on.

use std::sync::Arc;
use vstd::prelude::*;

use crate::certificate::Certificate;

verus! {

/// The cryptographic operations, supplied by the user of the library. Nothing
/// is promised of them: what the library states holds whatever they return.
pub trait CryptoOps: Sized {
    /// A public key.
    type Key;

    /// An error of one of the operations.
    type Err;

    /// Extra data that travels with a certificate.
    type CertificateExtra;

    /// The public key of `cert`.
    fn public_key(&self, cert: &Certificate) -> Result<Self::Key, Self::Err>;

    /// Succeeds if the signature on `cert` was made with `key`.
    fn verify_signed_by(&self, cert: &Certificate, key: &Self::Key) -> Result<(), Self::Err>;
}

/// A certificate together with the user's data on it.
pub struct VerificationCertificate<B: CryptoOps> {
    pub cert: Arc<Certificate>,
    pub extra: Arc<B::CertificateExtra>,
}

/// Whether `a` and `b` are the same certificate.
pub open spec fn same_certificate<B: CryptoOps>(
    a: VerificationCertificate<B>,
    b: VerificationCertificate<B>,
) -> bool {
    a.cert.encoded@ == b.cert.encoded@
}

impl<B: CryptoOps> VerificationCertificate<B> {
    /// `cert` with the user's data `extra`.
    pub fn new(cert: Certificate, extra: B::CertificateExtra) -> (r: VerificationCertificate<B>)
        ensures
            *r.cert == cert,
            *r.extra == extra,
    {
        VerificationCertificate { cert: Arc::new(cert), extra: Arc::new(extra) }
    }

    /// The certificate.
    pub fn certificate(&self) -> (r: &Certificate)
        ensures
            *r == *self.cert,
    {
        &*self.cert
    }

    /// The user's data.
    pub fn extra(&self) -> (r: &B::CertificateExtra)
        ensures
            *r == *self.extra,
    {
        &*self.extra
    }
}

impl<B: CryptoOps> Clone for VerificationCertificate<B> {
    fn clone(&self) -> (r: VerificationCertificate<B>)
        ensures
            r == *self,
    {
        VerificationCertificate { cert: self.cert.clone(), extra: self.extra.clone() }
    }
}

} // verus!
