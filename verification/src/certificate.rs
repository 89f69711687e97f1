//! Certificates, as far as path construction reads them.

use std::sync::Arc;
use vstd::prelude::*;

use crate::der::{octet_string, parse_octet_string};
use crate::error::DuplicateExtensionsError;

verus! {

/// A form of names that have no structure to match by.
#[derive(Debug, Clone, Copy, PartialEq, Eq, Structural)]
pub enum NameForm {
    OtherName,
    X400Address,
    EDIPartyName,
    RegisteredID,
}

/// A name that is matched as a whole.
#[derive(Debug)]
pub struct OpaqueName {
    pub form: NameForm,
    /// The DER encoding of the name.
    pub content: Vec<u8>,
}

/// A name that a certificate is issued for, or the root of a subtree of such
/// names.
#[derive(Debug)]
pub enum GeneralName {
    /// A DNS name.
    DNSName(String),
    /// An IP address, or in a constraint an address and a mask.
    IPAddress(Vec<u8>),
    /// A mail address, or in a constraint a mail address, a host, or a domain
    /// with a leading period.
    RFC822Name(String),
    /// A URI, or in a constraint a host, or a domain with a leading period.
    UniformResourceIdentifier(String),
    /// A directory name, by the DER encodings of its relative names.
    DirectoryName(Vec<Vec<u8>>),
    /// A name of any other form.
    Other(OpaqueName),
}

/// Whether `a` and `b` are names of the same form.
pub open spec fn same_form(a: GeneralName, b: GeneralName) -> bool {
    match (a, b) {
        (GeneralName::DNSName(_), GeneralName::DNSName(_)) => true,
        (GeneralName::IPAddress(_), GeneralName::IPAddress(_)) => true,
        (GeneralName::RFC822Name(_), GeneralName::RFC822Name(_)) => true,
        (
            GeneralName::UniformResourceIdentifier(_),
            GeneralName::UniformResourceIdentifier(_),
        ) => true,
        (GeneralName::DirectoryName(_), GeneralName::DirectoryName(_)) => true,
        (GeneralName::Other(a), GeneralName::Other(b)) => a.form == b.form,
        _ => false,
    }
}

/// A subtree of names.
#[derive(Debug)]
pub struct GeneralSubtree {
    pub base: GeneralName,
}

/// The names that the certificates below a certificate may and may not be
/// issued for.
#[derive(Debug)]
pub struct NameConstraints {
    pub permitted_subtrees: Option<Vec<GeneralSubtree>>,
    pub excluded_subtrees: Option<Vec<GeneralSubtree>>,
}

/// Identifies the key that signed a certificate.
#[derive(Debug)]
pub struct AuthorityKeyIdentifier {
    pub key_identifier: Option<Vec<u8>>,
}

/// The value of an extension, or the error that parsing it gave.
pub type Decoded<T> = Result<T, Arc<asn1::ParseError>>;

/// The extensions of a certificate that path construction reads; `None` where
/// the certificate does not have the extension.
#[derive(Debug)]
pub struct Extensions {
    pub subject_alternative_name: Option<Decoded<Vec<GeneralName>>>,
    pub name_constraints: Option<Decoded<NameConstraints>>,
    pub authority_key_identifier: Option<Decoded<AuthorityKeyIdentifier>>,
    /// The DER encoding of the extension's value, an octet string.
    pub subject_key_identifier: Option<Vec<u8>>,
}

/// A certificate.
#[derive(Debug)]
pub struct Certificate {
    /// The DER encoding of the whole certificate, which identifies it.
    pub encoded: Vec<u8>,
    /// The DER encoding of the subject's name.
    pub subject: Vec<u8>,
    /// The DER encoding of the issuer's name.
    pub issuer: Vec<u8>,
    /// The extensions, unless one of them occurs twice.
    pub extensions: Result<Extensions, DuplicateExtensionsError>,
}

impl Extensions {
    /// The identifier of the key that signed the certificate, as far as the
    /// certificate says.
    pub open spec fn spec_issuer_key(self) -> Option<Seq<u8>> {
        match self.authority_key_identifier {
            Some(Ok(aki)) => match aki.key_identifier {
                Some(id) => Some(id@),
                None => None,
            },
            _ => None,
        }
    }

    /// The identifier of the certificate's own key, as far as the certificate
    /// says.
    pub open spec fn spec_subject_key(self) -> Option<Seq<u8>> {
        match self.subject_key_identifier {
            Some(der) => octet_string(der@),
            None => None,
        }
    }

    /// The identifier of the key that signed the certificate. An extension
    /// that cannot be parsed counts as absent.
    pub fn issuer_key(&self) -> (r: Option<&[u8]>)
        ensures
            match r {
                Some(id) => self.spec_issuer_key() == Some(id@),
                None => self.spec_issuer_key() is None,
            },
    {
        match &self.authority_key_identifier {
            Some(Ok(aki)) => match &aki.key_identifier {
                Some(id) => Some(id.as_slice()),
                None => None,
            },
            _ => None,
        }
    }

    /// The identifier of the certificate's own key. An extension that cannot
    /// be parsed counts as absent.
    pub fn subject_key(&self) -> (r: Option<&[u8]>)
        ensures
            match r {
                Some(id) => self.spec_subject_key() == Some(id@),
                None => self.spec_subject_key() is None,
            },
    {
        match &self.subject_key_identifier {
            Some(der) => parse_octet_string(der.as_slice()),
            None => None,
        }
    }
}

impl Certificate {
    /// The extensions of the certificate, or the error that one of them
    /// occurs twice.
    pub fn extensions(&self) -> (r: Result<&Extensions, DuplicateExtensionsError>)
        ensures
            match r {
                Ok(extensions) => self.extensions == Ok::<Extensions, DuplicateExtensionsError>(
                    *extensions,
                ),
                Err(e) => self.extensions == Err::<Extensions, DuplicateExtensionsError>(e),
            },
    {
        match &self.extensions {
            Ok(extensions) => Ok(extensions),
            Err(e) => Err(e.clone()),
        }
    }
}

/// Whether two byte strings are equal.
pub fn bytes_eq(a: &[u8], b: &[u8]) -> (r: bool)
    ensures
        r == (a@ == b@),
{
    if a.len() != b.len() {
        return false;
    }
    let mut i: usize = 0;
    while i < a.len()
        invariant
            a@.len() == b@.len(),
            i <= a@.len(),
            forall|k: int| 0 <= k < i ==> a@[k] == b@[k],
        decreases a@.len() - i,
    {
        if a[i] != b[i] {
            return false;
        }
        i = i + 1;
    }
    assert(a@ =~= b@);
    true
}

/// Whether the subject of a certificate is also its issuer.
pub open spec fn self_issued(cert: Certificate) -> bool {
    cert.issuer@ == cert.subject@
}

/// Whether the subject of a certificate is also its issuer.
pub fn cert_is_self_issued(cert: &Certificate) -> (r: bool)
    ensures
        r == self_issued(*cert),
{
    bytes_eq(cert.issuer.as_slice(), cert.subject.as_slice())
}

} // verus!
