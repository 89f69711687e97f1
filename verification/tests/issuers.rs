use std::sync::Arc;

use x509_path::builder::rate_candidate;
use x509_path::certificate::{AuthorityKeyIdentifier, Certificate, Extensions};
use x509_path::der::parse_octet_string;
use x509_path::ops::{CryptoOps, VerificationCertificate};
use x509_path::policy::{Policy, Profile};
use x509_path::trust_store::Store;
use x509_path::{ChainBuilder, DuplicateExtensionsError, ValidationError};

struct NoOps;

impl CryptoOps for NoOps {
    type Key = ();
    type Err = ();
    type CertificateExtra = &'static str;

    fn public_key(&self, _cert: &Certificate) -> Result<(), ()> {
        Err(())
    }

    fn verify_signed_by(&self, _cert: &Certificate, _key: &()) -> Result<(), ()> {
        Err(())
    }
}

struct Anything;

impl Profile for Anything {
    fn permits_ee(
        &self,
        _cert: &Certificate,
        _extensions: &Extensions,
    ) -> Result<(), ValidationError> {
        Ok(())
    }

    fn permits_ca(
        &self,
        _cert: &Certificate,
        _current_depth: u8,
        _extensions: &Extensions,
    ) -> Result<(), ValidationError> {
        Ok(())
    }
}

fn extensions(issuer_key: Option<&[u8]>, subject_key: Option<&[u8]>) -> Extensions {
    Extensions {
        subject_alternative_name: None,
        name_constraints: None,
        authority_key_identifier: issuer_key
            .map(|id| Ok(AuthorityKeyIdentifier { key_identifier: Some(id.to_vec()) })),
        subject_key_identifier: subject_key.map(|der| der.to_vec()),
    }
}

fn candidate(
    name: &'static str,
    subject: &str,
    extensions: Result<Extensions, DuplicateExtensionsError>,
) -> VerificationCertificate<NoOps> {
    let cert = Certificate {
        encoded: name.as_bytes().to_vec(),
        subject: subject.as_bytes().to_vec(),
        issuer: b"nobody".to_vec(),
        extensions,
    };
    VerificationCertificate::new(cert, name)
}

fn keyed(name: &'static str, key: &[u8]) -> VerificationCertificate<NoOps> {
    candidate(name, "issuer", Ok(extensions(None, Some(key))))
}

/// The potential issuers of a certificate with the given extensions, issued by
/// "issuer", by their extra data.
fn potential_issuers(
    store: Vec<VerificationCertificate<NoOps>>,
    intermediates: Vec<VerificationCertificate<NoOps>>,
    cert_extensions: &Extensions,
) -> Vec<&'static str> {
    let policy = Policy::new(NoOps, Anything, 8);
    let store = Store::new(store);
    let builder = ChainBuilder::new(intermediates, &policy, &store);
    let cert = VerificationCertificate::new(
        Certificate {
            encoded: b"child".to_vec(),
            subject: b"child".to_vec(),
            issuer: b"issuer".to_vec(),
            extensions: Ok(extensions(None, None)),
        },
        "child",
    );
    builder
        .potential_issuers(&cert, cert_extensions)
        .into_iter()
        .map(|issuer| *issuer.extra())
        .collect()
}

#[test]
fn likelier_first_and_trusted_before_untrusted() {
    let issuers = potential_issuers(
        vec![
            keyed("trusted other key", &[4, 1, 9]),
            candidate("trusted no key", "issuer", Ok(extensions(None, None))),
            keyed("trusted same key", &[4, 1, 7]),
            candidate("trusted other name", "somebody", Ok(extensions(None, Some(&[4, 1, 7])))),
            keyed("trusted other key too", &[4, 2, 7, 7]),
        ],
        vec![
            keyed("other key", &[4, 1, 8]),
            keyed("same key", &[4, 1, 7]),
            candidate("no key", "issuer", Ok(extensions(None, None))),
            candidate("other name", "somebody", Ok(extensions(None, Some(&[4, 1, 7])))),
        ],
        &extensions(Some(&[7]), None),
    );
    assert_eq!(
        issuers,
        [
            "trusted same key",
            "same key",
            "trusted no key",
            "no key",
            "trusted other key",
            "trusted other key too",
            "other key",
        ]
    );
}

#[test]
fn unknown_key_keeps_the_order() {
    let pool = || vec![keyed("b", &[4, 1, 9]), keyed("a", &[4, 1, 7])];
    for wanted in [
        extensions(None, None),
        Extensions {
            authority_key_identifier: Some(Ok(AuthorityKeyIdentifier { key_identifier: None })),
            ..extensions(None, None)
        },
        Extensions {
            authority_key_identifier: Some(Err(Arc::new(asn1::ParseError::new(
                asn1::ParseErrorKind::InvalidValue,
            )))),
            ..extensions(None, None)
        },
    ] {
        assert_eq!(potential_issuers(vec![], pool(), &wanted), ["b", "a"]);
    }
}

#[test]
fn unreadable_keys_count_as_absent() {
    let duplicate = DuplicateExtensionsError { oid: "2.5.29.14".to_string() };
    let issuers = potential_issuers(
        vec![],
        vec![
            keyed("other", &[4, 1, 9]),
            candidate("duplicate", "issuer", Err(duplicate)),
            keyed("trailing data", &[4, 1, 7, 0]),
            keyed("raw", &[7]),
            keyed("same", &[4, 1, 7]),
        ],
        &extensions(Some(&[7]), None),
    );
    assert_eq!(issuers, ["same", "duplicate", "trailing data", "raw", "other"]);
}

#[test]
fn rates() {
    assert_eq!(rate_candidate(Some(&[1, 2]), Some(&[1, 2])), 0);
    assert_eq!(rate_candidate(Some(&[1, 2]), Some(&[1, 3])), 2);
    assert_eq!(rate_candidate(Some(&[1, 2]), Some(&[1])), 2);
    assert_eq!(rate_candidate(None, Some(&[1])), 1);
    assert_eq!(rate_candidate(Some(&[1]), None), 1);
    assert_eq!(rate_candidate(None, None), 1);
}

#[test]
fn octet_strings() {
    assert_eq!(parse_octet_string(&[4, 0]), Some(&[][..]));
    assert_eq!(parse_octet_string(&[4, 3, 1, 2, 3]), Some(&[1, 2, 3][..]));
    // Trailing data, missing data, another tag, no length, no tag.
    for bad in [&[4, 1, 7, 7][..], &[4, 2, 7], &[5, 1, 7], &[0x24, 1, 7], &[4], &[]] {
        assert_eq!(parse_octet_string(bad), None);
    }
    // The long form is for lengths of 128 and more.
    let mut long = vec![4, 0x81, 0x80];
    long.extend([9; 128]);
    assert_eq!(parse_octet_string(&long), Some(&[9; 128][..]));
    let mut short = vec![4, 0x81, 0x7f];
    short.extend([9; 127]);
    assert_eq!(parse_octet_string(&short), None);
    let mut padded = vec![4, 0x82, 0x00, 0x80];
    padded.extend([9; 128]);
    assert_eq!(parse_octet_string(&padded), None);
    let mut longer = vec![4, 0x82, 0x01, 0x02];
    longer.extend([9; 258]);
    assert_eq!(parse_octet_string(&longer), Some(&[9; 258][..]));
    // The indefinite form is not DER.
    assert_eq!(parse_octet_string(&[4, 0x80, 0, 0]), None);
}

#[test]
fn stores() {
    let store = Store::new(vec![keyed("a", &[4, 1, 1]), keyed("b", &[4, 1, 2])]);
    assert!(store.contains(&keyed("a", &[4, 1, 9])));
    assert!(!store.contains(&keyed("c", &[4, 1, 1])));
    let found = store.get_by_subject(b"issuer");
    assert_eq!(found.len(), 2);
    assert_eq!(*found[0].extra(), "a");
    assert!(store.get_by_subject(b"issue").is_empty());
}
