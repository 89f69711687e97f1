use x509_path::certificate::{Certificate, Extensions, GeneralName};
use x509_path::name_chain::NameChain;
use x509_path::ops::{CryptoOps, VerificationCertificate};
use x509_path::policy::{Policy, Profile};
use x509_path::trust_store::Store;
use x509_path::types::{DNSConstraint, DNSName};
use x509_path::{Budget, ChainBuilder, ValidationError};

/// A `CryptoOps` whose public key extraction and signature verification
/// always succeed, so that `valid_issuer` can be driven to completion
/// without real cryptographic material.
struct NullOps;

impl CryptoOps for NullOps {
    type Key = ();
    type Err = ();
    type CertificateExtra = ();

    fn public_key(&self, _cert: &Certificate) -> Result<(), ()> {
        Ok(())
    }

    fn verify_signed_by(&self, _cert: &Certificate, _key: &()) -> Result<(), ()> {
        Ok(())
    }
}

/// The parts of a certificate that this file reads.
struct Parts<'a> {
    issuer: &'a [u8],
    not_before: asn1::DateTime,
    not_after: asn1::DateTime,
    subject: &'a [u8],
    extensions: Vec<(asn1::ObjectIdentifier, &'a [u8])>,
}

fn take_apart(der: &[u8]) -> Parts<'_> {
    let mut fields: Vec<asn1::Tlv<'_>> = asn1::parse_single::<asn1::Sequence<'_>>(der)
        .unwrap()
        .parse(|p| {
            let tbs = p.read_element::<asn1::Sequence<'_>>()?;
            p.read_element::<asn1::Sequence<'_>>()?;
            p.read_element::<asn1::BitString<'_>>()?;
            tbs.parse(|p| {
                let mut fields = Vec::new();
                while !p.is_empty() {
                    fields.push(p.read_element::<asn1::Tlv<'_>>()?);
                }
                Ok::<_, asn1::ParseError>(fields)
            })
        })
        .unwrap();
    // Version, serial number, signature algorithm, issuer, validity, subject,
    // public key, extensions.
    assert_eq!(fields.len(), 8);
    let wrapped = fields.pop().unwrap();
    let listed = asn1::parse_single::<asn1::SequenceOf<'_, asn1::Sequence<'_>>>(wrapped.data());
    let extensions = listed
        .unwrap()
        .map(|extension| {
            extension
                .parse(|p| {
                    let oid = p.read_element::<asn1::ObjectIdentifier>()?;
                    p.read_element::<Option<bool>>()?;
                    let value = p.read_element::<&[u8]>()?;
                    Ok::<_, asn1::ParseError>((oid, value))
                })
                .unwrap()
        })
        .collect();
    let (not_before, not_after) = fields[4]
        .parse::<asn1::Sequence<'_>>()
        .unwrap()
        .parse(|p| {
            let from = p.read_element::<asn1::UtcTime>()?.as_datetime().clone();
            let to = p.read_element::<asn1::UtcTime>()?.as_datetime().clone();
            Ok::<_, asn1::ParseError>((from, to))
        })
        .unwrap();
    Parts {
        issuer: fields[3].full_data(),
        not_before,
        not_after,
        subject: fields[5].full_data(),
        extensions,
    }
}

/// A profile that asks for a leaf with a given name, and for issuers that are
/// valid at a given time and marked as authorities.
struct ServerProfile<'a> {
    subject: DNSName<'a>,
    time: asn1::DateTime,
}

impl Profile for ServerProfile<'_> {
    fn permits_ee(
        &self,
        _cert: &Certificate,
        extensions: &Extensions,
    ) -> Result<(), ValidationError> {
        let names = match &extensions.subject_alternative_name {
            Some(Ok(names)) => names,
            _ => return Err(ValidationError::other("leaf has no name")),
        };
        for name in names {
            if let GeneralName::DNSName(name) = name {
                if let Some(root) = DNSConstraint::new(name) {
                    if root.matches(&self.subject) {
                        return Ok(());
                    }
                }
            }
        }
        Err(ValidationError::other("leaf has another name"))
    }

    fn permits_ca(
        &self,
        cert: &Certificate,
        _current_depth: u8,
        _extensions: &Extensions,
    ) -> Result<(), ValidationError> {
        let parts = take_apart(&cert.encoded);
        if self.time < parts.not_before || self.time > parts.not_after {
            return Err(ValidationError::other("issuer is not valid at this time"));
        }
        let basic_constraints = asn1::ObjectIdentifier::from_string("2.5.29.19").unwrap();
        for (oid, value) in parts.extensions {
            if oid == basic_constraints && value == [0x30, 0x03, 0x01, 0x01, 0xff] {
                return Ok(());
            }
        }
        Err(ValidationError::other("issuer is no authority"))
    }
}

// A self-issued ("looping") CA certificate that is its own issuer.
fn looping_ca_pem() -> pem::Pem {
    pem::parse(
        "-----BEGIN CERTIFICATE-----
MIIBcjCCARmgAwIBAgIBATAKBggqhkjOPQQDAjAhMR8wHQYDVQQDDBZsb29waW5n
IHNlbGYtc2lnbmVkIENBMB4XDTIzMTIzMTAwMDAwMFoXDTI0MDEzMTAwMDAwMFow
ITEfMB0GA1UEAwwWbG9vcGluZyBzZWxmLXNpZ25lZCBDQTBZMBMGByqGSM49AgEG
CCqGSM49AwEHA0IABKAoXUGnHdfXJbSXjRjeW+PCVHmlo4KEki69N5pJUA0QyQMR
v9ySOMnWf3Ea7TR4g3zdguwTP7LdpSku3uR1QkmjQjBAMA8GA1UdEwEB/wQFMAMB
Af8wDgYDVR0PAQH/BAQDAgGGMB0GA1UdDgQWBBR23MGdG1Ma9iR+3CxKTafD/OE0
dTAKBggqhkjOPQQDAgNHADBEAiA4RCr07KfZdM16VfGNZAQFjvC60SWIU3RRVY/L
qolIOwIgCaIgj9ipK0Q0p+45UJiq+L/ncrxsweJkFq/UYubzhX0=
-----END CERTIFICATE-----",
    )
    .unwrap()
}

/// The certificate with the given encoding, which has neither names nor name
/// constraints nor an authority key identifier.
fn certificate(der: &[u8]) -> Certificate {
    let parts = take_apart(der);
    let mut key_identifier = None;
    for (oid, value) in &parts.extensions {
        let oid = oid.to_string();
        assert!(!["2.5.29.17", "2.5.29.30", "2.5.29.35"].contains(&oid.as_str()));
        if oid == "2.5.29.14" {
            key_identifier = Some(value.to_vec());
        }
    }
    Certificate {
        encoded: der.to_vec(),
        subject: parts.subject.to_vec(),
        issuer: parts.issuer.to_vec(),
        extensions: Ok(Extensions {
            subject_alternative_name: None,
            name_constraints: None,
            authority_key_identifier: None,
            subject_key_identifier: key_identifier,
        }),
    }
}

/// Exercises our pathlen overflow error scenario.
///
/// This condition is logically unreachable through `verify`, since we
/// unconditionally limit signature checks to a number smaller than `u8::MAX`,
/// meaning that we always exhaust the signature budget before potentially
/// exhausting the pathlen budget.
///
/// To test that directly, we manually lift the signature budget and start our
/// pathlen state right at `u8::MAX`, guaranteeing an overflow on the immediate
/// chain building step.
#[test]
fn test_build_chain_inner_depth_overflow() {
    let pem = looping_ca_pem();
    let ca = || certificate(pem.contents());
    let ca_exts = ca().extensions.ok().unwrap();

    // The same self-issued CA is both the working certificate and its own
    // (only) candidate issuer, so the search recurses on itself.
    let working = VerificationCertificate::<NullOps>::new(ca(), ());
    let intermediates = vec![VerificationCertificate::<NullOps>::new(ca(), ())];
    let store: Store<NullOps> = Store::new(vec![]);

    let subject = DNSName::new("example.com").unwrap();
    let time = asn1::DateTime::new(2024, 1, 1, 0, 0, 0).unwrap();
    let policy = Policy::new(NullOps, ServerProfile { subject, time }, u8::MAX);

    let builder = ChainBuilder::new(intermediates, &policy, &store);
    let mut budget = Budget {
        name_constraint_checks: usize::MAX,
        signature_checks: usize::MAX,
    };

    let name_chain = NameChain::new(None, &ca_exts, false).ok().unwrap();
    let err = match builder.build_chain_inner(
        &working,
        u8::MAX,
        &ca_exts,
        name_chain,
        &mut budget,
    ) {
        Ok(_) => panic!("chain building unexpectedly succeeded"),
        Err(e) => e,
    };

    assert!(matches!(
        err,
        ValidationError::Other(ref msg)
            if msg.contains("current depth calculation overflowed")
    ));
}

/// The looping certificate identifies its key, and is its own likeliest
/// issuer.
#[test]
fn looping_ca_is_read() {
    let pem = looping_ca_pem();
    let ca = certificate(pem.contents());
    assert!(x509_path::certificate::cert_is_self_issued(&ca));
    let key = ca.extensions().unwrap().subject_key().unwrap();
    assert_eq!(key.len(), 20);
    assert_eq!(key[..4], [0x76, 0xdc, 0xc1, 0x9d]);
}

/// Within the budget of a verification, the looping certificate is followed
/// until the signature checks run out.
#[test]
fn looping_ca_runs_out_of_signature_checks() {
    let pem = looping_ca_pem();
    let ca = || certificate(pem.contents());
    let extensions = ca().extensions.ok().unwrap();
    let working = VerificationCertificate::<NullOps>::new(ca(), ());
    let intermediates = vec![VerificationCertificate::<NullOps>::new(ca(), ())];
    let store: Store<NullOps> = Store::new(vec![]);
    let subject = DNSName::new("example.com").unwrap();
    let time = asn1::DateTime::new(2024, 1, 1, 0, 0, 0).unwrap();
    let policy = Policy::new(NullOps, ServerProfile { subject, time }, u8::MAX);
    let builder = ChainBuilder::new(intermediates, &policy, &store);
    let mut budget = Budget::new();
    let name_chain = NameChain::new(None, &extensions, false).ok().unwrap();
    let err = builder
        .build_chain_inner(&working, 0, &extensions, name_chain, &mut budget)
        .err()
        .unwrap();
    assert_eq!(
        err,
        ValidationError::CandidatesExhausted(Box::new(ValidationError::FatalError(
            "Exceeded maximum signature check limit"
        )))
    );
    assert_eq!(budget.signature_checks, 0);
}
