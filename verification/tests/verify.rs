use std::cell::RefCell;
use std::sync::Arc;

use x509_path::certificate::{
    Certificate, Extensions, GeneralName, GeneralSubtree, NameConstraints,
};
use x509_path::ops::{CryptoOps, VerificationCertificate};
use x509_path::policy::{Policy, Profile};
use x509_path::trust_store::Store;
use x509_path::{verify, Budget, ChainBuilder, DuplicateExtensionsError, ValidationError};

type Cert = VerificationCertificate<TableOps>;

/// Signatures by table: which certificate has signed which.
struct TableOps {
    signed: Vec<(String, String)>,
    keyless: Vec<String>,
    checked: RefCell<usize>,
}

impl CryptoOps for TableOps {
    type Key = Vec<u8>;
    type Err = ();
    type CertificateExtra = u32;

    fn public_key(&self, cert: &Certificate) -> Result<Vec<u8>, ()> {
        if self.keyless.iter().any(|name| name.as_bytes() == cert.encoded) {
            Err(())
        } else {
            Ok(cert.encoded.clone())
        }
    }

    fn verify_signed_by(&self, cert: &Certificate, key: &Vec<u8>) -> Result<(), ()> {
        *self.checked.borrow_mut() += 1;
        for (issuer, child) in &self.signed {
            if issuer.as_bytes() == key.as_slice() && child.as_bytes() == cert.encoded {
                return Ok(());
            }
        }
        Err(())
    }
}

/// A profile by table: which certificates are rejected.
struct TableProfile {
    rejected: Vec<String>,
    depths: RefCell<Vec<(String, u8)>>,
}

impl Profile for TableProfile {
    fn permits_ee(
        &self,
        cert: &Certificate,
        _extensions: &Extensions,
    ) -> Result<(), ValidationError> {
        if self.rejected.iter().any(|name| name.as_bytes() == cert.encoded) {
            return Err(ValidationError::other("leaf rejected"));
        }
        Ok(())
    }

    fn permits_ca(
        &self,
        cert: &Certificate,
        current_depth: u8,
        _extensions: &Extensions,
    ) -> Result<(), ValidationError> {
        let name = String::from_utf8(cert.encoded.clone()).unwrap();
        self.depths.borrow_mut().push((name, current_depth));
        if self.rejected.iter().any(|name| name.as_bytes() == cert.encoded) {
            return Err(ValidationError::other("issuer rejected"));
        }
        Ok(())
    }
}

fn plain() -> Extensions {
    Extensions {
        subject_alternative_name: None,
        name_constraints: None,
        authority_key_identifier: None,
        subject_key_identifier: None,
    }
}

fn named(names: &[&str]) -> Extensions {
    let names = names.iter().map(|name| GeneralName::DNSName(name.to_string())).collect();
    Extensions { subject_alternative_name: Some(Ok(names)), ..plain() }
}

fn constrained(permitted: &[&str], excluded: &[&str]) -> Extensions {
    let subtrees = |names: &[&str]| {
        let subtree = |name: &&str| GeneralSubtree { base: GeneralName::DNSName(name.to_string()) };
        Some(names.iter().map(subtree).collect())
    };
    let constraints = NameConstraints {
        permitted_subtrees: subtrees(permitted),
        excluded_subtrees: subtrees(excluded),
    };
    Extensions { name_constraints: Some(Ok(constraints)), ..plain() }
}

fn parse_error() -> Arc<asn1::ParseError> {
    Arc::new(asn1::ParseError::new(asn1::ParseErrorKind::InvalidLength))
}

fn cert_with(
    name: &str,
    subject: &str,
    issuer: &str,
    extensions: Result<Extensions, DuplicateExtensionsError>,
) -> Cert {
    let cert = Certificate {
        encoded: name.as_bytes().to_vec(),
        subject: subject.as_bytes().to_vec(),
        issuer: issuer.as_bytes().to_vec(),
        extensions,
    };
    VerificationCertificate::new(cert, name.len() as u32)
}

fn cert(name: &str, subject: &str, issuer: &str) -> Cert {
    cert_with(name, subject, issuer, Ok(plain()))
}

fn policy(
    signed: &[(&str, &str)],
    rejected: &[&str],
    max_chain_depth: u8,
) -> Policy<TableOps, TableProfile> {
    let signed = signed.iter().map(|(a, b)| (a.to_string(), b.to_string())).collect();
    let rejected = rejected.iter().map(|name| name.to_string()).collect();
    Policy::new(
        TableOps { signed, keyless: vec![], checked: RefCell::new(0) },
        TableProfile { rejected, depths: RefCell::new(vec![]) },
        max_chain_depth,
    )
}

fn names(chain: Vec<Cert>) -> Vec<String> {
    chain
        .iter()
        .map(|cert| String::from_utf8(cert.certificate().encoded.clone()).unwrap())
        .collect()
}

fn run(
    leaf: &Cert,
    intermediates: Vec<Cert>,
    policy: &Policy<TableOps, TableProfile>,
    trusted: Vec<Cert>,
) -> Result<Vec<String>, ValidationError> {
    verify(leaf, intermediates, policy, &Store::new(trusted)).map(names)
}

fn exhausted(e: ValidationError) -> ValidationError {
    ValidationError::CandidatesExhausted(Box::new(e))
}

fn chain_of(expected: &[&str]) -> Result<Vec<String>, ValidationError> {
    Ok(expected.iter().map(|name| name.to_string()).collect())
}

#[test]
fn leaf_to_root() {
    let policy = policy(&[("root", "inter"), ("inter", "leaf")], &[], 8);
    let found = run(
        &cert("leaf", "L", "I"),
        vec![cert("inter", "I", "R")],
        &policy,
        vec![cert("root", "R", "R")],
    );
    assert_eq!(found, chain_of(&["leaf", "inter", "root"]));
    // The issuer of the leaf has no certificate between the leaf and its child.
    assert_eq!(
        *policy.profile.depths.borrow(),
        [("inter".to_string(), 0), ("root".to_string(), 1)]
    );
    assert_eq!(*policy.ops.checked.borrow(), 2);
}

#[test]
fn extra_data_travels_along() {
    let policy = policy(&[("root", "leaf")], &[], 8);
    let store = Store::new(vec![cert("root", "R", "R")]);
    let chain = verify(&cert("leaf!", "L", "R"), vec![], &policy, &store);
    assert!(chain.is_err());
    let chain = verify(&cert("leaf", "L", "R"), vec![], &policy, &store).ok().unwrap();
    assert_eq!(*chain[0].extra(), 4);
    assert_eq!(chain[1].certificate().subject, b"R");
}

#[test]
fn trusted_leaf() {
    let policy = policy(&[], &[], 0);
    let found = run(&cert("leaf", "L", "X"), vec![], &policy, vec![cert("leaf", "L", "X")]);
    assert_eq!(found, chain_of(&["leaf"]));
    assert_eq!(*policy.ops.checked.borrow(), 0);
}

#[test]
fn rejected_leaf() {
    let policy = policy(&[("root", "leaf")], &["leaf"], 8);
    let found = run(&cert("leaf", "L", "R"), vec![], &policy, vec![cert("root", "R", "R")]);
    assert_eq!(found, Err(ValidationError::Other("leaf rejected".to_string())));
}

#[test]
fn unreadable_leaf() {
    let policy = policy(&[("root", "leaf")], &[], 8);
    let trusted = || vec![cert("root", "R", "R")];
    let duplicate = DuplicateExtensionsError { oid: "2.5.29.17".to_string() };
    let leaf = cert_with("leaf", "L", "R", Err(duplicate.clone()));
    assert_eq!(
        run(&leaf, vec![], &policy, trusted()),
        Err(ValidationError::DuplicateExtension(duplicate))
    );
    let unparsed = Extensions { subject_alternative_name: Some(Err(parse_error())), ..plain() };
    let leaf = cert_with("leaf", "L", "R", Ok(unparsed));
    assert_eq!(
        run(&leaf, vec![], &policy, trusted()),
        Err(ValidationError::Malformed(parse_error()))
    );
    let unparsed = Extensions { name_constraints: Some(Err(parse_error())), ..plain() };
    let leaf = cert_with("leaf", "L", "R", Ok(unparsed));
    assert_eq!(
        run(&leaf, vec![], &policy, trusted()),
        Err(ValidationError::Malformed(parse_error()))
    );
}

#[test]
fn no_candidates() {
    let policy = policy(&[], &[], 8);
    let found = run(&cert("leaf", "L", "I"), vec![cert("inter", "J", "R")], &policy, vec![]);
    assert_eq!(
        found,
        Err(exhausted(ValidationError::Other(
            "all candidates exhausted with no interior errors".to_string()
        )))
    );
}

#[test]
fn last_error_is_reported() {
    let trusted = || vec![cert("root", "R", "R"), cert("other", "R", "R")];
    let leaf = cert("leaf", "L", "R");
    let mut table = policy(&[], &["root"], 8);
    assert_eq!(
        run(&leaf, vec![], &table, trusted()),
        Err(exhausted(ValidationError::Other("signature does not match".to_string())))
    );
    table.ops.keyless = vec!["other".to_string()];
    assert_eq!(
        run(&leaf, vec![], &table, trusted()),
        Err(exhausted(ValidationError::Other("issuer has malformed public key".to_string())))
    );
    let table = policy(&[], &["other"], 8);
    assert_eq!(
        run(&leaf, vec![], &table, trusted()),
        Err(exhausted(ValidationError::Other("issuer rejected".to_string())))
    );
}

#[test]
fn exhausted_candidates_do_not_nest() {
    let policy = policy(&[("inter", "leaf"), ("upper", "inter")], &[], 8);
    let found = run(
        &cert("leaf", "L", "I"),
        vec![cert("inter", "I", "U"), cert("upper", "U", "R")],
        &policy,
        vec![],
    );
    assert_eq!(
        found,
        Err(exhausted(ValidationError::Other(
            "all candidates exhausted with no interior errors".to_string()
        )))
    );
}

#[test]
fn depth_is_limited() {
    let signed = [("root", "upper"), ("upper", "inter"), ("inter", "leaf")];
    let found = |max| {
        run(
            &cert("leaf", "L", "I"),
            vec![cert("inter", "I", "U"), cert("upper", "U", "R")],
            &policy(&signed, &[], max),
            vec![cert("root", "R", "R")],
        )
    };
    let deep = || {
        exhausted(ValidationError::Other("chain construction exceeds max depth".to_string()))
    };
    assert_eq!(found(0), Err(deep()));
    assert_eq!(found(1), Err(deep()));
    assert_eq!(found(2), chain_of(&["leaf", "inter", "upper", "root"]));
    // The depth does not count the root: with no intermediates allowed, the
    // root itself may still issue the leaf.
    let policy = policy(&[("root", "leaf")], &[], 0);
    assert_eq!(
        run(&cert("leaf", "L", "R"), vec![], &policy, vec![cert("root", "R", "R")]),
        chain_of(&["leaf", "root"])
    );
}

#[test]
fn dead_ends_are_left() {
    let policy = policy(&[("dead", "leaf"), ("inter", "leaf"), ("root", "inter")], &[], 8);
    let found = run(
        &cert("leaf", "L", "I"),
        vec![cert("dead", "I", "X"), cert("inter", "I", "R")],
        &policy,
        vec![cert("root", "R", "R")],
    );
    assert_eq!(found, chain_of(&["leaf", "inter", "root"]));
}

#[test]
fn trusted_intermediate_ends_the_chain() {
    let policy = policy(&[("inter", "leaf"), ("root", "inter")], &[], 8);
    let found = run(
        &cert("leaf", "L", "I"),
        vec![],
        &policy,
        vec![cert("root", "R", "R"), cert("inter", "I", "R")],
    );
    assert_eq!(found, chain_of(&["leaf", "inter"]));
}

#[test]
fn duplicate_extensions_end_the_search() {
    let policy = policy(&[("root", "leaf")], &[], 8);
    let duplicate = DuplicateExtensionsError { oid: "2.5.29.30".to_string() };
    let bad = || cert_with("bad", "R", "R", Err(duplicate.clone()));
    let leaf = cert("leaf", "L", "R");
    assert_eq!(
        run(&leaf, vec![], &policy, vec![bad(), cert("root", "R", "R")]),
        Err(ValidationError::DuplicateExtension(duplicate.clone()))
    );
    assert_eq!(
        run(&leaf, vec![], &policy, vec![cert("root", "R", "R"), bad()]),
        chain_of(&["leaf", "root"])
    );
}

#[test]
fn malformed_names_of_an_issuer_end_the_search() {
    let policy = policy(&[("inter", "leaf"), ("good", "leaf")], &[], 8);
    let unparsed = || Extensions { subject_alternative_name: Some(Err(parse_error())), ..plain() };
    let found = run(
        &cert("leaf", "L", "I"),
        vec![cert_with("inter", "I", "R", Ok(unparsed()))],
        &policy,
        vec![cert("other", "I", "I")],
    );
    assert_eq!(found, Err(ValidationError::Malformed(parse_error())));
    // The names of a self-issued issuer are not read.
    let found = run(
        &cert("leaf", "L", "I"),
        vec![cert_with("inter", "I", "I", Ok(unparsed()))],
        &policy,
        vec![cert("good", "I", "I")],
    );
    assert_eq!(found, chain_of(&["leaf", "good"]));
}

#[test]
fn names_are_constrained_from_above() {
    let signed = [("root", "inter"), ("inter", "leaf")];
    let found = |leaf_names: &[&str], root: Extensions, inter: Extensions| {
        run(
            &cert_with("leaf", "L", "I", Ok(named(leaf_names))),
            vec![cert_with("inter", "I", "R", Ok(inter))],
            &policy(&signed, &[], 8),
            vec![cert_with("root", "R", "R", Ok(root))],
        )
    };
    let good = || chain_of(&["leaf", "inter", "root"]);
    assert_eq!(
        found(&["www.example.com"], constrained(&["example.com"], &[]), plain()),
        good()
    );
    assert_eq!(
        found(&["www.example.org"], constrained(&["example.com"], &[]), plain()),
        Err(exhausted(ValidationError::Other(
            "no permitted name constraints matched SAN".to_string()
        )))
    );
    assert_eq!(
        found(
            &["www.example.com", "secret.example.com"],
            constrained(&[], &["secret.example.com"]),
            plain()
        ),
        Err(exhausted(ValidationError::Other(
            "excluded name constraint matched SAN".to_string()
        )))
    );
    assert_eq!(
        found(&["www.example.com"], plain(), constrained(&["example.com"], &[])),
        good()
    );
    // The names of the intermediate are held to the root's constraints too.
    assert_eq!(
        found(
            &["www.example.com"],
            constrained(&["example.com"], &[]),
            named(&["ca.example.org"])
        ),
        Err(exhausted(ValidationError::Other(
            "no permitted name constraints matched SAN".to_string()
        )))
    );
}

#[test]
fn self_issued_intermediates_are_exempt() {
    let signed = [("root", "inter"), ("inter", "leaf")];
    let root = || cert_with("root", "I", "I", Ok(constrained(&["example.com"], &[])));
    let found = run(
        &cert_with("leaf", "L", "I", Ok(named(&["www.example.com"]))),
        vec![cert_with("inter", "I", "I", Ok(named(&["ca.example.org"])))],
        &policy(&signed, &[], 8),
        vec![root()],
    );
    assert_eq!(found, chain_of(&["leaf", "inter", "root"]));
    // A leaf is not, though its subject is its issuer.
    let found = run(
        &cert_with("leaf", "I", "I", Ok(named(&["www.example.org"]))),
        vec![],
        &policy(&[("root", "leaf")], &[], 8),
        vec![root()],
    );
    assert_eq!(
        found,
        Err(exhausted(ValidationError::Other(
            "no permitted name constraints matched SAN".to_string()
        )))
    );
}

#[test]
fn name_constraint_limit_is_fatal() {
    let policy = policy(&[("first", "leaf"), ("second", "leaf")], &[], 8);
    let store = Store::new(vec![
        cert_with("first", "R", "R", Ok(constrained(&["example.com"], &["example.org"]))),
        cert("second", "R", "R"),
    ]);
    let leaf = cert_with("leaf", "L", "R", Ok(named(&["www.example.com"])));
    let builder = ChainBuilder::new(vec![], &policy, &store);
    let mut budget = Budget { name_constraint_checks: 1, signature_checks: 5 };
    assert_eq!(
        builder.build_chain(&leaf, &mut budget).map(names),
        Err(ValidationError::FatalError("Exceeded maximum name constraint check limit"))
    );
    assert_eq!(budget, Budget { name_constraint_checks: 0, signature_checks: 4 });
    let mut budget = Budget { name_constraint_checks: 2, signature_checks: 5 };
    assert_eq!(
        builder.build_chain(&leaf, &mut budget).map(names),
        chain_of(&["leaf", "first"])
    );
    assert_eq!(budget, Budget { name_constraint_checks: 0, signature_checks: 4 });
}

#[test]
fn signature_limit_exhausts_the_candidates() {
    let policy = policy(&[("second", "leaf")], &[], 8);
    let store = Store::new(vec![cert("first", "R", "R"), cert("second", "R", "R")]);
    let leaf = cert("leaf", "L", "R");
    let builder = ChainBuilder::new(vec![], &policy, &store);
    let mut budget = Budget { name_constraint_checks: 0, signature_checks: 1 };
    assert_eq!(
        builder.build_chain(&leaf, &mut budget).map(names),
        Err(exhausted(ValidationError::FatalError("Exceeded maximum signature check limit")))
    );
    let mut budget = Budget { name_constraint_checks: 0, signature_checks: 2 };
    assert_eq!(
        builder.build_chain(&leaf, &mut budget).map(names),
        chain_of(&["leaf", "second"])
    );
    assert_eq!(budget.signature_checks, 0);
}

/// A ladder of certificates, the one at the top trusted.
fn ladder(rungs: usize) -> Result<Vec<String>, ValidationError> {
    let name = |i: usize| format!("c{i}");
    let signed: Vec<(String, String)> = (0..rungs).map(|i| (name(i + 1), name(i))).collect();
    let signed: Vec<(&str, &str)> = signed.iter().map(|(a, b)| (a.as_str(), b.as_str())).collect();
    let rung = |i: usize| cert(&name(i), &name(i), &name(i + 1));
    run(
        &rung(0),
        (1..rungs).map(rung).collect(),
        &policy(&signed, &[], u8::MAX),
        vec![rung(rungs)],
    )
}

#[test]
fn longest_chain() {
    let longest = ladder(128).unwrap();
    assert_eq!(longest.len(), 129);
    assert_eq!(longest[0], "c0");
    assert_eq!(longest[128], "c128");
    assert_eq!(
        ladder(129),
        Err(exhausted(ValidationError::FatalError("Exceeded maximum signature check limit")))
    );
}

#[test]
fn work_is_bounded_on_cycles() {
    // Two names whose certificates all issue each other.
    let pool = || {
        let mut pool = Vec::new();
        for i in 0..20 {
            pool.push(cert(&format!("a{i}"), "A", "B"));
            pool.push(cert(&format!("b{i}"), "B", "A"));
        }
        pool
    };
    let mut signed = Vec::new();
    for i in 0..20 {
        signed.push((format!("a{i}"), "leaf".to_string()));
        for j in 0..20 {
            signed.push((format!("a{i}"), format!("b{j}")));
            signed.push((format!("b{j}"), format!("a{i}")));
        }
    }
    for max_chain_depth in [3, u8::MAX] {
        let mut policy = policy(&[], &[], max_chain_depth);
        policy.ops.signed = signed.clone();
        let found = run(&cert("leaf", "L", "A"), pool(), &policy, vec![]);
        assert_eq!(
            found,
            Err(exhausted(ValidationError::FatalError("Exceeded maximum signature check limit")))
        );
        assert_eq!(*policy.ops.checked.borrow(), 128);
        let depths = policy.profile.depths.borrow();
        assert!(depths.len() <= 129 * 40);
        assert!(depths.iter().all(|(_, depth)| *depth <= max_chain_depth));
    }
}

#[test]
fn mail_names_are_constrained() {
    let mail = |name: &str| GeneralName::RFC822Name(name.to_string());
    let found = |name: &str| {
        let constraints = NameConstraints {
            permitted_subtrees: Some(vec![GeneralSubtree { base: mail("user@example.com") }]),
            excluded_subtrees: None,
        };
        let constrained = Extensions { name_constraints: Some(Ok(constraints)), ..plain() };
        let names = Extensions { subject_alternative_name: Some(Ok(vec![mail(name)])), ..plain() };
        run(
            &cert_with("leaf", "L", "R", Ok(names)),
            vec![],
            &policy(&[("root", "leaf")], &[], 8),
            vec![cert_with("root", "R", "R", Ok(constrained))],
        )
    };
    assert_eq!(found("user@example.com"), chain_of(&["leaf", "root"]));
    assert_eq!(
        found("other@example.com"),
        Err(exhausted(ValidationError::Other(
            "no permitted name constraints matched SAN".to_string()
        )))
    );
}

#[test]
fn same_inputs_same_chain() {
    let once = || {
        run(
            &cert("leaf", "L", "I"),
            vec![cert("a", "I", "R"), cert("b", "I", "R")],
            &policy(&[("a", "leaf"), ("b", "leaf"), ("root", "a"), ("root", "b")], &[], 8),
            vec![cert("root", "R", "R")],
        )
    };
    assert_eq!(once(), chain_of(&["leaf", "a", "root"]));
    assert_eq!(once(), once());
}
