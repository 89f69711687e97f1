//! Laws of trust anchors, and of the potential issuers that a certificate's
//! fields point to.

use vstd::prelude::*;

use crate::budget::Budget;
use crate::builder::{rated, subject_key, unlikeliness, ChainBuilder, Outcome};
use crate::certificate::Extensions;
use crate::der::{is_octet_string, lemma_octet_string_unique, octet_string};
use crate::error::DuplicateExtensionsError;
use crate::laws::decided::{decided, lemma_accepted};
use crate::laws::issuers::{law_issuers_named, law_issuers_sorted};
use crate::laws::search::{
    accepts, extensions_of, has_extensions, lemma_answered, lemma_chain_search, lemma_found,
    names_of_leaf,
};
use crate::ops::{CryptoOps, VerificationCertificate};
use crate::policy::Profile;
use crate::trust_store::{with_subject, Store};

verus! {

/// A store trusts every certificate that it was made with, wherever it stands,
/// and the certificates with the same encoding as one of these, and no others.
pub proof fn law_store_members<B: CryptoOps>(
    store: Store<B>,
    cert: VerificationCertificate<B>,
)
    ensures
        store.certs@.contains(cert) ==> store.trusts(cert),
        store.trusts(cert) <==> exists|k: int|
            0 <= k < store.certs@.len() && (#[trigger] store.certs@[k]).cert.encoded@
                == cert.cert.encoded@,
{
    if store.certs@.contains(cert) {
        let k = choose|k: int| 0 <= k < store.certs@.len() && store.certs@[k] == cert;
        assert(store.certs@[k].cert.encoded@ == cert.cert.encoded@);
    }
}

/// A store made with the certificates of two others trusts what either does.
pub proof fn law_store_union<B: CryptoOps>(
    first: Store<B>,
    second: Store<B>,
    both: Store<B>,
    cert: VerificationCertificate<B>,
)
    requires
        both.certs@ == first.certs@ + second.certs@,
    ensures
        both.trusts(cert) == (first.trusts(cert) || second.trusts(cert)),
{
    law_store_members(first, cert);
    law_store_members(second, cert);
    law_store_members(both, cert);
    let n = first.certs@.len();
    if first.trusts(cert) {
        let k = choose|k: int|
            0 <= k < first.certs@.len() && (#[trigger] first.certs@[k]).cert.encoded@
                == cert.cert.encoded@;
        assert(both.certs@[k] == first.certs@[k]);
    }
    if second.trusts(cert) {
        let k = choose|k: int|
            0 <= k < second.certs@.len() && (#[trigger] second.certs@[k]).cert.encoded@
                == cert.cert.encoded@;
        assert(both.certs@[n + k] == second.certs@[k]);
    }
    if both.trusts(cert) {
        let k = choose|k: int|
            0 <= k < both.certs@.len() && (#[trigger] both.certs@[k]).cert.encoded@
                == cert.cert.encoded@;
        if k < n {
            assert(first.certs@[k] == both.certs@[k]);
        } else {
            assert(second.certs@[k - n] == both.certs@[k]);
        }
    }
}

/// Looking for a subject among no certificates finds none; and one more
/// certificate is found last, exactly if it has the subject.
pub proof fn law_subject_grows<B: CryptoOps>(
    certs: Seq<VerificationCertificate<B>>,
    cert: VerificationCertificate<B>,
    subject: Seq<u8>,
)
    ensures
        with_subject(Seq::<VerificationCertificate<B>>::empty(), subject).len() == 0,
        cert.cert.subject@ == subject ==> with_subject(certs.push(cert), subject)
            == with_subject(certs, subject).push(cert),
        cert.cert.subject@ != subject ==> with_subject(certs.push(cert), subject)
            == with_subject(certs, subject),
{
    reveal(Seq::filter);
    assert(certs.push(cert).drop_last() =~= certs);
}

/// Whether `cert` says that its key has the identifier `key`.
pub open spec fn identified_by<B: CryptoOps>(
    cert: VerificationCertificate<B>,
    key: Seq<u8>,
) -> bool {
    match cert.cert.extensions {
        Ok(extensions) => match extensions.subject_key_identifier {
            Some(der) => is_octet_string(der@, key),
            None => false,
        },
        Err(_) => false,
    }
}

/// Whether a certificate with the given extensions says that it was signed by
/// the key with the identifier `key`.
pub open spec fn wants_key(extensions: Extensions, key: Seq<u8>) -> bool {
    match extensions.authority_key_identifier {
        Some(Ok(aki)) => match aki.key_identifier {
            Some(id) => id@ == key,
            None => false,
        },
        _ => false,
    }
}

/// The key identifiers are what the extensions hold.
pub proof fn law_key_identifiers<B: CryptoOps>(
    cert: VerificationCertificate<B>,
    extensions: Extensions,
    key: Seq<u8>,
)
    ensures
        subject_key(cert) == Some(key) <==> identified_by(cert, key),
        extensions.spec_issuer_key() == Some(key) <==> wants_key(extensions, key),
{
    if has_extensions(cert) {
        if let Some(der) = extensions_of(cert).subject_key_identifier {
            if is_octet_string(der@, key) {
                lemma_octet_string_unique(der@, octet_string(der@)->0, key);
            }
        }
    }
}

/// Whatever their lengths: a candidate whose key identifier is the wanted one
/// is likelier than one without an identifier, and that one is likelier than
/// one with another identifier. Where no key is wanted, all are alike.
pub proof fn law_rates(a: Seq<u8>, b: Seq<u8>)
    ensures
        unlikeliness(Some(a), Some(a)) < unlikeliness(Some(a), None),
        a != b ==> unlikeliness(Some(a), None) < unlikeliness(Some(a), Some(b)),
        unlikeliness(None, Some(a)) == unlikeliness(None, Some(b)),
        unlikeliness(None, Some(a)) == unlikeliness(None, None),
        unlikeliness(Some(a), Some(a)) == 0,
        unlikeliness(Some(a), None) == 1,
        unlikeliness(None, None) == 1,
        a != b ==> unlikeliness(Some(a), Some(b)) == 2,
{
}

/// Of the potential issuers of a certificate that says which key signed it,
/// those with that key come first, then those that name no key, and then those
/// that name another.
pub proof fn law_right_key_first<'a, B: CryptoOps, P: Profile>(
    b: ChainBuilder<'a, B, P>,
    cert: VerificationCertificate<B>,
    extensions: Extensions,
    key: Seq<u8>,
    i: int,
    j: int,
)
    requires
        wants_key(extensions, key),
        0 <= i < j < b.issuers(cert, extensions).len(),
    ensures
        identified_by(b.issuers(cert, extensions)[j], key) ==> identified_by(
            b.issuers(cert, extensions)[i],
            key,
        ),
        (forall|other: Seq<u8>| !identified_by(b.issuers(cert, extensions)[j], other)) ==> forall|
            other: Seq<u8>,
        |
            #[trigger] identified_by(b.issuers(cert, extensions)[i], other) ==> other == key,
{
    let x = b.issuers(cert, extensions)[i];
    let y = b.issuers(cert, extensions)[j];
    law_issuers_sorted(b, cert, extensions);
    law_key_identifiers(x, extensions, key);
    law_key_identifiers(y, extensions, key);
    assert forall|other: Seq<u8>|
        (subject_key(x) == Some(other)) == #[trigger] identified_by(x, other) by {
        law_key_identifiers(x, extensions, other);
    }
    assert forall|other: Seq<u8>|
        (subject_key(y) == Some(other)) == #[trigger] identified_by(y, other) by {
        law_key_identifiers(y, extensions, other);
    }
    law_rates(key, key);
    if subject_key(x) is Some {
        law_rates(key, subject_key(x)->0);
        assert(identified_by(x, subject_key(x)->0));
    }
    if subject_key(y) is Some {
        law_rates(key, subject_key(y)->0);
        assert(identified_by(y, subject_key(y)->0));
    }
}

/// Where a certificate does not say which key signed it, its potential issuers
/// are the trusted certificates and then the intermediates with the right
/// name, each in their order.
pub proof fn law_no_key_no_order<'a, B: CryptoOps, P: Profile>(
    b: ChainBuilder<'a, B, P>,
    cert: VerificationCertificate<B>,
    extensions: Extensions,
)
    requires
        forall|key: Seq<u8>| !wants_key(extensions, key),
    ensures
        b.issuers(cert, extensions) == with_subject(b.store.certs@, cert.cert.issuer@)
            + with_subject(b.intermediates@, cert.cert.issuer@),
{
    let want = extensions.spec_issuer_key();
    if want is Some {
        law_key_identifiers(cert, extensions, want->0);
    }
    lemma_no_key(b, cert, extensions);
}

proof fn lemma_no_key<'a, B: CryptoOps, P: Profile>(
    b: ChainBuilder<'a, B, P>,
    cert: VerificationCertificate<B>,
    extensions: Extensions,
)
    requires
        extensions.spec_issuer_key() is None,
    ensures
        b.issuers(cert, extensions) == with_subject(b.store.certs@, cert.cert.issuer@)
            + with_subject(b.intermediates@, cert.cert.issuer@),
{
    let named = with_subject(b.store.certs@, cert.cert.issuer@) + with_subject(
        b.intermediates@,
        cert.cert.issuer@,
    );
    lemma_unrated(named);
    lemma_add_empty(named);
}

proof fn lemma_add_empty<A>(s: Seq<A>)
    ensures
        Seq::empty() + s + Seq::empty() == s,
{
    assert(Seq::empty() + s + Seq::empty() =~= s);
}

proof fn lemma_unrated<B: CryptoOps>(s: Seq<VerificationCertificate<B>>)
    ensures
        rated(s, None, 0) == Seq::<VerificationCertificate<B>>::empty(),
        rated(s, None, 1) == s,
        rated(s, None, 2) == Seq::<VerificationCertificate<B>>::empty(),
    decreases s.len(),
{
    reveal(Seq::filter);
    if s.len() > 0 {
        lemma_unrated(s.drop_last());
        assert(s.drop_last().push(s.last()) =~= s);
    }
}

/// A leaf that the profile permits, and that an anchor without name constraints
/// has signed, verifies to the leaf and the anchor: however many anchors and
/// intermediates there are, and wherever the anchor stands among them. (The
/// policy always decides the same way, the leaf is not itself trusted, and no
/// other certificate has the anchor's name.)
pub proof fn law_signed_by_anchor<'a, B: CryptoOps, P: Profile>(
    b: ChainBuilder<'a, B, P>,
    leaf: VerificationCertificate<B>,
    leaf_extensions: Extensions,
    anchor: VerificationCertificate<B>,
    anchor_extensions: Extensions,
    key: Result<B::Key, B::Err>,
    verified: Result<(), B::Err>,
    before: Budget,
    out: Outcome<B>,
    after: Budget,
)
    requires
        decided(*b.policy),
        leaf.cert.extensions == Ok::<Extensions, DuplicateExtensionsError>(leaf_extensions),
        !(leaf_extensions.subject_alternative_name matches Some(Err(_))),
        leaf_extensions.name_constraints is None,
        forall|k: int|
            0 <= k < b.store.certs@.len() ==> (#[trigger] b.store.certs@[k]).cert.encoded@
                != leaf.cert.encoded@,
        b.policy.ee_outcome(*leaf.cert, leaf_extensions, Ok(())),
        anchor.cert.extensions == Ok::<Extensions, DuplicateExtensionsError>(anchor_extensions),
        !(anchor_extensions.subject_alternative_name matches Some(Err(_))),
        anchor_extensions.name_constraints is None,
        b.store.certs@.contains(anchor),
        anchor.cert.subject@ == leaf.cert.issuer@,
        forall|c: VerificationCertificate<B>|
            b.store.certs@.contains(c) || b.intermediates@.contains(c) ==> (
            #[trigger] c.cert.subject@ == leaf.cert.issuer@ ==> c == anchor),
        b.policy.ca_outcome(*anchor.cert, 0, anchor_extensions, Ok(())),
        call_ensures(B::public_key, (&b.policy.ops, &*anchor.cert), key),
        key is Ok,
        call_ensures(B::verify_signed_by, (&b.policy.ops, &*leaf.cert, &key->Ok_0), verified),
        verified is Ok,
        before.signature_checks > 0,
        b.chain_outcome(leaf, before, out, after),
    ensures
        out == Outcome::<B>::Ok(seq![leaf, anchor]),
        after.signature_checks == before.signature_checks - 1,
        after.name_constraint_checks == before.name_constraint_checks,
{
    let found = lemma_chain_search(b, leaf, before, out, after);
    law_store_members(*b.store, leaf);
    law_store_members(*b.store, anchor);
    assert(found is Some);
    let candidates = b.issuers(leaf, leaf_extensions);
    law_issuers_named(b, leaf, leaf_extensions, anchor);
    assert(candidates.len() > 0);
    law_issuers_named(b, leaf, leaf_extensions, candidates[0]);
    assert(candidates.contains(candidates[0]));
    assert(candidates[0] == anchor);
    let names = names_of_leaf(leaf)->Ok_0;
    let end = found->0;
    let (answer, left) = lemma_answered(
        b,
        leaf,
        0,
        names,
        candidates,
        None,
        before,
        end,
        after,
    );
    assert(b.policy.verification_outcome(*leaf.cert, key->Ok_0, true));
    assert(accepts(*b.policy, anchor, leaf, 0));
    lemma_accepted(*b.policy, anchor, leaf, 0, before, answer, left);
    let (inner, rest) = lemma_found(b, leaf, 0, names, candidates, left, end, after);
    assert(inner == Outcome::<B>::Ok(seq![anchor]));
    assert(seq![anchor].push(leaf).reverse() =~= seq![leaf, anchor]);
}

} // verus!
