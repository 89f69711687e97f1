//! Laws of the order in which potential issuers are tried.

use vstd::prelude::*;
use vstd::seq_lib::lemma_multiset_commutative;

use crate::builder::{rated, subject_key, unlikeliness, ChainBuilder};
use crate::certificate::Extensions;
use crate::ops::{CryptoOps, VerificationCertificate};
use crate::policy::Profile;
use crate::trust_store::{has_subject, with_subject};

verus! {

/// A certificate is among those with a given subject exactly if it is one of
/// the certificates and has the subject.
pub proof fn law_with_subject<B: CryptoOps>(
    certs: Seq<VerificationCertificate<B>>,
    subject: Seq<u8>,
    cert: VerificationCertificate<B>,
)
    ensures
        with_subject(certs, subject).contains(cert) == (certs.contains(cert)
            && cert.cert.subject@ == subject),
{
    let pred = |c: VerificationCertificate<B>| has_subject(c, subject);
    let found = with_subject(certs, subject);
    if found.contains(cert) {
        certs.lemma_filter_contains_rev(pred, cert);
        let i = choose|i: int| 0 <= i < found.len() && found[i] == cert;
        certs.lemma_filter_pred(pred, i);
    }
    if certs.contains(cert) && cert.cert.subject@ == subject {
        let i = choose|i: int| 0 <= i < certs.len() && certs[i] == cert;
        certs.lemma_filter_contains(pred, i);
    }
}

/// The potential issuers of a certificate are the trusted certificates and
/// the intermediates whose subject is the certificate's issuer.
pub proof fn law_issuers_named<'a, B: CryptoOps, P: Profile>(
    b: ChainBuilder<'a, B, P>,
    cert: VerificationCertificate<B>,
    extensions: Extensions,
    c: VerificationCertificate<B>,
)
    ensures
        b.issuers(cert, extensions).contains(c) == {
            &&& b.store.certs@.contains(c) || b.intermediates@.contains(c)
            &&& c.cert.subject@ == cert.cert.issuer@
        },
{
    broadcast use vstd::seq_lib::group_to_multiset_ensures;

    let issuer = cert.cert.issuer@;
    law_with_subject(b.store.certs@, issuer, c);
    law_with_subject(b.intermediates@, issuer, c);
    lemma_concat_contains(
        with_subject(b.store.certs@, issuer),
        with_subject(b.intermediates@, issuer),
        c,
    );
    law_issuers_sorted(b, cert, extensions);
    let issuers = b.issuers(cert, extensions);
    assert(issuers.contains(c) == (issuers.to_multiset().count(c) > 0));
}

proof fn lemma_concat_contains<A>(a: Seq<A>, b: Seq<A>, x: A)
    ensures
        (a + b).contains(x) == (a.contains(x) || b.contains(x)),
{
    let s = a + b;
    if a.contains(x) {
        let i = choose|i: int| 0 <= i < a.len() && a[i] == x;
        assert(s[i] == x);
    }
    if b.contains(x) {
        let i = choose|i: int| 0 <= i < b.len() && b[i] == x;
        assert(s[a.len() + i] == x);
    }
}

/// The certificates with each of the rates together are all of them.
proof fn lemma_rated_multiset<B: CryptoOps>(
    s: Seq<VerificationCertificate<B>>,
    want: Option<Seq<u8>>,
)
    ensures
        (rated(s, want, 0) + rated(s, want, 1) + rated(s, want, 2)).to_multiset()
            == s.to_multiset(),
    decreases s.len(),
{
    broadcast use vstd::seq_lib::group_to_multiset_ensures;

    reveal(Seq::filter);
    let parts = (rated(s, want, 0), rated(s, want, 1), rated(s, want, 2));
    lemma_multiset_commutative(parts.0 + parts.1, parts.2);
    lemma_multiset_commutative(parts.0, parts.1);
    if s.len() > 0 {
        let init = s.drop_last();
        lemma_rated_multiset(init, want);
        let before = (rated(init, want, 0), rated(init, want, 1), rated(init, want, 2));
        lemma_multiset_commutative(before.0 + before.1, before.2);
        lemma_multiset_commutative(before.0, before.1);
        assert(s =~= init.push(s.last()));
    }
}

/// Where the certificates of one rate are looked for among those of one rate,
/// they are all of them or none.
proof fn lemma_rated_again<B: CryptoOps>(
    s: Seq<VerificationCertificate<B>>,
    want: Option<Seq<u8>>,
    rate: u8,
    again: u8,
)
    ensures
        rated(rated(s, want, rate), want, again) == (if rate == again {
            rated(s, want, rate)
        } else {
            Seq::empty()
        }),
    decreases s.len(),
{
    reveal(Seq::filter);
    if s.len() > 0 {
        let init = s.drop_last();
        lemma_rated_again(init, want, rate, again);
        if unlikeliness(want, subject_key(s.last())) == rate {
            let part = rated(init, want, rate);
            assert(part.push(s.last()).drop_last() =~= part);
        }
    }
}

/// The potential issuers are a stable sort of the certificates with the right
/// name, by how unlikely they are: the same certificates, each as often; the
/// likelier before the less likely; and equally likely ones in the order that
/// they had.
pub proof fn law_issuers_sorted<'a, B: CryptoOps, P: Profile>(
    b: ChainBuilder<'a, B, P>,
    cert: VerificationCertificate<B>,
    extensions: Extensions,
)
    ensures
        b.issuers(cert, extensions).to_multiset() == b.named_issuers(cert).to_multiset(),
        forall|i: int, j: int|
            0 <= i < j < b.issuers(cert, extensions).len() ==> unlikeliness(
                extensions.spec_issuer_key(),
                subject_key(#[trigger] b.issuers(cert, extensions)[i]),
            ) <= unlikeliness(
                extensions.spec_issuer_key(),
                subject_key(#[trigger] b.issuers(cert, extensions)[j]),
            ),
        forall|rate: u8|
            #[trigger]
            rated(b.issuers(cert, extensions), extensions.spec_issuer_key(), rate) == rated(
                b.named_issuers(cert),
                extensions.spec_issuer_key(),
                rate,
            ),
{
    let named = b.named_issuers(cert);
    let want = extensions.spec_issuer_key();
    let issuers = b.issuers(cert, extensions);
    lemma_rated_multiset(named, want);
    let zero = rated(named, want, 0);
    let one = rated(named, want, 1);
    let two = rated(named, want, 2);
    assert forall|rate: u8| #[trigger] rated(issuers, want, rate) == rated(named, want, rate) by {
        let pred = |c: VerificationCertificate<B>| unlikeliness(want, subject_key(c)) == rate;
        Seq::filter_distributes_over_add(zero + one, two, pred);
        Seq::filter_distributes_over_add(zero, one, pred);
        lemma_rated_again(named, want, 0, rate);
        lemma_rated_again(named, want, 1, rate);
        lemma_rated_again(named, want, 2, rate);
        if rate > 2 {
            assert(rated(named, want, rate) =~= Seq::empty()) by {
                if rated(named, want, rate).len() > 0 {
                    named.lemma_filter_pred(pred, 0);
                }
            }
        }
    }
}

/// A likely trusted candidate is tried before an equally likely untrusted one.
pub proof fn law_trusted_first<'a, B: CryptoOps, P: Profile>(
    b: ChainBuilder<'a, B, P>,
    cert: VerificationCertificate<B>,
    extensions: Extensions,
    rate: u8,
)
    ensures
        rated(b.issuers(cert, extensions), extensions.spec_issuer_key(), rate) == rated(
            with_subject(b.store.certs@, cert.cert.issuer@),
            extensions.spec_issuer_key(),
            rate,
        ) + rated(
            with_subject(b.intermediates@, cert.cert.issuer@),
            extensions.spec_issuer_key(),
            rate,
        ),
{
    let want = extensions.spec_issuer_key();
    law_issuers_sorted(b, cert, extensions);
    Seq::filter_distributes_over_add(
        with_subject(b.store.certs@, cert.cert.issuer@),
        with_subject(b.intermediates@, cert.cert.issuer@),
        |c: VerificationCertificate<B>| unlikeliness(want, subject_key(c)) == rate,
    );
}

} // verus!
