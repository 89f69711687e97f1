//! Laws of the single steps of path construction: what comes of each answer of
//! the user's code, and of each thing that a certificate may hold.

use std::sync::Arc;
use vstd::prelude::*;

use crate::budget::Budget;
use crate::builder::{fail, verify_outcome, ChainBuilder, Outcome};
use crate::certificate::{Certificate, Decoded, Extensions, GeneralName};
use crate::error::{DuplicateExtensionsError, ErrorView, ValidationError};
use crate::laws::issuers::law_issuers_named;
use crate::laws::search::{
    extensions_of, has_extensions, lemma_answered, lemma_chain_search, lemma_found,
    names_of_issuer,
};
use crate::laws::trust::law_store_members;
use crate::ops::{CryptoOps, VerificationCertificate};
use crate::policy::{Policy, Profile};

verus! {

// ---------------------------------------------------------------------------
// The policy on an issuer
// ---------------------------------------------------------------------------
/// Whether the profile is sure to permit an issuer.
pub open spec fn sure_to_permit<B: CryptoOps, P: Profile>(
    policy: Policy<B, P>,
    issuer: Certificate,
    current_depth: u8,
    extensions: Extensions,
) -> bool {
    forall|d: Result<(), ValidationError>|
        #[trigger] call_ensures(
            P::permits_ca,
            (&policy.profile, &issuer, current_depth, &extensions),
            d,
        ) ==> d is Ok
}

/// Whether the profile is sure to turn an issuer down with the error `e`.
pub open spec fn sure_to_reject<B: CryptoOps, P: Profile>(
    policy: Policy<B, P>,
    issuer: Certificate,
    current_depth: u8,
    extensions: Extensions,
    e: ErrorView,
) -> bool {
    forall|d: Result<(), ValidationError>|
        #[trigger] call_ensures(
            P::permits_ca,
            (&policy.profile, &issuer, current_depth, &extensions),
            d,
        ) ==> d is Err && d->Err_0@ == e
}

/// Whether a key is sure to be extracted from a certificate, or sure not to be.
pub open spec fn sure_key<B: CryptoOps, P: Profile>(
    policy: Policy<B, P>,
    issuer: Certificate,
    good: bool,
) -> bool {
    forall|key: Result<B::Key, B::Err>|
        #[trigger] call_ensures(B::public_key, (&policy.ops, &issuer), key) ==> (key is Ok) == good
}

/// Whether the signature on a certificate is sure to verify with any key, or
/// sure not to.
pub open spec fn sure_signature<B: CryptoOps, P: Profile>(
    policy: Policy<B, P>,
    child: Certificate,
    good: bool,
) -> bool {
    forall|key: B::Key, verified: Result<(), B::Err>|
        #[trigger] call_ensures(B::verify_signed_by, (&policy.ops, &child, &key), verified) ==> (
        verified is Ok) == good
}

/// An issuer that the profile turns down is turned down with the profile's
/// error, at no cost.
pub proof fn law_profile_rejects<B: CryptoOps, P: Profile>(
    policy: Policy<B, P>,
    issuer: Certificate,
    child: Certificate,
    current_depth: u8,
    extensions: Extensions,
    before: Budget,
    r: Result<(), ErrorView>,
    after: Budget,
    e: ErrorView,
)
    requires
        policy.issuer_outcome(issuer, child, current_depth, extensions, before, r, after),
        sure_to_reject(policy, issuer, current_depth, extensions, e),
    ensures
        r == Err::<(), ErrorView>(e),
        after == before,
{
}

/// An issuer without a usable key is turned down, at no cost.
pub proof fn law_bad_key<B: CryptoOps, P: Profile>(
    policy: Policy<B, P>,
    issuer: Certificate,
    child: Certificate,
    current_depth: u8,
    extensions: Extensions,
    before: Budget,
    r: Result<(), ErrorView>,
    after: Budget,
)
    requires
        policy.issuer_outcome(issuer, child, current_depth, extensions, before, r, after),
        sure_to_permit(policy, issuer, current_depth, extensions),
        sure_key(policy, issuer, false),
    ensures
        r == Err::<(), ErrorView>(ErrorView::Other("issuer has malformed public key"@)),
        after == before,
{
}

/// Without a signature check left, an issuer that would need one is turned
/// down with the error that says so.
pub proof fn law_no_signature_check_left<B: CryptoOps, P: Profile>(
    policy: Policy<B, P>,
    issuer: Certificate,
    child: Certificate,
    current_depth: u8,
    extensions: Extensions,
    before: Budget,
    r: Result<(), ErrorView>,
    after: Budget,
)
    requires
        policy.issuer_outcome(issuer, child, current_depth, extensions, before, r, after),
        sure_to_permit(policy, issuer, current_depth, extensions),
        sure_key(policy, issuer, true),
        before.signature_checks == 0,
    ensures
        r == Err::<(), ErrorView>(
            ErrorView::FatalError("Exceeded maximum signature check limit"@),
        ),
        after == before,
{
}

/// With a signature check left, an issuer that the profile permits and that has
/// a key is accepted or turned down by the signature, at the price of the
/// check.
pub proof fn law_signature_decides<B: CryptoOps, P: Profile>(
    policy: Policy<B, P>,
    issuer: Certificate,
    child: Certificate,
    current_depth: u8,
    extensions: Extensions,
    before: Budget,
    r: Result<(), ErrorView>,
    after: Budget,
    good: bool,
)
    requires
        policy.issuer_outcome(issuer, child, current_depth, extensions, before, r, after),
        sure_to_permit(policy, issuer, current_depth, extensions),
        sure_key(policy, issuer, true),
        sure_signature(policy, child, good),
        before.signature_checks > 0,
    ensures
        good ==> r is Ok,
        !good ==> r == Err::<(), ErrorView>(ErrorView::Other("signature does not match"@)),
        after.signature_checks == before.signature_checks - 1,
        after.name_constraint_checks == before.name_constraint_checks,
{
}

// ---------------------------------------------------------------------------
// The leaf
// ---------------------------------------------------------------------------
/// A leaf that has an extension twice is rejected for that.
pub proof fn law_leaf_duplicate<'a, B: CryptoOps, P: Profile>(
    b: ChainBuilder<'a, B, P>,
    leaf: VerificationCertificate<B>,
    e: DuplicateExtensionsError,
    before: Budget,
    out: Outcome<B>,
    after: Budget,
)
    requires
        b.chain_outcome(leaf, before, out, after),
        leaf.cert.extensions == Err::<Extensions, DuplicateExtensionsError>(e),
    ensures
        out == fail::<B>(ErrorView::DuplicateExtension(e)),
        after == before,
{
}

/// A leaf that the profile does not permit is rejected with the profile's
/// error, even if it is trusted.
pub proof fn law_leaf_rejected<'a, B: CryptoOps, P: Profile>(
    b: ChainBuilder<'a, B, P>,
    leaf: VerificationCertificate<B>,
    extensions: Extensions,
    e: ErrorView,
    before: Budget,
    out: Outcome<B>,
    after: Budget,
)
    requires
        b.chain_outcome(leaf, before, out, after),
        leaf.cert.extensions == Ok::<Extensions, DuplicateExtensionsError>(extensions),
        forall|d: Result<(), ValidationError>|
            #[trigger] call_ensures(
                P::permits_ee,
                (&b.policy.profile, &*leaf.cert, &extensions),
                d,
            ) ==> d is Err && d->Err_0@ == e,
    ensures
        out == fail::<B>(e),
        after == before,
{
    let found = lemma_chain_search(b, leaf, before, out, after);
    assert(!b.policy.ee_outcome(*leaf.cert, extensions, Ok(())));
}

/// A leaf that the profile permits and whose names cannot be parsed is rejected
/// with the parse error.
pub proof fn law_leaf_unparsed<'a, B: CryptoOps, P: Profile>(
    b: ChainBuilder<'a, B, P>,
    leaf: VerificationCertificate<B>,
    extensions: Extensions,
    e: Arc<asn1::ParseError>,
    before: Budget,
    out: Outcome<B>,
    after: Budget,
)
    requires
        b.chain_outcome(leaf, before, out, after),
        leaf.cert.extensions == Ok::<Extensions, DuplicateExtensionsError>(extensions),
        extensions.subject_alternative_name == Some(Decoded::<Vec<GeneralName>>::Err(e)),
        forall|d: Result<(), ValidationError>|
            #[trigger] call_ensures(
                P::permits_ee,
                (&b.policy.profile, &*leaf.cert, &extensions),
                d,
            ) ==> d is Ok,
    ensures
        out == fail::<B>(ErrorView::Malformed(*e)),
        after == before,
{
}

// ---------------------------------------------------------------------------
// The search
// ---------------------------------------------------------------------------
/// A certificate whose name constraints cannot be parsed ends the search with
/// the parse error, even if it is trusted.
pub proof fn law_search_unparsed<'a, B: CryptoOps, P: Profile>(
    b: ChainBuilder<'a, B, P>,
    work: VerificationCertificate<B>,
    current_depth: u8,
    extensions: Extensions,
    names: Seq<GeneralName>,
    before: Budget,
    out: Outcome<B>,
    after: Budget,
    e: Arc<asn1::ParseError>,
)
    requires
        b.search_outcome(work, current_depth, extensions, names, before, out, after),
        extensions.name_constraints matches Some(Err(x)) && x == e,
    ensures
        out == fail::<B>(ErrorView::Malformed(*e)),
        after == before,
{
}

/// A certificate without name constraints that is trusted ends the search with
/// itself, at whatever depth.
pub proof fn law_search_trusted<'a, B: CryptoOps, P: Profile>(
    b: ChainBuilder<'a, B, P>,
    work: VerificationCertificate<B>,
    current_depth: u8,
    extensions: Extensions,
    names: Seq<GeneralName>,
    before: Budget,
    out: Outcome<B>,
    after: Budget,
)
    requires
        b.search_outcome(work, current_depth, extensions, names, before, out, after),
        extensions.name_constraints is None,
        b.store.certs@.contains(work),
    ensures
        out == Outcome::<B>::Ok(seq![work]),
        after == before,
{
    law_store_members(*b.store, work);
}

/// A certificate that is not trusted, deeper than the policy allows, ends the
/// search.
pub proof fn law_search_too_deep<'a, B: CryptoOps, P: Profile>(
    b: ChainBuilder<'a, B, P>,
    work: VerificationCertificate<B>,
    current_depth: u8,
    extensions: Extensions,
    names: Seq<GeneralName>,
    before: Budget,
    out: Outcome<B>,
    after: Budget,
)
    requires
        b.search_outcome(work, current_depth, extensions, names, before, out, after),
        extensions.name_constraints is None,
        forall|k: int|
            0 <= k < b.store.certs@.len() ==> (#[trigger] b.store.certs@[k]).cert.encoded@
                != work.cert.encoded@,
        current_depth > b.policy.max_chain_depth,
    ensures
        out == fail::<B>(ErrorView::Other("chain construction exceeds max depth"@)),
        after == before,
{
    law_store_members(*b.store, work);
}

/// Whether the search from `work` comes to its issuers: it has no name
/// constraints, is not trusted, and is not too deep.
pub open spec fn comes_to_issuers<'a, B: CryptoOps, P: Profile>(
    b: ChainBuilder<'a, B, P>,
    work: VerificationCertificate<B>,
    current_depth: u8,
    extensions: Extensions,
) -> bool {
    &&& extensions.name_constraints is None
    &&& forall|k: int|
        0 <= k < b.store.certs@.len() ==> (#[trigger] b.store.certs@[k]).cert.encoded@
            != work.cert.encoded@
    &&& current_depth <= b.policy.max_chain_depth
}

/// Where no certificate has the name of the issuer, the candidates are
/// exhausted without an error of their own.
pub proof fn law_search_no_issuer<'a, B: CryptoOps, P: Profile>(
    b: ChainBuilder<'a, B, P>,
    work: VerificationCertificate<B>,
    current_depth: u8,
    extensions: Extensions,
    names: Seq<GeneralName>,
    before: Budget,
    out: Outcome<B>,
    after: Budget,
)
    requires
        b.search_outcome(work, current_depth, extensions, names, before, out, after),
        comes_to_issuers(b, work, current_depth, extensions),
        forall|c: VerificationCertificate<B>|
            b.store.certs@.contains(c) || b.intermediates@.contains(c)
                ==> #[trigger] c.cert.subject@ != work.cert.issuer@,
    ensures
        out == fail::<B>(
            ErrorView::CandidatesExhausted(
                Box::new(ErrorView::Other("all candidates exhausted with no interior errors"@)),
            ),
        ),
        after == before,
{
    law_store_members(*b.store, work);
    let candidates = b.issuers(work, extensions);
    if candidates.len() > 0 {
        law_issuers_named(b, work, extensions, candidates[0]);
        assert(candidates.contains(candidates[0]));
    }
}

/// A likeliest candidate that has an extension twice ends the search for that.
pub proof fn law_search_duplicate<'a, B: CryptoOps, P: Profile>(
    b: ChainBuilder<'a, B, P>,
    work: VerificationCertificate<B>,
    current_depth: u8,
    extensions: Extensions,
    names: Seq<GeneralName>,
    before: Budget,
    out: Outcome<B>,
    after: Budget,
    e: DuplicateExtensionsError,
)
    requires
        b.search_outcome(work, current_depth, extensions, names, before, out, after),
        comes_to_issuers(b, work, current_depth, extensions),
        b.issuers(work, extensions).len() > 0,
        b.issuers(work, extensions)[0].cert.extensions == Err::<
            Extensions,
            DuplicateExtensionsError,
        >(e),
    ensures
        out == fail::<B>(ErrorView::DuplicateExtension(e)),
        after == before,
{
    law_store_members(*b.store, work);
}

/// Whether the policy is sure to accept `issuer` as the issuer of `child`, with
/// a signature check left.
pub open spec fn sure_to_accept<B: CryptoOps, P: Profile>(
    policy: Policy<B, P>,
    issuer: VerificationCertificate<B>,
    child: VerificationCertificate<B>,
    current_depth: u8,
) -> bool {
    &&& sure_to_permit(policy, *issuer.cert, current_depth, extensions_of(issuer))
    &&& sure_key(policy, *issuer.cert, true)
    &&& sure_signature(policy, *child.cert, true)
}

/// Trying candidates that the profile is sure to turn down, and then one that
/// is accepted and trusted, ends with that one and costs one signature check.
proof fn lemma_first_accepted<'a, B: CryptoOps, P: Profile>(
    b: ChainBuilder<'a, B, P>,
    work: VerificationCertificate<B>,
    current_depth: u8,
    names: Seq<GeneralName>,
    candidates: Seq<VerificationCertificate<B>>,
    m: int,
    errors: spec_fn(VerificationCertificate<B>) -> ErrorView,
    last: Option<ErrorView>,
    before: Budget,
    out: Outcome<B>,
    after: Budget,
)
    requires
        b.candidates_outcome(work, current_depth, names, candidates, last, before, out, after),
        0 <= m < candidates.len(),
        forall|j: int|
            0 <= j < m ==> {
                &&& has_extensions(#[trigger] candidates[j])
                &&& sure_to_reject(
                    *b.policy,
                    *candidates[j].cert,
                    current_depth,
                    extensions_of(candidates[j]),
                    errors(candidates[j]),
                )
            },
        has_extensions(candidates[m]),
        sure_to_accept(*b.policy, candidates[m], work, current_depth),
        extensions_of(candidates[m]).name_constraints is None,
        !(extensions_of(candidates[m]).subject_alternative_name matches Some(Err(_))),
        b.store.certs@.contains(candidates[m]),
        current_depth < 255,
        before.signature_checks > 0,
    ensures
        out == Outcome::<B>::Ok(seq![candidates[m], work]),
        after.signature_checks == before.signature_checks - 1,
        after.name_constraint_checks == before.name_constraint_checks,
    decreases m,
{
    let (answer, left) = lemma_answered(
        b,
        work,
        current_depth,
        names,
        candidates,
        last,
        before,
        out,
        after,
    );
    if m > 0 {
        let e = errors(candidates[0]);
        assert(answer == Err::<(), ErrorView>(e) && left == before) by {
            assert(has_extensions(candidates[0]));
            lemma_rejected(*b.policy, candidates[0], work, current_depth, before, answer, left, e);
        }
        let others = candidates.drop_first();
        assert forall|j: int| 0 <= j < m - 1 implies {
            &&& has_extensions(#[trigger] others[j])
            &&& sure_to_reject(
                *b.policy,
                *others[j].cert,
                current_depth,
                extensions_of(others[j]),
                errors(others[j]),
            )
        } by {
            assert(has_extensions(candidates[j + 1]));
            assert(others[j] == candidates[j + 1]);
        }
        lemma_first_accepted(
            b,
            work,
            current_depth,
            names,
            others,
            m - 1,
            errors,
            Some(e),
            left,
            out,
            after,
        );
    } else {
        lemma_accepted_here(*b.policy, candidates[0], work, current_depth, before, answer, left);
        let (inner, rest) = lemma_found(
            b,
            work,
            current_depth,
            names,
            candidates,
            left,
            out,
            after,
        );
        law_store_members(*b.store, candidates[0]);
        assert(inner == Outcome::<B>::Ok(seq![candidates[0]]));
        assert(seq![candidates[0]].push(work) =~= seq![candidates[0], work]);
    }
}

proof fn lemma_rejected<B: CryptoOps, P: Profile>(
    policy: Policy<B, P>,
    issuer: VerificationCertificate<B>,
    child: VerificationCertificate<B>,
    current_depth: u8,
    before: Budget,
    answer: Result<(), ErrorView>,
    after: Budget,
    e: ErrorView,
)
    requires
        policy.issuer_outcome(
            *issuer.cert,
            *child.cert,
            current_depth,
            extensions_of(issuer),
            before,
            answer,
            after,
        ),
        sure_to_reject(policy, *issuer.cert, current_depth, extensions_of(issuer), e),
    ensures
        answer == Err::<(), ErrorView>(e),
        after == before,
{
}

proof fn lemma_accepted_here<B: CryptoOps, P: Profile>(
    policy: Policy<B, P>,
    issuer: VerificationCertificate<B>,
    child: VerificationCertificate<B>,
    current_depth: u8,
    before: Budget,
    answer: Result<(), ErrorView>,
    after: Budget,
)
    requires
        policy.issuer_outcome(
            *issuer.cert,
            *child.cert,
            current_depth,
            extensions_of(issuer),
            before,
            answer,
            after,
        ),
        sure_to_accept(policy, issuer, child, current_depth),
        before.signature_checks > 0,
    ensures
        answer is Ok,
        after.signature_checks == before.signature_checks - 1,
        after.name_constraint_checks == before.name_constraint_checks,
{
}

/// Of the potential issuers, the first that is sure to be accepted and is
/// trusted ends the chain, if the profile turns down all before it; however
/// many those are.
pub proof fn law_search_first_accepted<'a, B: CryptoOps, P: Profile>(
    b: ChainBuilder<'a, B, P>,
    work: VerificationCertificate<B>,
    current_depth: u8,
    extensions: Extensions,
    names: Seq<GeneralName>,
    before: Budget,
    out: Outcome<B>,
    after: Budget,
    m: int,
    errors: spec_fn(VerificationCertificate<B>) -> ErrorView,
)
    requires
        b.search_outcome(work, current_depth, extensions, names, before, out, after),
        comes_to_issuers(b, work, current_depth, extensions),
        0 <= m < b.issuers(work, extensions).len(),
        forall|j: int|
            0 <= j < m ==> {
                &&& has_extensions(#[trigger] b.issuers(work, extensions)[j])
                &&& sure_to_reject(
                    *b.policy,
                    *b.issuers(work, extensions)[j].cert,
                    current_depth,
                    extensions_of(b.issuers(work, extensions)[j]),
                    errors(b.issuers(work, extensions)[j]),
                )
            },
        has_extensions(b.issuers(work, extensions)[m]),
        sure_to_accept(*b.policy, b.issuers(work, extensions)[m], work, current_depth),
        extensions_of(b.issuers(work, extensions)[m]).name_constraints is None,
        !(extensions_of(b.issuers(work, extensions)[m]).subject_alternative_name matches Some(
            Err(_),
        )),
        b.store.certs@.contains(b.issuers(work, extensions)[m]),
        current_depth < 255,
        before.signature_checks > 0,
    ensures
        out == Outcome::<B>::Ok(seq![b.issuers(work, extensions)[m], work]),
        after.signature_checks == before.signature_checks - 1,
        after.name_constraint_checks == before.name_constraint_checks,
{
    law_store_members(*b.store, work);
    lemma_first_accepted(
        b,
        work,
        current_depth,
        names,
        b.issuers(work, extensions),
        m,
        errors,
        None,
        before,
        out,
        after,
    );
}

proof fn lemma_all_rejected<'a, B: CryptoOps, P: Profile>(
    b: ChainBuilder<'a, B, P>,
    work: VerificationCertificate<B>,
    current_depth: u8,
    names: Seq<GeneralName>,
    candidates: Seq<VerificationCertificate<B>>,
    errors: spec_fn(VerificationCertificate<B>) -> ErrorView,
    last: Option<ErrorView>,
    before: Budget,
    out: Outcome<B>,
    after: Budget,
)
    requires
        b.candidates_outcome(work, current_depth, names, candidates, last, before, out, after),
        candidates.len() > 0,
        forall|j: int|
            0 <= j < candidates.len() ==> {
                &&& has_extensions(#[trigger] candidates[j])
                &&& sure_to_reject(
                    *b.policy,
                    *candidates[j].cert,
                    current_depth,
                    extensions_of(candidates[j]),
                    errors(candidates[j]),
                )
            },
        !(errors(candidates.last()) is CandidatesExhausted),
    ensures
        out == fail::<B>(ErrorView::CandidatesExhausted(Box::new(errors(candidates.last())))),
        after == before,
    decreases candidates.len(),
{
    assert(has_extensions(candidates[0]));
    let (answer, left) = lemma_answered(
        b,
        work,
        current_depth,
        names,
        candidates,
        last,
        before,
        out,
        after,
    );
    let e = errors(candidates[0]);
    lemma_rejected(*b.policy, candidates[0], work, current_depth, before, answer, left, e);
    let others = candidates.drop_first();
    if others.len() > 0 {
        assert forall|j: int| 0 <= j < others.len() implies {
            &&& has_extensions(#[trigger] others[j])
            &&& sure_to_reject(
                *b.policy,
                *others[j].cert,
                current_depth,
                extensions_of(others[j]),
                errors(others[j]),
            )
        } by {
            assert(has_extensions(candidates[j + 1]));
            assert(others[j] == candidates[j + 1]);
        }
        lemma_all_rejected(
            b,
            work,
            current_depth,
            names,
            others,
            errors,
            Some(e),
            left,
            out,
            after,
        );
    }
}

/// If the profile turns down all potential issuers, the error on the last of
/// them is reported, and nothing is spent.
pub proof fn law_search_all_rejected<'a, B: CryptoOps, P: Profile>(
    b: ChainBuilder<'a, B, P>,
    work: VerificationCertificate<B>,
    current_depth: u8,
    extensions: Extensions,
    names: Seq<GeneralName>,
    before: Budget,
    out: Outcome<B>,
    after: Budget,
    errors: spec_fn(VerificationCertificate<B>) -> ErrorView,
)
    requires
        b.search_outcome(work, current_depth, extensions, names, before, out, after),
        comes_to_issuers(b, work, current_depth, extensions),
        b.issuers(work, extensions).len() > 0,
        forall|j: int|
            0 <= j < b.issuers(work, extensions).len() ==> {
                &&& has_extensions(#[trigger] b.issuers(work, extensions)[j])
                &&& sure_to_reject(
                    *b.policy,
                    *b.issuers(work, extensions)[j].cert,
                    current_depth,
                    extensions_of(b.issuers(work, extensions)[j]),
                    errors(b.issuers(work, extensions)[j]),
                )
            },
        !(errors(b.issuers(work, extensions).last()) is CandidatesExhausted),
    ensures
        out == fail::<B>(
            ErrorView::CandidatesExhausted(
                Box::new(errors(b.issuers(work, extensions).last())),
            ),
        ),
        after == before,
{
    law_store_members(*b.store, work);
    lemma_all_rejected(
        b,
        work,
        current_depth,
        names,
        b.issuers(work, extensions),
        errors,
        None,
        before,
        out,
        after,
    );
}

/// If the likeliest candidate is sure to be accepted, the depth that cannot be
/// counted further, or the candidate's names that cannot be parsed, end the
/// search with an error.
pub proof fn law_search_accepted_badly<'a, B: CryptoOps, P: Profile>(
    b: ChainBuilder<'a, B, P>,
    work: VerificationCertificate<B>,
    current_depth: u8,
    extensions: Extensions,
    names: Seq<GeneralName>,
    before: Budget,
    out: Outcome<B>,
    after: Budget,
    e: Arc<asn1::ParseError>,
)
    requires
        b.search_outcome(work, current_depth, extensions, names, before, out, after),
        comes_to_issuers(b, work, current_depth, extensions),
        b.issuers(work, extensions).len() > 0,
        has_extensions(b.issuers(work, extensions)[0]),
        sure_to_accept(*b.policy, b.issuers(work, extensions)[0], work, current_depth),
        before.signature_checks > 0,
    ensures
        current_depth == 255 ==> out == fail::<B>(
            ErrorView::Other("current depth calculation overflowed"@),
        ),
        current_depth < 255 && b.issuers(work, extensions)[0].cert.issuer@ != b.issuers(
            work,
            extensions,
        )[0].cert.subject@ && extensions_of(
            b.issuers(work, extensions)[0],
        ).subject_alternative_name == Some(Decoded::<Vec<GeneralName>>::Err(e)) ==> out == fail::<
            B,
        >(ErrorView::Malformed(*e)),
{
    law_store_members(*b.store, work);
    let candidates = b.issuers(work, extensions);
    let (answer, left) = lemma_answered(
        b,
        work,
        current_depth,
        names,
        candidates,
        None,
        before,
        out,
        after,
    );
    lemma_accepted_here(*b.policy, candidates[0], work, current_depth, before, answer, left);
}

/// Candidates that the profile is sure to turn down are passed over, however
/// many they are: trying them and then others ends as trying the others does,
/// after the error on the last of them.
pub proof fn law_rejected_passed_over<'a, B: CryptoOps, P: Profile>(
    b: ChainBuilder<'a, B, P>,
    work: VerificationCertificate<B>,
    current_depth: u8,
    names: Seq<GeneralName>,
    rejected: Seq<VerificationCertificate<B>>,
    others: Seq<VerificationCertificate<B>>,
    errors: spec_fn(VerificationCertificate<B>) -> ErrorView,
    last: Option<ErrorView>,
    before: Budget,
    out: Outcome<B>,
    after: Budget,
)
    requires
        b.candidates_outcome(
            work,
            current_depth,
            names,
            rejected + others,
            last,
            before,
            out,
            after,
        ),
        rejected.len() > 0,
        forall|j: int|
            0 <= j < rejected.len() ==> {
                &&& has_extensions(#[trigger] rejected[j])
                &&& sure_to_reject(
                    *b.policy,
                    *rejected[j].cert,
                    current_depth,
                    extensions_of(rejected[j]),
                    errors(rejected[j]),
                )
            },
    ensures
        b.candidates_outcome(
            work,
            current_depth,
            names,
            others,
            Some(errors(rejected.last())),
            before,
            out,
            after,
        ),
    decreases rejected.len(),
{
    let candidates = rejected + others;
    assert(candidates[0] == rejected[0]);
    assert(has_extensions(rejected[0]));
    let (answer, left) = lemma_answered(
        b,
        work,
        current_depth,
        names,
        candidates,
        last,
        before,
        out,
        after,
    );
    let e = errors(rejected[0]);
    lemma_rejected(*b.policy, rejected[0], work, current_depth, before, answer, left, e);
    let rest = rejected.drop_first();
    assert(candidates.drop_first() =~= rest + others);
    if rest.len() > 0 {
        assert forall|j: int| 0 <= j < rest.len() implies {
            &&& has_extensions(#[trigger] rest[j])
            &&& sure_to_reject(
                *b.policy,
                *rest[j].cert,
                current_depth,
                extensions_of(rest[j]),
                errors(rest[j]),
            )
        } by {
            assert(has_extensions(rejected[j + 1]));
            assert(rest[j] == rejected[j + 1]);
        }
        law_rejected_passed_over(
            b,
            work,
            current_depth,
            names,
            rest,
            others,
            errors,
            Some(e),
            left,
            out,
            after,
        );
    } else {
        assert(rest + others =~= others);
    }
}

/// If the likeliest candidate is sure to be accepted, the search goes on from
/// it, one deeper, with one signature check less, and with its own names in
/// force as well, if it is not self-issued. A chain that is found is completed
/// with the certificate below; a fatal error is reported as it is; and any
/// other error is reported as that of the exhausted candidates, if there is no
/// other candidate.
pub proof fn law_search_follows<'a, B: CryptoOps, P: Profile>(
    b: ChainBuilder<'a, B, P>,
    work: VerificationCertificate<B>,
    current_depth: u8,
    extensions: Extensions,
    names: Seq<GeneralName>,
    before: Budget,
    out: Outcome<B>,
    after: Budget,
    issuer: VerificationCertificate<B>,
    issuer_extensions: Extensions,
    own: Seq<GeneralName>,
) -> (r: (Outcome<B>, Budget))
    requires
        b.search_outcome(work, current_depth, extensions, names, before, out, after),
        comes_to_issuers(b, work, current_depth, extensions),
        current_depth < 255,
        b.issuers(work, extensions).len() > 0,
        b.issuers(work, extensions)[0] == issuer,
        issuer.cert.extensions == Ok::<Extensions, DuplicateExtensionsError>(issuer_extensions),
        sure_to_accept(*b.policy, issuer, work, current_depth),
        before.signature_checks > 0,
        if issuer.cert.issuer@ == issuer.cert.subject@ {
            own.len() == 0
        } else {
            match issuer_extensions.subject_alternative_name {
                None => own.len() == 0,
                Some(Ok(sans)) => own == sans@,
                Some(Err(_)) => false,
            }
        },
    ensures
        b.search_outcome(
            issuer,
            (current_depth + 1) as u8,
            issuer_extensions,
            names + own,
            Budget {
                name_constraint_checks: before.name_constraint_checks,
                signature_checks: (before.signature_checks - 1) as usize,
            },
            r.0,
            r.1,
        ),
        match r.0 {
            Ok(chain) => out == Outcome::<B>::Ok(chain.push(work)) && after == r.1,
            Err(ErrorView::FatalError(text)) => out == fail::<B>(ErrorView::FatalError(text))
                && after == r.1,
            Err(ErrorView::CandidatesExhausted(inner)) => b.issuers(work, extensions).len() == 1
                ==> out == fail::<B>(ErrorView::CandidatesExhausted(inner)) && after == r.1,
            Err(e) => b.issuers(work, extensions).len() == 1 ==> out == fail::<B>(
                ErrorView::CandidatesExhausted(Box::new(e)),
            ) && after == r.1,
        },
{
    law_store_members(*b.store, work);
    let candidates = b.issuers(work, extensions);
    let (answer, left) = lemma_answered(
        b,
        work,
        current_depth,
        names,
        candidates,
        None,
        before,
        out,
        after,
    );
    lemma_accepted_here(*b.policy, candidates[0], work, current_depth, before, answer, left);
    assert(own =~= names_of_issuer(issuer)->Ok_0);
    lemma_found(b, work, current_depth, names, candidates, left, out, after)
}

/// A verification is the building of a chain over the given intermediates and
/// anchors, with 1,048,576 name constraint checks and 128 signature checks.
pub proof fn law_verify_builds<B: CryptoOps, P: Profile>(
    leaf: VerificationCertificate<B>,
    b: ChainBuilder<'_, B, P>,
    out: Outcome<B>,
)
    ensures
        verify_outcome(leaf, b.intermediates, *b.policy, *b.store, out) <==> exists|after: Budget|
            #[trigger] b.chain_outcome(
                leaf,
                Budget { name_constraint_checks: 1_048_576, signature_checks: 128 },
                out,
                after,
            ),
{
    let full = Budget { name_constraint_checks: 1_048_576, signature_checks: 128 };
    assert(Budget::full() == full);
    assert(ChainBuilder { intermediates: b.intermediates, policy: b.policy, store: b.store } == b);
    if exists|after: Budget| #[trigger] b.chain_outcome(leaf, full, out, after) {
        let after = choose|after: Budget| #[trigger] b.chain_outcome(leaf, full, out, after);
        assert(b.chain_outcome(leaf, Budget::full(), out, after));
    }
}

} // verus!
