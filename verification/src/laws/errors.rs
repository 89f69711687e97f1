//! Laws of the errors that path construction reports.

use vstd::prelude::*;

use crate::budget::Budget;
use crate::builder::{constraints_outcome, verify_outcome, ChainBuilder, Outcome};
use crate::certificate::{GeneralName, GeneralSubtree, NameConstraints};
use crate::error::{exhausted_view, ErrorView};
use crate::laws::search::{
    extensions_of, has_extensions, lemma_answer, lemma_answered, lemma_chain_search, lemma_found,
    lemma_search_facts, names_of_issuer, names_of_leaf,
};
use crate::name_chain::{
    apply_constraint, check_names, scan_excluded, scan_permitted, subtrees,
};
use crate::ops::{CryptoOps, VerificationCertificate};
use crate::policy::{Policy, Profile};
use crate::trust_store::Store;

verus! {

/// The error of counting one certificate more than the depth can hold.
pub open spec fn depth_overflow() -> ErrorView {
    ErrorView::Other("current depth calculation overflowed"@)
}

/// Whether `e` is the error of an overflow of the depth, by itself or as the
/// last error of candidates that are exhausted.
pub open spec fn reports_overflow(e: ErrorView) -> bool
    decreases e,
{
    match e {
        ErrorView::CandidatesExhausted(inner) => reports_overflow(*inner),
        _ => e == depth_overflow(),
    }
}

/// Whether `e` is no error about candidates within an error about candidates.
pub open spec fn flat(e: ErrorView) -> bool {
    e matches ErrorView::CandidatesExhausted(inner) ==> !(*inner is CandidatesExhausted)
}

/// Whether each error that the profile may give on an issuer is flat.
pub open spec fn flat_profile<B: CryptoOps, P: Profile>(policy: Policy<B, P>) -> bool {
    forall|cert, current_depth, extensions, e: ErrorView|
        #[trigger] policy.ca_outcome(cert, current_depth, extensions, Err(e)) ==> flat(e)
}

/// Whether none of the errors that the profile may give on an issuer reports
/// an overflow of the depth.
pub open spec fn silent_profile<B: CryptoOps, P: Profile>(policy: Policy<B, P>) -> bool {
    forall|cert, current_depth, extensions, e: ErrorView|
        #[trigger] policy.ca_outcome(cert, current_depth, extensions, Err(e))
            ==> !reports_overflow(e)
}

/// Whether what `ok` says of errors holds of each that a search gives other
/// than an overflow of the depth, and of what an error becomes once the
/// candidates are exhausted.
spec fn covers<B: CryptoOps, P: Profile>(
    ok: spec_fn(ErrorView) -> bool,
    policy: Policy<B, P>,
) -> bool {
    &&& forall|e: ErrorView|
        #![trigger ok(e)]
        e is Malformed || e is DuplicateExtension || e is FatalError || (e is Other && e
            != depth_overflow()) ==> ok(e)
    &&& forall|cert, current_depth, extensions, e: ErrorView|
        #[trigger] policy.ca_outcome(cert, current_depth, extensions, Err(e)) ==> ok(e)
    &&& ok(exhausted_view(None))
    &&& forall|e: ErrorView| ok(e) ==> ok(#[trigger] exhausted_view(Some(e)))
}

/// An error of a name check is of the kind `Other`, and is no overflow.
pub proof fn lemma_names_error(names: Seq<GeneralName>, constraints: NameConstraints)
    ensures
        check_names(names, constraints).1 matches Err(e) ==> e is Other && e != depth_overflow(),
    decreases names.len(),
{
    if names.len() > 0 {
        lemma_names_error(names.drop_last(), constraints);
        lemma_scan_error(names.last(), subtrees(constraints.permitted_subtrees));
        lemma_scan_error(names.last(), subtrees(constraints.excluded_subtrees));
        reveal_strlit("current depth calculation overflowed");
        reveal_strlit("no permitted name constraints matched SAN");
        reveal_strlit("excluded name constraint matched SAN");
        assert("current depth calculation overflowed"@[0] == 'c');
    }
}

proof fn lemma_scan_error(san: GeneralName, list: Seq<GeneralSubtree>)
    ensures
        scan_permitted(san, list).1 matches Err(e) ==> e is Other && e != depth_overflow(),
        scan_excluded(san, list).1 matches Err(e) ==> e is Other && e != depth_overflow(),
    decreases list.len(),
{
    if list.len() > 0 {
        lemma_scan_error(san, list.drop_last());
        lemma_constraint_error(list.last().base, san);
    }
}

proof fn lemma_constraint_error(constraint: GeneralName, san: GeneralName)
    ensures
        apply_constraint(constraint, san) matches Err(e) ==> e is Other && e != depth_overflow(),
{
    reveal_strlit("current depth calculation overflowed");
    reveal_strlit("unsatisfiable DNS name constraint: malformed SAN ");
    reveal_strlit("malformed DNS name constraint: ");
    reveal_strlit("unsatisfiable IP name constraint: malformed SAN ");
    reveal_strlit("malformed IP name constraints: ");
    if let Err(e) = apply_constraint(constraint, san) {
        assert(e->Other_0[0] == 'u' || e->Other_0[0] == 'm');
    }
}

/// The texts of the other errors of a search are not that of an overflow.
proof fn lemma_texts()
    ensures
        "chain construction exceeds max depth"@ != "current depth calculation overflowed"@,
        "issuer has malformed public key"@ != "current depth calculation overflowed"@,
        "signature does not match"@ != "current depth calculation overflowed"@,
        "all candidates exhausted with no interior errors"@
            != "current depth calculation overflowed"@,
{
    reveal_strlit("current depth calculation overflowed");
    reveal_strlit("chain construction exceeds max depth");
    reveal_strlit("issuer has malformed public key");
    reveal_strlit("signature does not match");
    reveal_strlit("all candidates exhausted with no interior errors");
    assert("current depth calculation overflowed"@[1] == 'u');
}

/// An error of the policy on an issuer is the profile's, or one of a few.
proof fn lemma_answer_error<B: CryptoOps, P: Profile>(
    ok: spec_fn(ErrorView) -> bool,
    policy: Policy<B, P>,
    issuer: VerificationCertificate<B>,
    child: VerificationCertificate<B>,
    current_depth: u8,
    before: Budget,
    e: ErrorView,
    after: Budget,
)
    requires
        covers(ok, policy),
        policy.issuer_outcome(
            *issuer.cert,
            *child.cert,
            current_depth,
            extensions_of(issuer),
            before,
            Err(e),
            after,
        ),
    ensures
        ok(e),
{
    lemma_texts();
}

/// What `ok` says holds of every error of a search, given that the depth
/// cannot overflow or that it holds of that error too.
proof fn lemma_search_errors<'a, B: CryptoOps, P: Profile>(
    ok: spec_fn(ErrorView) -> bool,
    b: ChainBuilder<'a, B, P>,
    work: VerificationCertificate<B>,
    current_depth: u8,
    names: Seq<GeneralName>,
    before: Budget,
    e: ErrorView,
    after: Budget,
)
    requires
        covers(ok, *b.policy),
        ok(depth_overflow()) || current_depth + before.signature_checks <= 255,
        has_extensions(work),
        b.search_outcome(
            work,
            current_depth,
            extensions_of(work),
            names,
            before,
            Err(e),
            after,
        ),
    ensures
        ok(e),
    decreases 255 - current_depth, 1int, 0int,
{
    let extensions = extensions_of(work);
    lemma_texts();
    if let Some(Ok(constraints)) = extensions.name_constraints {
        lemma_names_error(names, constraints);
    }
    let (checked, left) = constraints_outcome(extensions, names, before);
    if checked is Ok && !b.store.trusts(work) && current_depth <= b.policy.max_chain_depth {
        lemma_candidates_errors(
            ok,
            b,
            work,
            current_depth,
            names,
            b.issuers(work, extensions),
            None,
            left,
            e,
            after,
        );
    }
}

/// What `ok` says holds of every error of trying candidates.
proof fn lemma_candidates_errors<'a, B: CryptoOps, P: Profile>(
    ok: spec_fn(ErrorView) -> bool,
    b: ChainBuilder<'a, B, P>,
    work: VerificationCertificate<B>,
    current_depth: u8,
    names: Seq<GeneralName>,
    candidates: Seq<VerificationCertificate<B>>,
    last: Option<ErrorView>,
    before: Budget,
    e: ErrorView,
    after: Budget,
)
    requires
        covers(ok, *b.policy),
        ok(depth_overflow()) || current_depth + before.signature_checks <= 255,
        last is Some ==> ok(last->0),
        b.candidates_outcome(work, current_depth, names, candidates, last, before, Err(e), after),
    ensures
        ok(e),
    decreases 255 - current_depth, 0int, candidates.len(),
{
    let out: Outcome<B> = Err(e);
    if candidates.len() > 0 && has_extensions(candidates[0]) {
        let issuer = candidates[0];
        let others = candidates.drop_first();
        let (answer, left) = lemma_answered(
            b,
            work,
            current_depth,
            names,
            candidates,
            last,
            before,
            out,
            after,
        );
        lemma_answer(*b.policy, issuer, work, current_depth, before, answer, left);
        match answer {
            Err(e1) => {
                lemma_answer_error(
                    ok,
                    *b.policy,
                    issuer,
                    work,
                    current_depth,
                    before,
                    e1,
                    left,
                );
                lemma_candidates_errors(
                    ok,
                    b,
                    work,
                    current_depth,
                    names,
                    others,
                    Some(e1),
                    left,
                    e,
                    after,
                );
            },
            Ok(_) => {
                if current_depth < 255 && names_of_issuer(issuer) is Ok {
                    let own = names_of_issuer(issuer)->Ok_0;
                    let (found, rest) = lemma_found(
                        b,
                        work,
                        current_depth,
                        names,
                        candidates,
                        left,
                        out,
                        after,
                    );
                    lemma_search_facts(
                        b,
                        issuer,
                        (current_depth + 1) as u8,
                        names + own,
                        left,
                        found,
                        rest,
                    );
                    if let Err(e1) = found {
                        lemma_search_errors(
                            ok,
                            b,
                            issuer,
                            (current_depth + 1) as u8,
                            names + own,
                            left,
                            e1,
                            rest,
                        );
                        if !(e1 is FatalError) {
                            lemma_candidates_errors(
                                ok,
                                b,
                                work,
                                current_depth,
                                names,
                                others,
                                Some(e1),
                                rest,
                                e,
                                after,
                            );
                        }
                    }
                }
            },
        }
    }
}

/// The depth does not overflow within the signature budget: a search that
/// starts with no more signature checks than the depth can still be counted
/// up never reports an overflow, unless the profile does.
pub proof fn law_no_overflow<'a, B: CryptoOps, P: Profile>(
    b: ChainBuilder<'a, B, P>,
    work: VerificationCertificate<B>,
    current_depth: u8,
    names: Seq<GeneralName>,
    before: Budget,
    e: ErrorView,
    after: Budget,
)
    requires
        silent_profile(*b.policy),
        has_extensions(work),
        current_depth + before.signature_checks <= 255,
        b.search_outcome(
            work,
            current_depth,
            extensions_of(work),
            names,
            before,
            Err(e),
            after,
        ),
    ensures
        !reports_overflow(e),
{
    let ok = |e: ErrorView| !reports_overflow(e);
    lemma_texts();
    assert(covers(ok, *b.policy)) by {
        reveal_with_fuel(reports_overflow, 2);
    }
    lemma_search_errors(ok, b, work, current_depth, names, before, e, after);
}

/// No verification under any policy reports an overflow of the depth, unless
/// the profile itself does: the signature budget is spent before the depth
/// could overflow.
pub proof fn law_verify_no_overflow<B: CryptoOps, P: Profile>(
    leaf: VerificationCertificate<B>,
    intermediates: Vec<VerificationCertificate<B>>,
    policy: Policy<B, P>,
    store: Store<B>,
    e: ErrorView,
)
    requires
        verify_outcome(leaf, intermediates, policy, store, Err(e)),
    ensures
        reports_overflow(e) ==> !silent_profile(policy) || policy.ee_outcome(
            *leaf.cert,
            extensions_of(leaf),
            Err(e),
        ),
{
    let b = ChainBuilder { intermediates, policy: &policy, store: &store };
    let after = choose|after: Budget| #[trigger]
        b.chain_outcome(leaf, Budget::full(), Err(e), after);
    let found = lemma_chain_search(b, leaf, Budget::full(), Err(e), after);
    if found is Some && silent_profile(policy) {
        law_no_overflow(b, leaf, 0, names_of_leaf(leaf)->Ok_0, Budget::full(), e, after);
    }
}

/// No search reports an error about candidates within an error about
/// candidates, unless the profile gives one.
pub proof fn law_no_nested_exhaustion<'a, B: CryptoOps, P: Profile>(
    b: ChainBuilder<'a, B, P>,
    work: VerificationCertificate<B>,
    current_depth: u8,
    names: Seq<GeneralName>,
    before: Budget,
    e: ErrorView,
    after: Budget,
)
    requires
        flat_profile(*b.policy),
        has_extensions(work),
        b.search_outcome(
            work,
            current_depth,
            extensions_of(work),
            names,
            before,
            Err(e),
            after,
        ),
    ensures
        flat(e),
{
    let ok = |e: ErrorView| flat(e);
    lemma_search_errors(ok, b, work, current_depth, names, before, e, after);
}

} // verus!
