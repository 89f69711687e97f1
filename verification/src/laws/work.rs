//! Laws of the work of the runs that stand behind a verification.

use vstd::prelude::*;

use crate::budget::Budget;
use crate::builder::{constraints_outcome, fail, verify_outcome, ChainBuilder, Outcome};
use crate::certificate::{Extensions, GeneralName};
use crate::error::{exhausted_view, ErrorView};
use crate::laws::errors::depth_overflow;
use crate::laws::issuers::law_issuers_sorted;
use crate::laws::search::{
    extensions_of, has_extensions, lemma_answered, lemma_chain_search, lemma_found,
    names_of_issuer, names_of_leaf,
};
use crate::name_chain::check_names;
use crate::ops::{CryptoOps, VerificationCertificate};
use crate::policy::{Policy, Profile};
use crate::trust_store::{with_subject, Store};

verus! {

/// Work done.
pub struct Work {
    /// How many signatures were verified.
    pub signatures: nat,
    /// How many name constraint checks were made.
    pub names: nat,
    /// How often the policy was asked about an issuer.
    pub asked: nat,
    /// The greatest depth at which it was asked, or -1 if it was not.
    pub deepest: int,
    /// How often the depth was about to be counted past what it can hold.
    pub overflows: nat,
}

/// The budget that is left, and the work done so far.
pub struct Tally {
    pub left: Budget,
    pub done: Work,
}

/// No work.
pub open spec fn no_work() -> Work {
    Work { signatures: 0, names: 0, asked: 0, deepest: -1, overflows: 0 }
}

/// `done` and asking about one more issuer at the given depth, with or without
/// verifying a signature.
pub open spec fn one_asked(done: Work, current_depth: u8, verified: bool) -> Work {
    Work {
        signatures: done.signatures + if verified {
            1nat
        } else {
            0nat
        },
        asked: done.asked + 1,
        deepest: if done.deepest < current_depth {
            current_depth as int
        } else {
            done.deepest
        },
        ..done
    }
}

/// How many name constraint checks holding `names` to the name constraints of
/// a certificate makes within the budget.
pub open spec fn checks_made(
    extensions: Extensions,
    names: Seq<GeneralName>,
    before: Budget,
) -> nat {
    match extensions.name_constraints {
        Some(Ok(constraints)) => if check_names(names, constraints).0
            <= before.name_constraint_checks {
            check_names(names, constraints).0
        } else {
            before.name_constraint_checks as nat
        },
        _ => 0,
    }
}

/// The tally after holding `names` to the name constraints of a certificate.
pub open spec fn names_checked(
    extensions: Extensions,
    names: Seq<GeneralName>,
    before: Tally,
) -> Tally {
    Tally {
        left: constraints_outcome(extensions, names, before.left).1,
        done: Work {
            names: before.done.names + checks_made(extensions, names, before.left),
            ..before.done
        },
    }
}

/// Whether asking the policy if `issuer` issued `child` may end with `answer`
/// and come from the tally `before` to `after`.
pub open spec fn asked_run<B: CryptoOps, P: Profile>(
    policy: Policy<B, P>,
    issuer: VerificationCertificate<B>,
    child: VerificationCertificate<B>,
    current_depth: u8,
    before: Tally,
    answer: Result<(), ErrorView>,
    after: Tally,
) -> bool {
    ||| {
        &&& policy.refused_outcome(
            *issuer.cert,
            current_depth,
            extensions_of(issuer),
            before.left,
            answer,
        )
        &&& after.left == before.left
        &&& after.done == one_asked(before.done, current_depth, false)
    }
    ||| {
        &&& policy.verified_outcome(
            *issuer.cert,
            *child.cert,
            current_depth,
            extensions_of(issuer),
            before.left,
            answer,
            after.left,
        )
        &&& after.done == one_asked(before.done, current_depth, true)
    }
}

/// Holds of every outcome and tally; mentions the two.
pub open spec fn tallied<B: CryptoOps>(out: Outcome<B>, after: Tally) -> bool {
    true
}

/// Whether the search from `work` may end with `out` and come from the tally
/// `before` to `after`.
pub open spec fn search_run<'a, B: CryptoOps, P: Profile>(
    b: ChainBuilder<'a, B, P>,
    work: VerificationCertificate<B>,
    current_depth: u8,
    names: Seq<GeneralName>,
    before: Tally,
    out: Outcome<B>,
    after: Tally,
) -> bool
    decreases 255 - current_depth, 1int, 0int, 0int,
{
    let extensions = extensions_of(work);
    let checked = constraints_outcome(extensions, names, before.left).0;
    let here = names_checked(extensions, names, before);
    match checked {
        Err(e) => out == fail::<B>(e) && after == here,
        Ok(_) => if b.store.trusts(work) {
            out == Outcome::<B>::Ok(seq![work]) && after == here
        } else if current_depth > b.policy.max_chain_depth {
            out == fail::<B>(ErrorView::Other("chain construction exceeds max depth"@)) && after
                == here
        } else {
            candidates_run(
                b,
                work,
                current_depth,
                names,
                b.issuers(work, extensions),
                None,
                here,
                out,
                after,
            )
        },
    }
}

/// Whether trying `candidates` in order as issuers of `work` may end with
/// `out` and come from the tally `before` to `after`.
pub open spec fn candidates_run<'a, B: CryptoOps, P: Profile>(
    b: ChainBuilder<'a, B, P>,
    work: VerificationCertificate<B>,
    current_depth: u8,
    names: Seq<GeneralName>,
    candidates: Seq<VerificationCertificate<B>>,
    last: Option<ErrorView>,
    before: Tally,
    out: Outcome<B>,
    after: Tally,
) -> bool
    decreases 255 - current_depth, 0int, candidates.len(), 2int,
{
    if candidates.len() == 0 {
        out == fail::<B>(exhausted_view(last)) && after == before
    } else if !has_extensions(candidates[0]) {
        &&& out == fail::<B>(
            ErrorView::DuplicateExtension(candidates[0].cert.extensions->Err_0),
        )
        &&& after == before
    } else {
        exists|answer: Result<(), ErrorView>, left: Tally|
            {
                &&& #[trigger] asked_run(
                    *b.policy,
                    candidates[0],
                    work,
                    current_depth,
                    before,
                    answer,
                    left,
                )
                &&& answer_run(
                    b,
                    work,
                    current_depth,
                    names,
                    candidates,
                    answer,
                    left,
                    out,
                    after,
                )
            }
    }
}

/// How trying `candidates` goes on once the policy has given `answer` on the
/// first of them.
pub open spec fn answer_run<'a, B: CryptoOps, P: Profile>(
    b: ChainBuilder<'a, B, P>,
    work: VerificationCertificate<B>,
    current_depth: u8,
    names: Seq<GeneralName>,
    candidates: Seq<VerificationCertificate<B>>,
    answer: Result<(), ErrorView>,
    before: Tally,
    out: Outcome<B>,
    after: Tally,
) -> bool
    decreases 255 - current_depth, 0int, candidates.len(), 1int,
{
    if candidates.len() == 0 {
        false
    } else if answer is Err {
        candidates_run(
            b,
            work,
            current_depth,
            names,
            candidates.drop_first(),
            Some(answer->Err_0),
            before,
            out,
            after,
        )
    } else if current_depth == 255 {
        &&& out == fail::<B>(depth_overflow())
        &&& after.left == before.left
        &&& after.done == Work { overflows: before.done.overflows + 1, ..before.done }
    } else if names_of_issuer(candidates[0]) is Err {
        out == fail::<B>(names_of_issuer(candidates[0])->Err_0) && after == before
    } else {
        exists|found: Outcome<B>, rest: Tally|
            {
                &&& #[trigger] tallied(found, rest)
                &&& search_run(
                    b,
                    candidates[0],
                    (current_depth + 1) as u8,
                    names + names_of_issuer(candidates[0])->Ok_0,
                    before,
                    found,
                    rest,
                )
                &&& found_run(
                    b,
                    work,
                    current_depth,
                    names,
                    candidates,
                    found,
                    rest,
                    out,
                    after,
                )
            }
    }
}

/// How trying `candidates` goes on once the search from the first of them has
/// ended with `found`.
pub open spec fn found_run<'a, B: CryptoOps, P: Profile>(
    b: ChainBuilder<'a, B, P>,
    work: VerificationCertificate<B>,
    current_depth: u8,
    names: Seq<GeneralName>,
    candidates: Seq<VerificationCertificate<B>>,
    found: Outcome<B>,
    before: Tally,
    out: Outcome<B>,
    after: Tally,
) -> bool
    decreases 255 - current_depth, 0int, candidates.len(), 0int,
{
    if candidates.len() == 0 {
        false
    } else {
        match found {
            Ok(chain) => out == Outcome::<B>::Ok(chain.push(work)) && after == before,
            Err(ErrorView::FatalError(_)) => out == found && after == before,
            Err(e) => candidates_run(
                b,
                work,
                current_depth,
                names,
                candidates.drop_first(),
                Some(e),
                before,
                out,
                after,
            ),
        }
    }
}

/// The answer of the policy on the first candidate, and the tally after it,
/// behind a run of trying candidates.
proof fn lemma_asked<'a, B: CryptoOps, P: Profile>(
    b: ChainBuilder<'a, B, P>,
    work: VerificationCertificate<B>,
    current_depth: u8,
    names: Seq<GeneralName>,
    candidates: Seq<VerificationCertificate<B>>,
    last: Option<ErrorView>,
    before: Tally,
    out: Outcome<B>,
    after: Tally,
) -> (r: (Result<(), ErrorView>, Tally))
    requires
        candidates.len() > 0,
        has_extensions(candidates[0]),
        candidates_run(b, work, current_depth, names, candidates, last, before, out, after),
    ensures
        asked_run(*b.policy, candidates[0], work, current_depth, before, r.0, r.1),
        answer_run(b, work, current_depth, names, candidates, r.0, r.1, out, after),
{
    choose|answer: Result<(), ErrorView>, left: Tally|
        {
            &&& #[trigger] asked_run(
                *b.policy,
                candidates[0],
                work,
                current_depth,
                before,
                answer,
                left,
            )
            &&& answer_run(b, work, current_depth, names, candidates, answer, left, out, after)
        }
}

/// The end of the search from the first candidate, and the tally after it,
/// behind a run of trying candidates.
proof fn lemma_followed<'a, B: CryptoOps, P: Profile>(
    b: ChainBuilder<'a, B, P>,
    work: VerificationCertificate<B>,
    current_depth: u8,
    names: Seq<GeneralName>,
    candidates: Seq<VerificationCertificate<B>>,
    before: Tally,
    out: Outcome<B>,
    after: Tally,
) -> (r: (Outcome<B>, Tally))
    requires
        candidates.len() > 0,
        current_depth < 255,
        names_of_issuer(candidates[0]) is Ok,
        answer_run(b, work, current_depth, names, candidates, Ok(()), before, out, after),
    ensures
        search_run(
            b,
            candidates[0],
            (current_depth + 1) as u8,
            names + names_of_issuer(candidates[0])->Ok_0,
            before,
            r.0,
            r.1,
        ),
        found_run(b, work, current_depth, names, candidates, r.0, r.1, out, after),
{
    choose|found: Outcome<B>, rest: Tally|
        {
            &&& #[trigger] tallied(found, rest)
            &&& search_run(
                b,
                candidates[0],
                (current_depth + 1) as u8,
                names + names_of_issuer(candidates[0])->Ok_0,
                before,
                found,
                rest,
            )
            &&& found_run(b, work, current_depth, names, candidates, found, rest, out, after)
        }
}

/// How many certificates there are to choose issuers from.
pub open spec fn pool_size<'a, B: CryptoOps, P: Profile>(b: ChainBuilder<'a, B, P>) -> nat {
    b.store.certs@.len() + b.intermediates@.len()
}

/// There are no more potential issuers than certificates to choose from.
proof fn lemma_issuers_len<'a, B: CryptoOps, P: Profile>(
    b: ChainBuilder<'a, B, P>,
    cert: VerificationCertificate<B>,
    extensions: Extensions,
)
    ensures
        b.issuers(cert, extensions).len() <= pool_size(b),
{
    broadcast use vstd::seq_lib::group_to_multiset_ensures;

    law_issuers_sorted(b, cert, extensions);
    lemma_with_subject_len(b.store.certs@, cert.cert.issuer@);
    lemma_with_subject_len(b.intermediates@, cert.cert.issuer@);
    assert(b.issuers(cert, extensions).to_multiset().len() == b.issuers(cert, extensions).len());
}

proof fn lemma_with_subject_len<B: CryptoOps>(
    certs: Seq<VerificationCertificate<B>>,
    subject: Seq<u8>,
)
    ensures
        with_subject(certs, subject).len() <= certs.len(),
    decreases certs.len(),
{
    reveal(Seq::filter);
    if certs.len() > 0 {
        lemma_with_subject_len(certs.drop_last(), subject);
    }
}

/// What holds of the tallies before and after a run that asks about at most
/// `room` issuers, apart from those that follow an issuer that was accepted.
pub open spec fn bounded<'a, B: CryptoOps, P: Profile>(
    b: ChainBuilder<'a, B, P>,
    current_depth: u8,
    room: nat,
    before: Tally,
    after: Tally,
) -> bool {
    let verified = before.left.signature_checks - after.left.signature_checks;
    &&& after.left.signature_checks <= before.left.signature_checks
    &&& after.left.name_constraint_checks <= before.left.name_constraint_checks
    &&& after.done.signatures - before.done.signatures == verified
    &&& after.done.names - before.done.names == before.left.name_constraint_checks
        - after.left.name_constraint_checks
    &&& after.done.asked - before.done.asked <= room + pool_size(b) * verified
    &&& before.done.deepest <= b.policy.max_chain_depth ==> after.done.deepest
        <= b.policy.max_chain_depth
    &&& current_depth + before.left.signature_checks <= 255 ==> after.done.overflows
        == before.done.overflows
}

/// The work of a search is bounded.
proof fn lemma_search_bounded<'a, B: CryptoOps, P: Profile>(
    b: ChainBuilder<'a, B, P>,
    work: VerificationCertificate<B>,
    current_depth: u8,
    names: Seq<GeneralName>,
    before: Tally,
    out: Outcome<B>,
    after: Tally,
)
    requires
        search_run(b, work, current_depth, names, before, out, after),
    ensures
        bounded(b, current_depth, pool_size(b), before, after),
    decreases 255 - current_depth, 1int, 0int,
{
    let extensions = extensions_of(work);
    let checked = constraints_outcome(extensions, names, before.left).0;
    let here = names_checked(extensions, names, before);
    if checked is Ok && !b.store.trusts(work) && current_depth <= b.policy.max_chain_depth {
        lemma_issuers_len(b, work, extensions);
        lemma_candidates_bounded(
            b,
            work,
            current_depth,
            names,
            b.issuers(work, extensions),
            None,
            here,
            out,
            after,
        );
    }
}

/// The work of trying candidates is bounded.
proof fn lemma_candidates_bounded<'a, B: CryptoOps, P: Profile>(
    b: ChainBuilder<'a, B, P>,
    work: VerificationCertificate<B>,
    current_depth: u8,
    names: Seq<GeneralName>,
    candidates: Seq<VerificationCertificate<B>>,
    last: Option<ErrorView>,
    before: Tally,
    out: Outcome<B>,
    after: Tally,
)
    requires
        current_depth <= b.policy.max_chain_depth,
        candidates_run(b, work, current_depth, names, candidates, last, before, out, after),
    ensures
        bounded(b, current_depth, candidates.len(), before, after),
    decreases 255 - current_depth, 0int, candidates.len(),
{
    let n = pool_size(b) as int;
    if candidates.len() > 0 && has_extensions(candidates[0]) {
        let others = candidates.drop_first();
        let (answer, left) = lemma_asked(
            b,
            work,
            current_depth,
            names,
            candidates,
            last,
            before,
            out,
            after,
        );
        let s1 = before.left.signature_checks - left.left.signature_checks;
        if answer is Err {
            lemma_candidates_bounded(
                b,
                work,
                current_depth,
                names,
                others,
                Some(answer->Err_0),
                left,
                out,
                after,
            );
            let s2 = left.left.signature_checks - after.left.signature_checks;
            assert(n * s2 <= n * (s1 + s2)) by (nonlinear_arith)
                requires
                    n >= 0,
                    s1 >= 0,
            ;
        } else if current_depth < 255 && names_of_issuer(candidates[0]) is Ok {
            let (found, rest) = lemma_followed(
                b,
                work,
                current_depth,
                names,
                candidates,
                left,
                out,
                after,
            );
            lemma_search_bounded(
                b,
                candidates[0],
                (current_depth + 1) as u8,
                names + names_of_issuer(candidates[0])->Ok_0,
                left,
                found,
                rest,
            );
            if found is Err && !(found->Err_0 is FatalError) {
                lemma_candidates_bounded(
                    b,
                    work,
                    current_depth,
                    names,
                    others,
                    Some(found->Err_0),
                    rest,
                    out,
                    after,
                );
            }
            let s2 = left.left.signature_checks - rest.left.signature_checks;
            let s3 = rest.left.signature_checks - after.left.signature_checks;
            assert(n + n * s2 + n * s3 == n * (1 + s2 + s3)) by (nonlinear_arith);
        } else {
            assert(n * s1 >= 0) by (nonlinear_arith)
                requires
                    n >= 0,
                    s1 >= 0,
            ;
        }
    }
}

/// Every end of a search is the end of a run, whatever work was done before.
proof fn lemma_search_has_run<'a, B: CryptoOps, P: Profile>(
    b: ChainBuilder<'a, B, P>,
    work: VerificationCertificate<B>,
    current_depth: u8,
    names: Seq<GeneralName>,
    before: Tally,
    out: Outcome<B>,
    after: Budget,
) -> (r: Tally)
    requires
        has_extensions(work),
        b.search_outcome(
            work,
            current_depth,
            extensions_of(work),
            names,
            before.left,
            out,
            after,
        ),
    ensures
        r.left == after,
        search_run(b, work, current_depth, names, before, out, r),
    decreases 255 - current_depth, 1int, 0int,
{
    let extensions = extensions_of(work);
    let checked = constraints_outcome(extensions, names, before.left).0;
    let here = names_checked(extensions, names, before);
    if checked is Ok && !b.store.trusts(work) && current_depth <= b.policy.max_chain_depth {
        lemma_candidates_have_run(
            b,
            work,
            current_depth,
            names,
            b.issuers(work, extensions),
            None,
            here,
            out,
            after,
        )
    } else {
        here
    }
}

/// Every end of trying candidates is the end of a run, whatever work was done
/// before.
proof fn lemma_candidates_have_run<'a, B: CryptoOps, P: Profile>(
    b: ChainBuilder<'a, B, P>,
    work: VerificationCertificate<B>,
    current_depth: u8,
    names: Seq<GeneralName>,
    candidates: Seq<VerificationCertificate<B>>,
    last: Option<ErrorView>,
    before: Tally,
    out: Outcome<B>,
    after: Budget,
) -> (r: Tally)
    requires
        b.candidates_outcome(
            work,
            current_depth,
            names,
            candidates,
            last,
            before.left,
            out,
            after,
        ),
    ensures
        r.left == after,
        candidates_run(b, work, current_depth, names, candidates, last, before, out, r),
    decreases 255 - current_depth, 0int, candidates.len(),
{
    if candidates.len() > 0 && has_extensions(candidates[0]) {
        let others = candidates.drop_first();
        let (answer, paid) = lemma_answered(
            b,
            work,
            current_depth,
            names,
            candidates,
            last,
            before.left,
            out,
            after,
        );
        let left = Tally {
            left: paid,
            done: one_asked(before.done, current_depth, paid != before.left),
        };
        assert(asked_run(*b.policy, candidates[0], work, current_depth, before, answer, left));
        let end = if answer is Err {
            lemma_candidates_have_run(
                b,
                work,
                current_depth,
                names,
                others,
                Some(answer->Err_0),
                left,
                out,
                after,
            )
        } else if current_depth == 255 {
            Tally {
                left: paid,
                done: Work { overflows: left.done.overflows + 1, ..left.done },
            }
        } else if names_of_issuer(candidates[0]) is Err {
            left
        } else {
            let (found, kept) = lemma_found(
                b,
                work,
                current_depth,
                names,
                candidates,
                paid,
                out,
                after,
            );
            let rest = lemma_search_has_run(
                b,
                candidates[0],
                (current_depth + 1) as u8,
                names + names_of_issuer(candidates[0])->Ok_0,
                left,
                found,
                kept,
            );
            assert(tallied(found, rest));
            if found is Err && !(found->Err_0 is FatalError) {
                lemma_candidates_have_run(
                    b,
                    work,
                    current_depth,
                    names,
                    others,
                    Some(found->Err_0),
                    rest,
                    out,
                    after,
                )
            } else {
                rest
            }
        };
        assert(answer_run(
            b,
            work,
            current_depth,
            names,
            candidates,
            answer,
            left,
            out,
            end,
        ));
        end
    } else {
        before
    }
}

/// The end of a run is an end of a search.
proof fn lemma_run_of_search<'a, B: CryptoOps, P: Profile>(
    b: ChainBuilder<'a, B, P>,
    work: VerificationCertificate<B>,
    current_depth: u8,
    names: Seq<GeneralName>,
    before: Tally,
    out: Outcome<B>,
    after: Tally,
)
    requires
        has_extensions(work),
        search_run(b, work, current_depth, names, before, out, after),
    ensures
        b.search_outcome(
            work,
            current_depth,
            extensions_of(work),
            names,
            before.left,
            out,
            after.left,
        ),
    decreases 255 - current_depth, 1int, 0int,
{
    let extensions = extensions_of(work);
    let checked = constraints_outcome(extensions, names, before.left).0;
    let here = names_checked(extensions, names, before);
    if checked is Ok && !b.store.trusts(work) && current_depth <= b.policy.max_chain_depth {
        lemma_run_of_candidates(
            b,
            work,
            current_depth,
            names,
            b.issuers(work, extensions),
            None,
            here,
            out,
            after,
        );
    }
}

/// The end of a run is an end of trying candidates.
proof fn lemma_run_of_candidates<'a, B: CryptoOps, P: Profile>(
    b: ChainBuilder<'a, B, P>,
    work: VerificationCertificate<B>,
    current_depth: u8,
    names: Seq<GeneralName>,
    candidates: Seq<VerificationCertificate<B>>,
    last: Option<ErrorView>,
    before: Tally,
    out: Outcome<B>,
    after: Tally,
)
    requires
        candidates_run(b, work, current_depth, names, candidates, last, before, out, after),
    ensures
        b.candidates_outcome(
            work,
            current_depth,
            names,
            candidates,
            last,
            before.left,
            out,
            after.left,
        ),
    decreases 255 - current_depth, 0int, candidates.len(),
{
    if candidates.len() > 0 && has_extensions(candidates[0]) {
        let others = candidates.drop_first();
        let extensions = extensions_of(candidates[0]);
        let (answer, left) = lemma_asked(
            b,
            work,
            current_depth,
            names,
            candidates,
            last,
            before,
            out,
            after,
        );
        assert(b.policy.issuer_outcome(
            *candidates[0].cert,
            *work.cert,
            current_depth,
            extensions,
            before.left,
            answer,
            left.left,
        ));
        if answer is Err {
            lemma_run_of_candidates(
                b,
                work,
                current_depth,
                names,
                others,
                Some(answer->Err_0),
                left,
                out,
                after,
            );
        } else if current_depth < 255 && names_of_issuer(candidates[0]) is Ok {
            let (found, rest) = lemma_followed(
                b,
                work,
                current_depth,
                names,
                candidates,
                left,
                out,
                after,
            );
            lemma_run_of_search(
                b,
                candidates[0],
                (current_depth + 1) as u8,
                names + names_of_issuer(candidates[0])->Ok_0,
                left,
                found,
                rest,
            );
            if found is Err && !(found->Err_0 is FatalError) {
                lemma_run_of_candidates(
                    b,
                    work,
                    current_depth,
                    names,
                    others,
                    Some(found->Err_0),
                    rest,
                    out,
                    after,
                );
            }
            b.lemma_followed(
                work,
                current_depth,
                names,
                candidates,
                last,
                extensions,
                names_of_issuer(candidates[0])->Ok_0,
                before.left,
                left.left,
                found,
                rest.left,
                out,
                after.left,
            );
        }
    }
}

/// Whether building a chain from `leaf` may end with `out` and come from the
/// tally `before` to `after`.
pub open spec fn chain_run<'a, B: CryptoOps, P: Profile>(
    b: ChainBuilder<'a, B, P>,
    leaf: VerificationCertificate<B>,
    before: Tally,
    out: Outcome<B>,
    after: Tally,
) -> bool {
    if !has_extensions(leaf) {
        &&& out == fail::<B>(ErrorView::DuplicateExtension(leaf.cert.extensions->Err_0))
        &&& after == before
    } else {
        ||| {
            &&& out is Err
            &&& b.policy.ee_outcome(*leaf.cert, extensions_of(leaf), Err(out->Err_0))
            &&& after == before
        }
        ||| {
            &&& b.policy.ee_outcome(*leaf.cert, extensions_of(leaf), Ok(()))
            &&& names_of_leaf(leaf) is Err
            &&& out == fail::<B>(names_of_leaf(leaf)->Err_0)
            &&& after == before
        }
        ||| {
            &&& b.policy.ee_outcome(*leaf.cert, extensions_of(leaf), Ok(()))
            &&& names_of_leaf(leaf) is Ok
            &&& exists|found: Outcome<B>|
                {
                    &&& #[trigger] search_run(
                        b,
                        leaf,
                        0,
                        names_of_leaf(leaf)->Ok_0,
                        before,
                        found,
                        after,
                    )
                    &&& match found {
                        Ok(chain) => out == Outcome::<B>::Ok(chain.reverse()),
                        Err(e) => out == fail::<B>(e),
                    }
                }
        }
    }
}

/// Whether [`verify`](crate::builder::verify) may end with `out` and do the
/// work `done`.
pub open spec fn verify_run<B: CryptoOps, P: Profile>(
    leaf: VerificationCertificate<B>,
    intermediates: Vec<VerificationCertificate<B>>,
    policy: Policy<B, P>,
    store: Store<B>,
    out: Outcome<B>,
    done: Work,
) -> bool {
    let b = ChainBuilder { intermediates, policy: &policy, store: &store };
    let before = Tally { left: Budget::full(), done: no_work() };
    exists|left: Budget| chain_run(b, leaf, before, out, #[trigger] tally(left, done))
}

/// The tally with the given parts.
pub open spec fn tally(left: Budget, done: Work) -> Tally {
    Tally { left, done }
}

/// The ends of building a chain are the ends of its runs.
pub proof fn law_chain_runs<'a, B: CryptoOps, P: Profile>(
    b: ChainBuilder<'a, B, P>,
    leaf: VerificationCertificate<B>,
    before: Tally,
    out: Outcome<B>,
    left: Budget,
)
    ensures
        b.chain_outcome(leaf, before.left, out, left) <==> exists|done: Work|
            chain_run(b, leaf, before, out, #[trigger] tally(left, done)),
{
    if b.chain_outcome(leaf, before.left, out, left) {
        let found = lemma_chain_search(b, leaf, before.left, out, left);
        let end = if let Some(found) = found {
            lemma_search_has_run(b, leaf, 0, names_of_leaf(leaf)->Ok_0, before, found, left)
        } else {
            before
        };
        assert(chain_run(b, leaf, before, out, tally(left, end.done)));
    }
    if exists|done: Work| chain_run(b, leaf, before, out, #[trigger] tally(left, done)) {
        let done = choose|done: Work|
            chain_run(b, leaf, before, out, #[trigger] tally(left, done));
        let names = names_of_leaf(leaf)->Ok_0;
        assert forall|found: Outcome<B>|
            has_extensions(leaf) && #[trigger] search_run(
                b,
                leaf,
                0,
                names,
                before,
                found,
                tally(left, done),
            ) implies b.search_outcome(
            leaf,
            0,
            extensions_of(leaf),
            names,
            before.left,
            found,
            left,
        ) by {
            lemma_run_of_search(b, leaf, 0, names, before, found, tally(left, done));
        }
    }
}

/// The ends of a verification are the ends of its runs.
pub proof fn law_verify_runs<B: CryptoOps, P: Profile>(
    leaf: VerificationCertificate<B>,
    intermediates: Vec<VerificationCertificate<B>>,
    policy: Policy<B, P>,
    store: Store<B>,
    out: Outcome<B>,
)
    ensures
        verify_outcome(leaf, intermediates, policy, store, out) <==> exists|done: Work|
            #[trigger] verify_run(leaf, intermediates, policy, store, out, done),
{
    let b = ChainBuilder { intermediates, policy: &policy, store: &store };
    let before = Tally { left: Budget::full(), done: no_work() };
    if verify_outcome(leaf, intermediates, policy, store, out) {
        let left = choose|left: Budget| #[trigger]
            b.chain_outcome(leaf, Budget::full(), out, left);
        law_chain_runs(b, leaf, before, out, left);
        let done = choose|done: Work|
            chain_run(b, leaf, before, out, #[trigger] tally(left, done));
        assert(verify_run(leaf, intermediates, policy, store, out, done));
    }
    if exists|done: Work| #[trigger] verify_run(leaf, intermediates, policy, store, out, done) {
        let done = choose|done: Work| #[trigger]
            verify_run(leaf, intermediates, policy, store, out, done);
        let left = choose|left: Budget|
            chain_run(b, leaf, before, out, #[trigger] tally(left, done));
        law_chain_runs(b, leaf, before, out, left);
    }
}

/// The work of a run behind a result of a verification is bounded, failed
/// branches included and however the certificates name each other as issuers:
/// it verifies at most 128 signatures and makes at most 1,048,576 name
/// constraint checks; in it the policy is asked about issuers at most 129 times
/// as often as there are certificates to choose from, and never at a depth
/// beyond its maximum; and the depth never overflows, whatever the policy.
/// Every result has such a run. No clause bounds what the code calls beyond
/// it.
pub proof fn law_verify_work<B: CryptoOps, P: Profile>(
    leaf: VerificationCertificate<B>,
    intermediates: Vec<VerificationCertificate<B>>,
    policy: Policy<B, P>,
    store: Store<B>,
    out: Outcome<B>,
    done: Work,
)
    requires
        verify_run(leaf, intermediates, policy, store, out, done),
    ensures
        done.signatures <= 128,
        done.names <= 1_048_576,
        done.asked <= 129 * (store.certs@.len() + intermediates@.len()),
        done.deepest <= policy.max_chain_depth,
        done.overflows == 0,
{
    let b = ChainBuilder { intermediates, policy: &policy, store: &store };
    let before = Tally { left: Budget::full(), done: no_work() };
    let left = choose|left: Budget| chain_run(b, leaf, before, out, #[trigger] tally(left, done));
    let after = tally(left, done);
    if after != before {
        let names = names_of_leaf(leaf)->Ok_0;
        let found = choose|found: Outcome<B>|
            {
                &&& #[trigger] search_run(b, leaf, 0, names, before, found, after)
                &&& match found {
                    Ok(chain) => out == Outcome::<B>::Ok(chain.reverse()),
                    Err(e) => out == fail::<B>(e),
                }
            };
        lemma_search_bounded(b, leaf, 0, names, before, found, after);
        let n = pool_size(b) as int;
        let verified = 128 - left.signature_checks;
        assert(n + n * verified <= 129 * n) by (nonlinear_arith)
            requires
                n >= 0,
                verified <= 128,
        ;
    }
}

} // verus!
