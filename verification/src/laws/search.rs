//! Laws of the search for a chain.

use vstd::prelude::*;

use crate::budget::{name_constraint_limit, Budget};
use crate::builder::{constraints_outcome, fail, mentioned, verify_outcome, ChainBuilder, Outcome};
use crate::certificate::{
    self_issued, Certificate, Decoded, Extensions, GeneralName, NameConstraints,
};
use crate::error::ErrorView;
use crate::laws::errors::lemma_names_error;
use crate::laws::issuers::law_issuers_named;
use crate::laws::names::{law_check_names, obeys};
use crate::name_chain::{check_names, constrained_names};
use crate::ops::{CryptoOps, VerificationCertificate};
use crate::policy::{Policy, Profile};
use crate::trust_store::Store;

verus! {

/// The extensions of `cert`, if none occurs twice.
pub open spec fn extensions_of<B: CryptoOps>(cert: VerificationCertificate<B>) -> Extensions {
    cert.cert.extensions->Ok_0
}

/// Whether none of the extensions of `cert` occurs twice.
pub open spec fn has_extensions<B: CryptoOps>(cert: VerificationCertificate<B>) -> bool {
    cert.cert.extensions is Ok
}

/// Whether the signature on `child` may be found to be `issuer`'s.
pub open spec fn signs<B: CryptoOps, P: Profile>(
    policy: Policy<B, P>,
    issuer: Certificate,
    child: Certificate,
) -> bool {
    exists|key: Result<B::Key, B::Err>|
        {
            &&& #[trigger] call_ensures(B::public_key, (&policy.ops, &issuer), key)
            &&& key is Ok
            &&& policy.verification_outcome(child, key->Ok_0, true)
        }
}

/// Whether the policy may accept `issuer` as the issuer of `child`: it
/// conforms to the profile, and has signed the child.
pub open spec fn accepts<B: CryptoOps, P: Profile>(
    policy: Policy<B, P>,
    issuer: VerificationCertificate<B>,
    child: VerificationCertificate<B>,
    current_depth: u8,
) -> bool {
    &&& policy.ca_outcome(*issuer.cert, current_depth, extensions_of(issuer), Ok(()))
    &&& signs(policy, *issuer.cert, *child.cert)
}

/// Whether `names` pass the name constraints among the extensions, if there
/// are any.
pub open spec fn constraints_pass(extensions: Extensions, names: Seq<GeneralName>) -> bool {
    match extensions.name_constraints {
        None => true,
        Some(Err(_)) => false,
        Some(Ok(constraints)) => check_names(names, constraints).1 is Ok,
    }
}

/// The names of an issuer that its own issuers may constrain.
pub open spec fn names_of_issuer<B: CryptoOps>(issuer: VerificationCertificate<B>) -> Result<
    Seq<GeneralName>,
    ErrorView,
> {
    constrained_names(extensions_of(issuer), self_issued(*issuer.cert))
}

/// Whether `path` is an acceptable chain, the certificate nearest to the leaf
/// first, that starts with `current_depth` certificates below it and with the
/// names `names` in force: the names pass the constraints of its first
/// certificate; and either that is the only one and is trusted, or it is not
/// trusted, and the rest of the path continues from it.
pub open spec fn acceptable<'a, B: CryptoOps, P: Profile>(
    b: ChainBuilder<'a, B, P>,
    path: Seq<VerificationCertificate<B>>,
    current_depth: u8,
    names: Seq<GeneralName>,
) -> bool
    decreases path.len(), 0int,
{
    &&& path.len() > 0
    &&& has_extensions(path[0])
    &&& constraints_pass(extensions_of(path[0]), names)
    &&& if path.len() == 1 {
        b.store.trusts(path[0])
    } else {
        &&& !b.store.trusts(path[0])
        &&& current_depth <= b.policy.max_chain_depth
        &&& continues(
            b,
            path[0],
            current_depth,
            names,
            b.issuers(path[0], extensions_of(path[0])),
            path.drop_first(),
        )
    }
}

/// Whether `path` is an acceptable continuation of a chain that has come to
/// `work`, by way of one of the `candidates`.
pub open spec fn continues<'a, B: CryptoOps, P: Profile>(
    b: ChainBuilder<'a, B, P>,
    work: VerificationCertificate<B>,
    current_depth: u8,
    names: Seq<GeneralName>,
    candidates: Seq<VerificationCertificate<B>>,
    path: Seq<VerificationCertificate<B>>,
) -> bool
    decreases path.len(), 1int,
{
    &&& path.len() > 0
    &&& current_depth < 255
    &&& candidates.contains(path[0])
    &&& has_extensions(path[0])
    &&& accepts(*b.policy, path[0], work, current_depth)
    &&& names_of_issuer(path[0]) is Ok
    &&& acceptable(b, path, (current_depth + 1) as u8, names + names_of_issuer(path[0])->Ok_0)
}

/// What follows from the policy's answer on an issuer.
pub proof fn lemma_answer<B: CryptoOps, P: Profile>(
    policy: Policy<B, P>,
    issuer: VerificationCertificate<B>,
    child: VerificationCertificate<B>,
    current_depth: u8,
    before: Budget,
    answer: Result<(), ErrorView>,
    after: Budget,
)
    requires
        policy.issuer_outcome(
            *issuer.cert,
            *child.cert,
            current_depth,
            extensions_of(issuer),
            before,
            answer,
            after,
        ),
    ensures
        after.name_constraint_checks == before.name_constraint_checks,
        after.signature_checks <= before.signature_checks,
        answer is Ok ==> after.signature_checks + 1 == before.signature_checks && accepts(
            policy,
            issuer,
            child,
            current_depth,
        ),
{
}

/// The answer of the policy on the first candidate, and the budget that this
/// leaves, behind an end of trying candidates.
pub proof fn lemma_answered<'a, B: CryptoOps, P: Profile>(
    b: ChainBuilder<'a, B, P>,
    work: VerificationCertificate<B>,
    current_depth: u8,
    names: Seq<GeneralName>,
    candidates: Seq<VerificationCertificate<B>>,
    last: Option<ErrorView>,
    before: Budget,
    out: Outcome<B>,
    after: Budget,
) -> (r: (Result<(), ErrorView>, Budget))
    requires
        candidates.len() > 0,
        has_extensions(candidates[0]),
        b.candidates_outcome(work, current_depth, names, candidates, last, before, out, after),
    ensures
        b.policy.issuer_outcome(
            *candidates[0].cert,
            *work.cert,
            current_depth,
            extensions_of(candidates[0]),
            before,
            r.0,
            r.1,
        ),
        b.answer_outcome(
            work,
            current_depth,
            names,
            candidates,
            extensions_of(candidates[0]),
            r.0,
            r.1,
            out,
            after,
        ),
{
    let extensions = extensions_of(candidates[0]);
    choose|answer: Result<(), ErrorView>, left: Budget|
        {
            &&& #[trigger] b.policy.issuer_outcome(
                *candidates[0].cert,
                *work.cert,
                current_depth,
                extensions,
                before,
                answer,
                left,
            )
            &&& b.answer_outcome(
                work,
                current_depth,
                names,
                candidates,
                extensions,
                answer,
                left,
                out,
                after,
            )
        }
}

/// The end of the search from the first candidate, which the policy has
/// accepted, and the budget that this leaves, behind an end of trying
/// candidates.
pub proof fn lemma_found<'a, B: CryptoOps, P: Profile>(
    b: ChainBuilder<'a, B, P>,
    work: VerificationCertificate<B>,
    current_depth: u8,
    names: Seq<GeneralName>,
    candidates: Seq<VerificationCertificate<B>>,
    before: Budget,
    out: Outcome<B>,
    after: Budget,
) -> (r: (Outcome<B>, Budget))
    requires
        candidates.len() > 0,
        current_depth < 255,
        names_of_issuer(candidates[0]) is Ok,
        b.answer_outcome(
            work,
            current_depth,
            names,
            candidates,
            extensions_of(candidates[0]),
            Ok(()),
            before,
            out,
            after,
        ),
    ensures
        b.search_outcome(
            candidates[0],
            (current_depth + 1) as u8,
            extensions_of(candidates[0]),
            names + names_of_issuer(candidates[0])->Ok_0,
            before,
            r.0,
            r.1,
        ),
        b.found_outcome(work, current_depth, names, candidates, r.0, r.1, out, after),
{
    let extensions = extensions_of(candidates[0]);
    let own = names_of_issuer(candidates[0])->Ok_0;
    choose|found: Outcome<B>, rest: Budget|
        {
            &&& #[trigger] mentioned(found, rest)
            &&& b.search_outcome(
                candidates[0],
                (current_depth + 1) as u8,
                extensions,
                names + own,
                before,
                found,
                rest,
            )
            &&& b.found_outcome(
                work,
                current_depth,
                names,
                candidates,
                found,
                rest,
                out,
                after,
            )
        }
}

/// What holds of every end of a search.
pub open spec fn search_facts<'a, B: CryptoOps, P: Profile>(
    b: ChainBuilder<'a, B, P>,
    work: VerificationCertificate<B>,
    current_depth: u8,
    names: Seq<GeneralName>,
    before: Budget,
    out: Outcome<B>,
    after: Budget,
) -> bool {
    &&& after.name_constraint_checks <= before.name_constraint_checks
    &&& after.signature_checks <= before.signature_checks
    &&& match out {
        Ok(chain) => {
            &&& chain.len() > 0
            &&& chain.last() == work
            &&& acceptable(b, chain.reverse(), current_depth, names)
            &&& chain.len() - 1 + after.signature_checks <= before.signature_checks
        },
        Err(ErrorView::FatalError(text)) => {
            &&& ErrorView::FatalError(text) == name_constraint_limit()
            &&& after.name_constraint_checks == 0
        },
        Err(_) => true,
    }
}

/// What holds of every end of trying candidates.
pub open spec fn candidates_facts<'a, B: CryptoOps, P: Profile>(
    b: ChainBuilder<'a, B, P>,
    work: VerificationCertificate<B>,
    current_depth: u8,
    names: Seq<GeneralName>,
    candidates: Seq<VerificationCertificate<B>>,
    before: Budget,
    out: Outcome<B>,
    after: Budget,
) -> bool {
    &&& after.name_constraint_checks <= before.name_constraint_checks
    &&& after.signature_checks <= before.signature_checks
    &&& match out {
        Ok(chain) => {
            &&& chain.len() > 1
            &&& chain.last() == work
            &&& continues(
                b,
                work,
                current_depth,
                names,
                candidates,
                chain.drop_last().reverse(),
            )
            &&& chain.len() - 1 + after.signature_checks <= before.signature_checks
        },
        Err(ErrorView::FatalError(text)) => {
            &&& ErrorView::FatalError(text) == name_constraint_limit()
            &&& after.name_constraint_checks == 0
        },
        Err(_) => true,
    }
}

/// Every end of a search is as `search_facts` says.
pub proof fn lemma_search_facts<'a, B: CryptoOps, P: Profile>(
    b: ChainBuilder<'a, B, P>,
    work: VerificationCertificate<B>,
    current_depth: u8,
    names: Seq<GeneralName>,
    before: Budget,
    out: Outcome<B>,
    after: Budget,
)
    requires
        has_extensions(work),
        b.search_outcome(
            work,
            current_depth,
            extensions_of(work),
            names,
            before,
            out,
            after,
        ),
    ensures
        search_facts(b, work, current_depth, names, before, out, after),
    decreases 255 - current_depth, 1int, 0int,
{
    let extensions = extensions_of(work);
    if let Some(Ok(constraints)) = extensions.name_constraints {
        lemma_names_error(names, constraints);
    }
    let (checked, left) = constraints_outcome(extensions, names, before);
    if checked is Ok && !b.store.trusts(work) && current_depth <= b.policy.max_chain_depth {
        lemma_candidates_facts(
            b,
            work,
            current_depth,
            names,
            b.issuers(work, extensions),
            None,
            left,
            out,
            after,
        );
        if let Ok(chain) = out {
            assert(chain.reverse().drop_first() =~= chain.drop_last().reverse());
        }
    }
}

/// Every end of trying candidates is as `candidates_facts` says.
pub proof fn lemma_candidates_facts<'a, B: CryptoOps, P: Profile>(
    b: ChainBuilder<'a, B, P>,
    work: VerificationCertificate<B>,
    current_depth: u8,
    names: Seq<GeneralName>,
    candidates: Seq<VerificationCertificate<B>>,
    last: Option<ErrorView>,
    before: Budget,
    out: Outcome<B>,
    after: Budget,
)
    requires
        b.candidates_outcome(work, current_depth, names, candidates, last, before, out, after),
    ensures
        candidates_facts(b, work, current_depth, names, candidates, before, out, after),
    decreases 255 - current_depth, 0int, candidates.len(),
{
    if candidates.len() > 0 && has_extensions(candidates[0]) {
        let issuer = candidates[0];
        let others = candidates.drop_first();
        let (answer, left) = lemma_answered(
            b,
            work,
            current_depth,
            names,
            candidates,
            last,
            before,
            out,
            after,
        );
        lemma_answer(*b.policy, issuer, work, current_depth, before, answer, left);
        match answer {
            Err(e) => {
                lemma_candidates_facts(
                    b,
                    work,
                    current_depth,
                    names,
                    others,
                    Some(e),
                    left,
                    out,
                    after,
                );
            },
            Ok(_) => {
                if current_depth < 255 && names_of_issuer(issuer) is Ok {
                    let own = names_of_issuer(issuer)->Ok_0;
                    let (found, rest) = lemma_found(
                        b,
                        work,
                        current_depth,
                        names,
                        candidates,
                        left,
                        out,
                        after,
                    );
                    lemma_search_facts(
                        b,
                        issuer,
                        (current_depth + 1) as u8,
                        names + own,
                        left,
                        found,
                        rest,
                    );
                    match found {
                        Ok(chain) => {
                            assert(chain.push(work).drop_last() =~= chain);
                        },
                        Err(ErrorView::FatalError(_)) => {},
                        Err(e) => {
                            lemma_candidates_facts(
                                b,
                                work,
                                current_depth,
                                names,
                                others,
                                Some(e),
                                rest,
                                out,
                                after,
                            );
                        },
                    }
                }
            },
        }
    }
}

/// The names in force at the `i`-th certificate of `path`, where `names` are
/// in force at the first: those of every certificate up to it that its issuers
/// may constrain.
pub open spec fn names_in_force<B: CryptoOps>(
    path: Seq<VerificationCertificate<B>>,
    names: Seq<GeneralName>,
    i: int,
) -> Seq<GeneralName>
    decreases i,
{
    if i <= 0 {
        names
    } else {
        names_in_force(path, names, i - 1) + names_of_issuer(path[i])->Ok_0
    }
}

/// Whether `issuer` may follow `child` in a chain with `depth` certificates
/// between the child and the leaf: it is trusted or one of the intermediates,
/// the child names it as its issuer, its extensions can be read, it conforms
/// to the policy, and it has signed the child.
pub open spec fn issued_by<'a, B: CryptoOps, P: Profile>(
    b: ChainBuilder<'a, B, P>,
    child: VerificationCertificate<B>,
    issuer: VerificationCertificate<B>,
    depth: int,
) -> bool {
    &&& b.store.certs@.contains(issuer) || b.intermediates@.contains(issuer)
    &&& issuer.cert.subject@ == child.cert.issuer@
    &&& has_extensions(issuer)
    &&& names_of_issuer(issuer) is Ok
    &&& accepts(*b.policy, issuer, child, depth as u8)
}

/// Whether `path` is a valid chain, the certificate nearest to the leaf first,
/// that starts with `current_depth` certificates below it and with the names
/// `names` in force: it ends with the first of its certificates that is
/// trusted, it is no longer than the policy allows, each of its certificates
/// is issued by the next, and the names in force at each pass its name
/// constraints.
pub open spec fn valid_path<'a, B: CryptoOps, P: Profile>(
    b: ChainBuilder<'a, B, P>,
    path: Seq<VerificationCertificate<B>>,
    current_depth: u8,
    names: Seq<GeneralName>,
) -> bool {
    &&& path.len() > 0
    &&& has_extensions(path[0])
    &&& b.store.trusts(path.last())
    &&& forall|i: int| 0 <= i < path.len() - 1 ==> !b.store.trusts(#[trigger] path[i])
    &&& path.len() > 1 ==> current_depth + path.len() - 2 <= b.policy.max_chain_depth
    &&& path.len() > 1 ==> current_depth + path.len() - 2 < 255
    &&& forall|i: int, j: int|
        0 <= i < path.len() - 1 && j == i + 1 ==> issued_by(
            b,
            #[trigger] path[i],
            #[trigger] path[j],
            current_depth + i,
        )
    &&& forall|i: int|
        0 <= i < path.len() ==> constraints_pass(
            extensions_of(#[trigger] path[i]),
            names_in_force(path, names, i),
        )
}

/// The names in force further up a path, counted from its second certificate.
proof fn lemma_names_in_force<B: CryptoOps>(
    path: Seq<VerificationCertificate<B>>,
    names: Seq<GeneralName>,
    i: int,
)
    requires
        path.len() > 1,
        0 <= i < path.len() - 1,
    ensures
        names_in_force(path.drop_first(), names + names_of_issuer(path[1])->Ok_0, i)
            == names_in_force(path, names, i + 1),
    decreases i,
{
    if i > 0 {
        lemma_names_in_force(path, names, i - 1);
    } else {
        assert(names_in_force(path, names, 0) == names);
    }
}

/// The acceptable chains are the valid ones.
pub proof fn lemma_acceptable<'a, B: CryptoOps, P: Profile>(
    b: ChainBuilder<'a, B, P>,
    path: Seq<VerificationCertificate<B>>,
    current_depth: u8,
    names: Seq<GeneralName>,
)
    ensures
        acceptable(b, path, current_depth, names) == valid_path(b, path, current_depth, names),
    decreases path.len(),
{
    if path.len() > 1 {
        let rest = path.drop_first();
        let more = names + names_of_issuer(path[1])->Ok_0;
        law_issuers_named(b, path[0], extensions_of(path[0]), path[1]);
        assert forall|i: int| 0 <= i < rest.len() implies #[trigger] rest[i] == path[i + 1]
            && names_in_force(rest, more, i) == names_in_force(path, names, i + 1) by {
            lemma_names_in_force(path, names, i);
        }
        if current_depth < 255 {
            lemma_acceptable(b, rest, (current_depth + 1) as u8, more);
        }
        if acceptable(b, path, current_depth, names) {
            assert forall|i: int| 0 <= i < path.len() - 1 implies !b.store.trusts(
                #[trigger] path[i],
            ) by {
                if i > 0 {
                    assert(!b.store.trusts(rest[i - 1]));
                }
            }
            assert forall|i: int, j: int|
                0 <= i < path.len() - 1 && j == i + 1 implies issued_by(
                b,
                #[trigger] path[i],
                #[trigger] path[j],
                current_depth + i,
            ) by {
                if i > 0 {
                    assert(issued_by(b, rest[i - 1], rest[j - 1], current_depth + 1 + (i - 1)));
                }
            }
            assert forall|i: int| 0 <= i < path.len() implies constraints_pass(
                extensions_of(#[trigger] path[i]),
                names_in_force(path, names, i),
            ) by {
                if i > 0 {
                    assert(constraints_pass(
                        extensions_of(rest[i - 1]),
                        names_in_force(rest, more, i - 1),
                    ));
                }
            }
        }
    }
}

/// The names of a leaf that its issuers may constrain.
pub open spec fn names_of_leaf<B: CryptoOps>(leaf: VerificationCertificate<B>) -> Result<
    Seq<GeneralName>,
    ErrorView,
> {
    constrained_names(extensions_of(leaf), false)
}

/// Whether `chain` is a valid chain for `leaf`: it starts with the leaf, which
/// the profile permits as an end entity, and goes on validly from it.
pub open spec fn valid_chain<'a, B: CryptoOps, P: Profile>(
    b: ChainBuilder<'a, B, P>,
    leaf: VerificationCertificate<B>,
    chain: Seq<VerificationCertificate<B>>,
) -> bool {
    &&& has_extensions(leaf)
    &&& b.policy.ee_outcome(*leaf.cert, extensions_of(leaf), Ok(()))
    &&& names_of_leaf(leaf) is Ok
    &&& chain.len() > 0
    &&& chain[0] == leaf
    &&& valid_path(b, chain, 0, names_of_leaf(leaf)->Ok_0)
}

/// The end of building a chain is that of a search from the leaf, unless the
/// leaf is rejected first.
pub proof fn lemma_chain_search<'a, B: CryptoOps, P: Profile>(
    b: ChainBuilder<'a, B, P>,
    leaf: VerificationCertificate<B>,
    before: Budget,
    out: Outcome<B>,
    after: Budget,
) -> (found: Option<Outcome<B>>)
    requires
        b.chain_outcome(leaf, before, out, after),
    ensures
        match found {
            Some(found) => {
                &&& has_extensions(leaf)
                &&& b.policy.ee_outcome(*leaf.cert, extensions_of(leaf), Ok(()))
                &&& names_of_leaf(leaf) is Ok
                &&& b.search_outcome(
                    leaf,
                    0,
                    extensions_of(leaf),
                    names_of_leaf(leaf)->Ok_0,
                    before,
                    found,
                    after,
                )
                &&& match found {
                    Ok(chain) => out == Outcome::<B>::Ok(chain.reverse()),
                    Err(e) => out == fail::<B>(e),
                }
            },
            None => {
                &&& after == before
                &&& out is Err
                &&& has_extensions(leaf) && names_of_leaf(leaf) is Ok
                    ==> b.policy.ee_outcome(*leaf.cert, extensions_of(leaf), Err(out->Err_0))
                &&& has_extensions(leaf) ==> out->Err_0 is Malformed || b.policy.ee_outcome(
                    *leaf.cert,
                    extensions_of(leaf),
                    Err(out->Err_0),
                )
                &&& !has_extensions(leaf) ==> out->Err_0 is DuplicateExtension
            },
        },
{
    if has_extensions(leaf) {
        let extensions = extensions_of(leaf);
        let decision = choose|decision: Result<(), ErrorView>|
            {
                &&& #[trigger] b.policy.ee_outcome(*leaf.cert, extensions, decision)
                &&& match decision {
                    Err(e) => out == fail::<B>(e) && after == before,
                    Ok(_) => b.leaf_outcome(leaf, extensions, before, out, after),
                }
            };
        if decision is Ok && names_of_leaf(leaf) is Ok {
            let names = names_of_leaf(leaf)->Ok_0;
            let found = choose|found: Outcome<B>|
                {
                    &&& #[trigger] b.search_outcome(
                        leaf,
                        0,
                        extensions,
                        names,
                        before,
                        found,
                        after,
                    )
                    &&& match found {
                        Ok(chain) => out == Outcome::<B>::Ok(chain.reverse()),
                        Err(e) => out == fail::<B>(e),
                    }
                };
            Some(found)
        } else {
            None
        }
    } else {
        None
    }
}

/// A chain that is built is a valid chain for the leaf, and each of its links
/// has been paid for with a signature check.
pub proof fn law_built_chain<'a, B: CryptoOps, P: Profile>(
    b: ChainBuilder<'a, B, P>,
    leaf: VerificationCertificate<B>,
    before: Budget,
    chain: Seq<VerificationCertificate<B>>,
    after: Budget,
)
    requires
        b.chain_outcome(leaf, before, Ok(chain), after),
    ensures
        valid_chain(b, leaf, chain),
        chain.len() - 1 + after.signature_checks <= before.signature_checks,
{
    let found = lemma_chain_search(b, leaf, before, Ok(chain), after);
    let names = names_of_leaf(leaf)->Ok_0;
    let up = found->0->Ok_0;
    lemma_search_facts(b, leaf, 0, names, before, Ok(up), after);
    lemma_acceptable(b, up.reverse(), 0, names);
}

/// A chain that is verified is a valid chain for the leaf, over the given
/// intermediates, to a certificate in the store, and is at most 129
/// certificates long.
pub proof fn law_verified_chain<B: CryptoOps, P: Profile>(
    leaf: VerificationCertificate<B>,
    intermediates: Vec<VerificationCertificate<B>>,
    policy: Policy<B, P>,
    store: Store<B>,
    chain: Seq<VerificationCertificate<B>>,
)
    requires
        verify_outcome(leaf, intermediates, policy, store, Ok(chain)),
    ensures
        valid_chain(
            (ChainBuilder { intermediates, policy: &policy, store: &store }),
            leaf,
            chain,
        ),
        chain.len() <= 129,
{
    let b = ChainBuilder { intermediates, policy: &policy, store: &store };
    let after = choose|after: Budget| #[trigger]
        b.chain_outcome(leaf, Budget::full(), Ok(chain), after);
    law_built_chain(b, leaf, Budget::full(), chain, after);
}

/// Building a chain never adds to the budget.
pub proof fn law_budget_never_grows<'a, B: CryptoOps, P: Profile>(
    b: ChainBuilder<'a, B, P>,
    leaf: VerificationCertificate<B>,
    before: Budget,
    out: Outcome<B>,
    after: Budget,
)
    requires
        b.chain_outcome(leaf, before, out, after),
    ensures
        after.name_constraint_checks <= before.name_constraint_checks,
        after.signature_checks <= before.signature_checks,
{
    let found = lemma_chain_search(b, leaf, before, out, after);
    if let Some(found) = found {
        lemma_search_facts(b, leaf, 0, names_of_leaf(leaf)->Ok_0, before, found, after);
    }
}

/// A fatal error, unless it is the profile's on the leaf, says that the limit
/// on name constraint checks was reached, and comes only once the budget for
/// them is spent.
pub proof fn law_fatal_error<'a, B: CryptoOps, P: Profile>(
    b: ChainBuilder<'a, B, P>,
    leaf: VerificationCertificate<B>,
    before: Budget,
    e: ErrorView,
    after: Budget,
)
    requires
        b.chain_outcome(leaf, before, Err(e), after),
        e is FatalError,
        !b.policy.ee_outcome(*leaf.cert, extensions_of(leaf), Err(e)),
    ensures
        e == name_constraint_limit(),
        after.name_constraint_checks == 0,
{
    let found = lemma_chain_search(b, leaf, before, Err(e), after);
    if let Some(found) = found {
        lemma_search_facts(b, leaf, 0, names_of_leaf(leaf)->Ok_0, before, found, after);
    }
}

/// A leaf that is itself trusted, that the profile is sure to permit and that
/// has no name constraints of its own makes a chain by itself, whatever the
/// budget.
pub proof fn law_trusted_leaf<'a, B: CryptoOps, P: Profile>(
    b: ChainBuilder<'a, B, P>,
    leaf: VerificationCertificate<B>,
    before: Budget,
    out: Outcome<B>,
    after: Budget,
)
    requires
        b.chain_outcome(leaf, before, out, after),
        has_extensions(leaf),
        names_of_leaf(leaf) is Ok,
        extensions_of(leaf).name_constraints is None,
        b.store.trusts(leaf),
        forall|r: Result<(), ErrorView>|
            #[trigger] b.policy.ee_outcome(*leaf.cert, extensions_of(leaf), r) ==> r is Ok,
    ensures
        out == Outcome::<B>::Ok(seq![leaf]),
        after == before,
{
    let found = lemma_chain_search(b, leaf, before, out, after);
    assert(seq![leaf].reverse() =~= seq![leaf]);
}

/// On a valid chain, every name in force at a certificate obeys the name
/// constraints of that certificate.
pub proof fn law_names_obey<'a, B: CryptoOps, P: Profile>(
    b: ChainBuilder<'a, B, P>,
    path: Seq<VerificationCertificate<B>>,
    current_depth: u8,
    names: Seq<GeneralName>,
    i: int,
    constraints: NameConstraints,
    k: int,
)
    requires
        valid_path(b, path, current_depth, names),
        0 <= i < path.len(),
        extensions_of(path[i]).name_constraints == Some(
            Decoded::<NameConstraints>::Ok(constraints),
        ),
        0 <= k < names_in_force(path, names, i).len(),
    ensures
        obeys(names_in_force(path, names, i)[k], constraints),
{
    assert(constraints_pass(extensions_of(path[i]), names_in_force(path, names, i)));
    law_check_names(names_in_force(path, names, i), constraints);
}

/// The names of a self-issued intermediate are not constrained: the names in
/// force do not grow at it.
pub proof fn law_self_issued_exempt<B: CryptoOps>(
    path: Seq<VerificationCertificate<B>>,
    names: Seq<GeneralName>,
    i: int,
)
    requires
        0 < i < path.len(),
        self_issued(*path[i].cert),
    ensures
        names_in_force(path, names, i) == names_in_force(path, names, i - 1),
{
}

} // verus!
