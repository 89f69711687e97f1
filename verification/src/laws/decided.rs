//! Laws of path construction under a policy that always decides the same way.

use vstd::prelude::*;

use crate::budget::Budget;
use crate::builder::{constraints_outcome, verify_outcome, ChainBuilder, Outcome};
use crate::certificate::{Certificate, Extensions, GeneralName};
use crate::error::ErrorView;
use crate::laws::issuers::law_issuers_named;
use crate::laws::search::{
    acceptable, accepts, continues, extensions_of, has_extensions, lemma_acceptable, lemma_answer,
    lemma_answered, lemma_candidates_facts, lemma_chain_search, lemma_found, names_of_issuer,
    names_of_leaf, valid_chain,
};
use crate::ops::{CryptoOps, VerificationCertificate};
use crate::policy::{Policy, Profile};
use crate::trust_store::Store;

verus! {

/// Whether the policy always decides the same way: the profile on the same
/// certificate, and the cryptography on the same key and signature.
pub open spec fn decided<B: CryptoOps, P: Profile>(policy: Policy<B, P>) -> bool {
    &&& forall|
        cert: Certificate,
        extensions: Extensions,
        r1: Result<(), ErrorView>,
        r2: Result<(), ErrorView>,
    |
        #[trigger] policy.ee_outcome(cert, extensions, r1) && #[trigger] policy.ee_outcome(
            cert,
            extensions,
            r2,
        ) ==> r1 == r2
    &&& forall|
        cert: Certificate,
        current_depth: u8,
        extensions: Extensions,
        r1: Result<(), ErrorView>,
        r2: Result<(), ErrorView>,
    |
        #[trigger] policy.ca_outcome(cert, current_depth, extensions, r1)
            && #[trigger] policy.ca_outcome(cert, current_depth, extensions, r2) ==> r1 == r2
    &&& forall|cert: Certificate, k1: Result<B::Key, B::Err>, k2: Result<B::Key, B::Err>|
        #[trigger] call_ensures(B::public_key, (&policy.ops, &cert), k1)
            && #[trigger] call_ensures(B::public_key, (&policy.ops, &cert), k2) ==> {
            &&& (k1 is Ok) == (k2 is Ok)
            &&& k1 is Ok ==> k1 == k2
        }
    &&& forall|cert: Certificate, key: B::Key|
        !(#[trigger] policy.verification_outcome(cert, key, true) && policy.verification_outcome(
            cert,
            key,
            false,
        ))
}

/// A policy that is decided gives one answer on an issuer.
proof fn lemma_answer_unique<B: CryptoOps, P: Profile>(
    policy: Policy<B, P>,
    issuer: VerificationCertificate<B>,
    child: VerificationCertificate<B>,
    current_depth: u8,
    before: Budget,
    a1: Result<(), ErrorView>,
    l1: Budget,
    a2: Result<(), ErrorView>,
    l2: Budget,
)
    requires
        decided(policy),
        policy.issuer_outcome(
            *issuer.cert,
            *child.cert,
            current_depth,
            extensions_of(issuer),
            before,
            a1,
            l1,
        ),
        policy.issuer_outcome(
            *issuer.cert,
            *child.cert,
            current_depth,
            extensions_of(issuer),
            before,
            a2,
            l2,
        ),
    ensures
        a1 == a2,
        l1 == l2,
{
    if a1 is Ok && a2 is Ok {
        assert(a1->Ok_0 == a2->Ok_0);
    }
}

/// Under a policy that is decided a search has one end.
proof fn lemma_search_unique<'a, B: CryptoOps, P: Profile>(
    b: ChainBuilder<'a, B, P>,
    work: VerificationCertificate<B>,
    current_depth: u8,
    names: Seq<GeneralName>,
    before: Budget,
    out1: Outcome<B>,
    after1: Budget,
    out2: Outcome<B>,
    after2: Budget,
)
    requires
        decided(*b.policy),
        has_extensions(work),
        b.search_outcome(
            work,
            current_depth,
            extensions_of(work),
            names,
            before,
            out1,
            after1,
        ),
        b.search_outcome(
            work,
            current_depth,
            extensions_of(work),
            names,
            before,
            out2,
            after2,
        ),
    ensures
        out1 == out2,
        after1 == after2,
    decreases 255 - current_depth, 1int, 0int,
{
    let extensions = extensions_of(work);
    let (checked, left) = constraints_outcome(extensions, names, before);
    if checked is Ok && !b.store.trusts(work) && current_depth <= b.policy.max_chain_depth {
        lemma_candidates_unique(
            b,
            work,
            current_depth,
            names,
            b.issuers(work, extensions),
            None,
            left,
            out1,
            after1,
            out2,
            after2,
        );
    }
}

/// Under a policy that is decided, trying candidates has one end.
proof fn lemma_candidates_unique<'a, B: CryptoOps, P: Profile>(
    b: ChainBuilder<'a, B, P>,
    work: VerificationCertificate<B>,
    current_depth: u8,
    names: Seq<GeneralName>,
    candidates: Seq<VerificationCertificate<B>>,
    last: Option<ErrorView>,
    before: Budget,
    out1: Outcome<B>,
    after1: Budget,
    out2: Outcome<B>,
    after2: Budget,
)
    requires
        decided(*b.policy),
        b.candidates_outcome(work, current_depth, names, candidates, last, before, out1, after1),
        b.candidates_outcome(work, current_depth, names, candidates, last, before, out2, after2),
    ensures
        out1 == out2,
        after1 == after2,
    decreases 255 - current_depth, 0int, candidates.len(),
{
    if candidates.len() > 0 && has_extensions(candidates[0]) {
        let issuer = candidates[0];
        let others = candidates.drop_first();
        let (answer, left) = lemma_answered(
            b,
            work,
            current_depth,
            names,
            candidates,
            last,
            before,
            out1,
            after1,
        );
        let (answer2, left2) = lemma_answered(
            b,
            work,
            current_depth,
            names,
            candidates,
            last,
            before,
            out2,
            after2,
        );
        lemma_answer_unique(
            *b.policy,
            issuer,
            work,
            current_depth,
            before,
            answer,
            left,
            answer2,
            left2,
        );
        match answer {
            Err(e) => {
                lemma_candidates_unique(
                    b,
                    work,
                    current_depth,
                    names,
                    others,
                    Some(e),
                    left,
                    out1,
                    after1,
                    out2,
                    after2,
                );
            },
            Ok(_) => {
                if current_depth < 255 && names_of_issuer(issuer) is Ok {
                    let (found, rest) = lemma_found(
                        b,
                        work,
                        current_depth,
                        names,
                        candidates,
                        left,
                        out1,
                        after1,
                    );
                    let (found2, rest2) = lemma_found(
                        b,
                        work,
                        current_depth,
                        names,
                        candidates,
                        left,
                        out2,
                        after2,
                    );
                    lemma_search_unique(
                        b,
                        issuer,
                        (current_depth + 1) as u8,
                        names + names_of_issuer(issuer)->Ok_0,
                        left,
                        found,
                        rest,
                        found2,
                        rest2,
                    );
                    if let Err(e) = found {
                        if !(e is FatalError) {
                            lemma_candidates_unique(
                                b,
                                work,
                                current_depth,
                                names,
                                others,
                                Some(e),
                                rest,
                                out1,
                                after1,
                                out2,
                                after2,
                            );
                        }
                    }
                }
            },
        }
    }
}

/// Under a policy that is decided, a chain is built in one way only: the same
/// inputs give the same chain or error, and leave the same budget.
pub proof fn law_build_unique<'a, B: CryptoOps, P: Profile>(
    b: ChainBuilder<'a, B, P>,
    leaf: VerificationCertificate<B>,
    before: Budget,
    out1: Outcome<B>,
    after1: Budget,
    out2: Outcome<B>,
    after2: Budget,
)
    requires
        decided(*b.policy),
        b.chain_outcome(leaf, before, out1, after1),
        b.chain_outcome(leaf, before, out2, after2),
    ensures
        out1 == out2,
        after1 == after2,
{
    let found1 = lemma_chain_search(b, leaf, before, out1, after1);
    let found2 = lemma_chain_search(b, leaf, before, out2, after2);
    if found1 is Some && found2 is Some {
        lemma_search_unique(
            b,
            leaf,
            0,
            names_of_leaf(leaf)->Ok_0,
            before,
            found1->0,
            after1,
            found2->0,
            after2,
        );
    }
}

/// Under a policy that is decided, verification is a function of its inputs.
pub proof fn law_verify_unique<B: CryptoOps, P: Profile>(
    leaf: VerificationCertificate<B>,
    intermediates: Vec<VerificationCertificate<B>>,
    policy: Policy<B, P>,
    store: Store<B>,
    out1: Outcome<B>,
    out2: Outcome<B>,
)
    requires
        decided(policy),
        verify_outcome(leaf, intermediates, policy, store, out1),
        verify_outcome(leaf, intermediates, policy, store, out2),
    ensures
        out1 == out2,
{
    let b = ChainBuilder { intermediates, policy: &policy, store: &store };
    let after1 = choose|after: Budget| #[trigger]
        b.chain_outcome(leaf, Budget::full(), out1, after);
    let after2 = choose|after: Budget| #[trigger]
        b.chain_outcome(leaf, Budget::full(), out2, after);
    law_build_unique(b, leaf, Budget::full(), out1, after1, out2, after2);
}

/// Whether the extensions of `cert` can be read, as far as following it as an
/// issuer asks for.
pub open spec fn readable<B: CryptoOps>(cert: VerificationCertificate<B>) -> bool {
    has_extensions(cert) && names_of_issuer(cert) is Ok
}

/// A policy that is decided and may accept an issuer does accept it, while the
/// budget lasts.
pub proof fn lemma_accepted<B: CryptoOps, P: Profile>(
    policy: Policy<B, P>,
    issuer: VerificationCertificate<B>,
    child: VerificationCertificate<B>,
    current_depth: u8,
    before: Budget,
    answer: Result<(), ErrorView>,
    after: Budget,
)
    requires
        decided(policy),
        before.signature_checks > 0,
        accepts(policy, issuer, child, current_depth),
        policy.issuer_outcome(
            *issuer.cert,
            *child.cert,
            current_depth,
            extensions_of(issuer),
            before,
            answer,
            after,
        ),
    ensures
        answer is Ok,
{
}

/// A search that gives up with budget left has missed no acceptable chain.
proof fn lemma_search_complete<'a, B: CryptoOps, P: Profile>(
    b: ChainBuilder<'a, B, P>,
    work: VerificationCertificate<B>,
    current_depth: u8,
    names: Seq<GeneralName>,
    before: Budget,
    e: ErrorView,
    after: Budget,
    path: Seq<VerificationCertificate<B>>,
)
    requires
        decided(*b.policy),
        forall|c: VerificationCertificate<B>|
            b.store.certs@.contains(c) || b.intermediates@.contains(c) ==> #[trigger] readable(c),
        has_extensions(work),
        b.search_outcome(
            work,
            current_depth,
            extensions_of(work),
            names,
            before,
            Err(e),
            after,
        ),
        !(e is FatalError),
        after.signature_checks > 0,
        path.len() > 0,
        path[0] == work,
    ensures
        !acceptable(b, path, current_depth, names),
    decreases 255 - current_depth, 1int, 0int,
{
    let extensions = extensions_of(work);
    let (checked, left) = constraints_outcome(extensions, names, before);
    if checked is Ok && !b.store.trusts(work) && current_depth <= b.policy.max_chain_depth {
        let candidates = b.issuers(work, extensions);
        assert forall|c: VerificationCertificate<B>| candidates.contains(c) implies #[trigger]
            readable(c) by {
            law_issuers_named(b, work, extensions, c);
        }
        lemma_candidates_complete(
            b,
            work,
            current_depth,
            names,
            candidates,
            None,
            left,
            e,
            after,
            path.drop_first(),
        );
    }
}

/// Trying candidates that ends with budget left has missed no acceptable
/// chain.
proof fn lemma_candidates_complete<'a, B: CryptoOps, P: Profile>(
    b: ChainBuilder<'a, B, P>,
    work: VerificationCertificate<B>,
    current_depth: u8,
    names: Seq<GeneralName>,
    candidates: Seq<VerificationCertificate<B>>,
    last: Option<ErrorView>,
    before: Budget,
    e: ErrorView,
    after: Budget,
    path: Seq<VerificationCertificate<B>>,
)
    requires
        decided(*b.policy),
        forall|c: VerificationCertificate<B>|
            b.store.certs@.contains(c) || b.intermediates@.contains(c) ==> #[trigger] readable(c),
        forall|c: VerificationCertificate<B>| candidates.contains(c) ==> #[trigger] readable(c),
        b.candidates_outcome(work, current_depth, names, candidates, last, before, Err(e), after),
        !(e is FatalError),
        after.signature_checks > 0,
    ensures
        !continues(b, work, current_depth, names, candidates, path),
    decreases 255 - current_depth, 0int, candidates.len(),
{
    let out: Outcome<B> = Err(e);
    lemma_candidates_facts(b, work, current_depth, names, candidates, last, before, out, after);
    if candidates.len() > 0 && continues(b, work, current_depth, names, candidates, path) {
        let issuer = candidates[0];
        let others = candidates.drop_first();
        assert(readable(issuer));
        if path[0] != issuer {
            let j = choose|j: int| 0 <= j < candidates.len() && candidates[j] == path[0];
            assert(others[j - 1] == path[0]);
        }
        let (answer, left) = lemma_answered(
            b,
            work,
            current_depth,
            names,
            candidates,
            last,
            before,
            out,
            after,
        );
        lemma_answer(*b.policy, issuer, work, current_depth, before, answer, left);
        match answer {
            Err(e1) => {
                if path[0] == issuer {
                    lemma_accepted(
                        *b.policy,
                        issuer,
                        work,
                        current_depth,
                        before,
                        answer,
                        left,
                    );
                }
                lemma_candidates_complete(
                    b,
                    work,
                    current_depth,
                    names,
                    others,
                    Some(e1),
                    left,
                    e,
                    after,
                    path,
                );
            },
            Ok(_) => {
                let own = names_of_issuer(issuer)->Ok_0;
                let (found, rest) = lemma_found(
                    b,
                    work,
                    current_depth,
                    names,
                    candidates,
                    left,
                    out,
                    after,
                );
                let e1 = found->Err_0;
                lemma_candidates_complete(
                    b,
                    work,
                    current_depth,
                    names,
                    others,
                    Some(e1),
                    rest,
                    e,
                    after,
                    path,
                );
                if path[0] == issuer {
                    lemma_candidates_facts(
                        b,
                        work,
                        current_depth,
                        names,
                        others,
                        Some(e1),
                        rest,
                        out,
                        after,
                    );
                    lemma_search_complete(
                        b,
                        issuer,
                        (current_depth + 1) as u8,
                        names + own,
                        left,
                        e1,
                        rest,
                        path,
                    );
                }
            },
        }
    }
}

/// A search that fails has missed no valid chain, under a policy that is
/// decided, over certificates whose extensions can be read, and as long as it
/// was not cut short: neither by a fatal error nor because the signature
/// checks ran out.
pub proof fn law_failure_justified<'a, B: CryptoOps, P: Profile>(
    b: ChainBuilder<'a, B, P>,
    leaf: VerificationCertificate<B>,
    before: Budget,
    e: ErrorView,
    after: Budget,
    chain: Seq<VerificationCertificate<B>>,
)
    requires
        decided(*b.policy),
        forall|c: VerificationCertificate<B>|
            b.store.certs@.contains(c) || b.intermediates@.contains(c) ==> #[trigger] readable(c),
        b.chain_outcome(leaf, before, Err(e), after),
        !(e is FatalError),
        after.signature_checks > 0,
    ensures
        !valid_chain(b, leaf, chain),
{
    if valid_chain(b, leaf, chain) {
        let found = lemma_chain_search(b, leaf, before, Err(e), after);
        let names = names_of_leaf(leaf)->Ok_0;
        lemma_acceptable(b, chain, 0, names);
        lemma_search_complete(b, leaf, 0, names, before, e, after, chain);
    }
}

} // verus!
