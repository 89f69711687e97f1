//! The search for a chain.

use vstd::prelude::*;

use crate::budget::Budget;
use crate::certificate::{bytes_eq, cert_is_self_issued, self_issued, Extensions, GeneralName};
use crate::error::{
    exhausted_view, option_view, DuplicateExtensionsError, ErrorView, ValidationError,
};
use crate::name_chain::{all_names, charged, check_names, constrained_names, own_names, NameChain};
use crate::ops::{CryptoOps, VerificationCertificate};
use crate::policy::{Policy, Profile};
use crate::trust_store::{filter_by_subject, with_subject, Store};

verus! {

/// A chain of certificates, each issued by the next.
pub type Chain<B> = Vec<VerificationCertificate<B>>;

/// Builds a chain from `leaf` to one of the trust anchors in `store`, over the
/// untrusted `intermediates`, that satisfies `policy`.
pub fn verify<B: CryptoOps, P: Profile>(
    leaf: &VerificationCertificate<B>,
    intermediates: Vec<VerificationCertificate<B>>,
    policy: &Policy<B, P>,
    store: &Store<B>,
) -> (r: Result<Chain<B>, ValidationError>)
    ensures
        verify_outcome(*leaf, intermediates, *policy, *store, chain_view(r)),
{
    let builder = ChainBuilder::new(intermediates, policy, store);
    let mut budget = Budget::new();
    builder.build_chain(leaf, &mut budget)
}

/// Whether [`verify`] may end with `out`.
pub open spec fn verify_outcome<B: CryptoOps, P: Profile>(
    leaf: VerificationCertificate<B>,
    intermediates: Vec<VerificationCertificate<B>>,
    policy: Policy<B, P>,
    store: Store<B>,
    out: Outcome<B>,
) -> bool {
    let builder = ChainBuilder { intermediates, policy: &policy, store: &store };
    exists|after: Budget| #[trigger] builder.chain_outcome(leaf, Budget::full(), out, after)
}

/// `r` as a sequence of certificates, or the view of its error.
pub open spec fn chain_view<B: CryptoOps>(r: Result<Chain<B>, ValidationError>) -> Outcome<B> {
    match r {
        Ok(chain) => Ok(chain@),
        Err(e) => Err(e@),
    }
}

/// A chain of certificates, or the view of an error.
pub type Outcome<B> = Result<Seq<VerificationCertificate<B>>, ErrorView>;

/// The outcome with the error `e`.
pub open spec fn fail<B: CryptoOps>(e: ErrorView) -> Outcome<B> {
    Err(e)
}

/// Holds of every outcome and budget; mentions the two.
pub open spec fn mentioned<B: CryptoOps>(out: Outcome<B>, after: Budget) -> bool {
    true
}

/// What holding the names of a chain to the name constraints of a certificate
/// gives, and the budget that this leaves of `before`.
pub open spec fn constraints_outcome(
    extensions: Extensions,
    names: Seq<GeneralName>,
    before: Budget,
) -> (Result<(), ErrorView>, Budget) {
    match extensions.name_constraints {
        None => (Ok(()), before),
        Some(Err(e)) => (Err(ErrorView::Malformed(*e)), before),
        Some(Ok(constraints)) => charged(before, check_names(names, constraints)),
    }
}

/// How unlikely a certificate whose key has the identifier `have` is to have
/// issued one that was signed by the key with the identifier `want`: 0 if the
/// two are the same, 2 if they are not, and 1 if that cannot be told.
pub open spec fn unlikeliness(want: Option<Seq<u8>>, have: Option<Seq<u8>>) -> u8 {
    match (want, have) {
        (Some(want), Some(have)) => if want == have {
            0
        } else {
            2
        },
        _ => 1,
    }
}

/// How unlikely a certificate whose key has the identifier `have` is to have
/// issued one that was signed by the key with the identifier `want`.
pub fn rate_candidate(want: Option<&[u8]>, have: Option<&[u8]>) -> (r: u8)
    ensures
        r == unlikeliness(
            match want {
                Some(id) => Some(id@),
                None => None,
            },
            match have {
                Some(id) => Some(id@),
                None => None,
            },
        ),
{
    match (want, have) {
        (Some(want), Some(have)) => if bytes_eq(want, have) {
            0
        } else {
            2
        },
        _ => 1,
    }
}

/// The identifier of the key of `cert`, as far as the certificate says.
pub open spec fn subject_key<B: CryptoOps>(cert: VerificationCertificate<B>) -> Option<Seq<u8>> {
    match cert.cert.extensions {
        Ok(extensions) => extensions.spec_subject_key(),
        Err(_) => None,
    }
}

/// The certificates among `candidates` with the given rate, in their order.
pub open spec fn rated<B: CryptoOps>(
    candidates: Seq<VerificationCertificate<B>>,
    want: Option<Seq<u8>>,
    rate: u8,
) -> Seq<VerificationCertificate<B>> {
    candidates.filter(
        |c: VerificationCertificate<B>| unlikeliness(want, subject_key(c)) == rate,
    )
}

/// Searches for chains.
pub struct ChainBuilder<'a, B: CryptoOps, P: Profile> {
    pub intermediates: Vec<VerificationCertificate<B>>,
    pub policy: &'a Policy<B, P>,
    pub store: &'a Store<B>,
}

impl<'a, B: CryptoOps, P: Profile> ChainBuilder<'a, B, P> {
    /// The builder with the given parts.
    pub fn new(
        intermediates: Vec<VerificationCertificate<B>>,
        policy: &'a Policy<B, P>,
        store: &'a Store<B>,
    ) -> (r: ChainBuilder<'a, B, P>)
        ensures
            r == (ChainBuilder { intermediates, policy, store }),
    {
        ChainBuilder { intermediates, policy, store }
    }

    /// The certificates that carry the name of `cert`'s issuer: first the
    /// trusted ones, then the intermediates.
    pub open spec fn named_issuers(self, cert: VerificationCertificate<B>) -> Seq<
        VerificationCertificate<B>,
    > {
        with_subject(self.store.certs@, cert.cert.issuer@) + with_subject(
            self.intermediates@,
            cert.cert.issuer@,
        )
    }

    /// The potential issuers of `cert`, in the order in which they are tried:
    /// by how unlikely they are, and among equally likely ones the trusted
    /// before the untrusted.
    pub open spec fn issuers(
        self,
        cert: VerificationCertificate<B>,
        extensions: Extensions,
    ) -> Seq<VerificationCertificate<B>> {
        let named = self.named_issuers(cert);
        let want = extensions.spec_issuer_key();
        rated(named, want, 0) + rated(named, want, 1) + rated(named, want, 2)
    }

    /// Whether the search from `work`, with `current_depth` certificates
    /// between it and the leaf and with the names `names` so far, may end with
    /// `out` and leave the budget `after` of `before`. A chain is given with
    /// the trust anchor first.
    pub open spec fn search_outcome(
        self,
        work: VerificationCertificate<B>,
        current_depth: u8,
        extensions: Extensions,
        names: Seq<GeneralName>,
        before: Budget,
        out: Outcome<B>,
        after: Budget,
    ) -> bool
        decreases 255 - current_depth, 1int, 0int, 0int,
    {
        let (checked, left) = constraints_outcome(extensions, names, before);
        match checked {
            Err(e) => out == fail::<B>(e) && after == left,
            Ok(_) => if self.store.trusts(work) {
                out == Outcome::<B>::Ok(seq![work]) && after == left
            } else if current_depth > self.policy.max_chain_depth {
                out == fail::<B>(ErrorView::Other("chain construction exceeds max depth"@)) && after
                    == left
            } else {
                self.candidates_outcome(
                    work,
                    current_depth,
                    names,
                    self.issuers(work, extensions),
                    None,
                    left,
                    out,
                    after,
                )
            },
        }
    }

    /// Whether trying `candidates` in order as issuers of `work` may end with
    /// `out` and leave the budget `after` of `before`, where `last` is the
    /// last error seen before. If there is none left to try, the last error is
    /// reported. Otherwise the policy is asked about the first.
    pub open spec fn candidates_outcome(
        self,
        work: VerificationCertificate<B>,
        current_depth: u8,
        names: Seq<GeneralName>,
        candidates: Seq<VerificationCertificate<B>>,
        last: Option<ErrorView>,
        before: Budget,
        out: Outcome<B>,
        after: Budget,
    ) -> bool
        decreases 255 - current_depth, 0int, candidates.len(), 3int,
    {
        if candidates.len() == 0 {
            out == fail::<B>(exhausted_view(last)) && after == before
        } else {
            match candidates[0].cert.extensions {
                Err(e) => out == fail::<B>(ErrorView::DuplicateExtension(e)) && after == before,
                Ok(extensions) => exists|answer: Result<(), ErrorView>, left: Budget|
                    {
                        &&& #[trigger] self.policy.issuer_outcome(
                            *candidates[0].cert,
                            *work.cert,
                            current_depth,
                            extensions,
                            before,
                            answer,
                            left,
                        )
                        &&& self.answer_outcome(
                            work,
                            current_depth,
                            names,
                            candidates,
                            extensions,
                            answer,
                            left,
                            out,
                            after,
                        )
                    },
            }
        }
    }

    /// How trying `candidates` goes on once the policy has given `answer` on
    /// the first of them, which has the given extensions. If the policy
    /// rejects it, the others are tried; otherwise the search goes on from it.
    pub open spec fn answer_outcome(
        self,
        work: VerificationCertificate<B>,
        current_depth: u8,
        names: Seq<GeneralName>,
        candidates: Seq<VerificationCertificate<B>>,
        extensions: Extensions,
        answer: Result<(), ErrorView>,
        before: Budget,
        out: Outcome<B>,
        after: Budget,
    ) -> bool
        decreases 255 - current_depth, 0int, candidates.len(), 2int,
    {
        if candidates.len() == 0 {
            false
        } else {
            match answer {
                Err(e) => self.candidates_outcome(
                    work,
                    current_depth,
                    names,
                    candidates.drop_first(),
                    Some(e),
                    before,
                    out,
                    after,
                ),
                Ok(_) => if current_depth == 255 {
                    out == fail::<B>(ErrorView::Other("current depth calculation overflowed"@))
                        && after == before
                } else {
                    match constrained_names(extensions, self_issued(*candidates[0].cert)) {
                        Err(e) => out == fail::<B>(e) && after == before,
                        Ok(own) => self.followed_outcome(
                            work,
                            current_depth,
                            names,
                            candidates,
                            extensions,
                            own,
                            before,
                            out,
                            after,
                        ),
                    }
                },
            }
        }
    }

    /// How trying `candidates` goes on once the policy has accepted the first
    /// of them, which has the given extensions and adds the names `own`: the
    /// search goes on from it.
    pub open spec fn followed_outcome(
        self,
        work: VerificationCertificate<B>,
        current_depth: u8,
        names: Seq<GeneralName>,
        candidates: Seq<VerificationCertificate<B>>,
        extensions: Extensions,
        own: Seq<GeneralName>,
        before: Budget,
        out: Outcome<B>,
        after: Budget,
    ) -> bool
        decreases 255 - current_depth, 0int, candidates.len(), 1int,
    {
        &&& candidates.len() > 0
        &&& current_depth < 255
        &&& exists|found: Outcome<B>, left: Budget|
            {
                &&& #[trigger] mentioned(found, left)
                &&& self.search_outcome(
                    candidates[0],
                    (current_depth + 1) as u8,
                    extensions,
                    names + own,
                    before,
                    found,
                    left,
                )
                &&& self.found_outcome(
                    work,
                    current_depth,
                    names,
                    candidates,
                    found,
                    left,
                    out,
                    after,
                )
            }
    }

    /// How trying `candidates` goes on once the search from the first of them
    /// has ended with `found`. A chain is completed and a fatal error is
    /// reported; after any other error the others are tried.
    pub open spec fn found_outcome(
        self,
        work: VerificationCertificate<B>,
        current_depth: u8,
        names: Seq<GeneralName>,
        candidates: Seq<VerificationCertificate<B>>,
        found: Outcome<B>,
        before: Budget,
        out: Outcome<B>,
        after: Budget,
    ) -> bool
        decreases 255 - current_depth, 0int, candidates.len(), 0int,
    {
        if candidates.len() == 0 {
            false
        } else {
            match found {
                Ok(chain) => out == Outcome::<B>::Ok(chain.push(work)) && after == before,
                Err(ErrorView::FatalError(_)) => out == found && after == before,
                Err(e) => self.candidates_outcome(
                    work,
                    current_depth,
                    names,
                    candidates.drop_first(),
                    Some(e),
                    before,
                    out,
                    after,
                ),
            }
        }
    }

    /// Whether building a chain from `leaf` may end with `out` and leave the
    /// budget `after` of `before`. A chain is given with the leaf first.
    pub open spec fn chain_outcome(
        self,
        leaf: VerificationCertificate<B>,
        before: Budget,
        out: Outcome<B>,
        after: Budget,
    ) -> bool {
        match leaf.cert.extensions {
            Err(e) => out == fail::<B>(ErrorView::DuplicateExtension(e)) && after == before,
            Ok(extensions) => exists|decision: Result<(), ErrorView>|
                {
                    &&& #[trigger] self.policy.ee_outcome(*leaf.cert, extensions, decision)
                    &&& match decision {
                        Err(e) => out == fail::<B>(e) && after == before,
                        Ok(_) => self.leaf_outcome(leaf, extensions, before, out, after),
                    }
                },
        }
    }

    /// Whether building a chain from `leaf`, which the profile permits, may
    /// end with `out` and leave the budget `after` of `before`.
    pub open spec fn leaf_outcome(
        self,
        leaf: VerificationCertificate<B>,
        extensions: Extensions,
        before: Budget,
        out: Outcome<B>,
        after: Budget,
    ) -> bool {
        match constrained_names(extensions, false) {
            Err(e) => out == fail::<B>(e) && after == before,
            Ok(names) => self.named_outcome(leaf, extensions, names, before, out, after),
        }
    }

    /// Whether building a chain from `leaf`, which the profile permits and
    /// which has the given names, may end with `out` and leave the budget
    /// `after` of `before`.
    pub open spec fn named_outcome(
        self,
        leaf: VerificationCertificate<B>,
        extensions: Extensions,
        names: Seq<GeneralName>,
        before: Budget,
        out: Outcome<B>,
        after: Budget,
    ) -> bool {
        exists|found: Outcome<B>|
            {
                &&& #[trigger] self.search_outcome(
                    leaf,
                    0,
                    extensions,
                    names,
                    before,
                    found,
                    after,
                )
                &&& match found {
                    Ok(chain) => out == Outcome::<B>::Ok(chain.reverse()),
                    Err(e) => out == fail::<B>(e),
                }
            }
    }

    /// An end of the search from the first candidate, which the policy has
    /// accepted, is an end of trying the candidates.
    pub proof fn lemma_followed(
        self,
        work: VerificationCertificate<B>,
        current_depth: u8,
        names: Seq<GeneralName>,
        candidates: Seq<VerificationCertificate<B>>,
        last: Option<ErrorView>,
        extensions: Extensions,
        own: Seq<GeneralName>,
        before: Budget,
        paid: Budget,
        found: Outcome<B>,
        rest: Budget,
        out: Outcome<B>,
        after: Budget,
    )
        requires
            candidates.len() > 0,
            candidates[0].cert.extensions == Ok::<Extensions, DuplicateExtensionsError>(extensions),
            self.policy.issuer_outcome(
                *candidates[0].cert,
                *work.cert,
                current_depth,
                extensions,
                before,
                Ok(()),
                paid,
            ),
            current_depth < 255,
            constrained_names(extensions, self_issued(*candidates[0].cert)) == Ok::<
                Seq<GeneralName>,
                ErrorView,
            >(own),
            self.search_outcome(
                candidates[0],
                (current_depth + 1) as u8,
                extensions,
                names + own,
                paid,
                found,
                rest,
            ),
            self.found_outcome(
                work,
                current_depth,
                names,
                candidates,
                found,
                rest,
                out,
                after,
            ),
        ensures
            self.candidates_outcome(
                work,
                current_depth,
                names,
                candidates,
                last,
                before,
                out,
                after,
            ),
    {
        assert(mentioned(found, rest));
        assert(self.followed_outcome(
            work,
            current_depth,
            names,
            candidates,
            extensions,
            own,
            paid,
            out,
            after,
        ));
    }

    /// The potential issuers of `cert`, from both the trusted store and the
    /// untrusted intermediates, the likelier first. Among equally likely ones
    /// the trusted come before the untrusted.
    pub fn potential_issuers<'b>(
        &'b self,
        cert: &VerificationCertificate<B>,
        cert_extensions: &Extensions,
    ) -> (r: Vec<&'b VerificationCertificate<B>>)
        ensures
            r@.unref() == self.issuers(*cert, *cert_extensions),
    {
        let issuer = cert.certificate().issuer.as_slice();
        let mut named = self.store.get_by_subject(issuer);
        let mut untrusted = filter_by_subject(&self.intermediates, issuer);
        named.append(&mut untrusted);
        let ghost all = self.named_issuers(*cert);
        let want_kid = cert_extensions.issuer_key();
        let ghost want = cert_extensions.spec_issuer_key();
        let mut likely: Vec<&'b VerificationCertificate<B>> = Vec::new();
        let mut neutral: Vec<&'b VerificationCertificate<B>> = Vec::new();
        let mut unlikely: Vec<&'b VerificationCertificate<B>> = Vec::new();
        let mut i: usize = 0;
        proof {
            reveal(Seq::filter);
        }
        while i < named.len()
            invariant
                i <= named@.len(),
                named@.unref() == all,
                want == cert_extensions.spec_issuer_key(),
                match want_kid {
                    Some(id) => want == Some(id@),
                    None => want is None,
                },
                likely@.unref() == rated(all.take(i as int), want, 0),
                neutral@.unref() == rated(all.take(i as int), want, 1),
                unlikely@.unref() == rated(all.take(i as int), want, 2),
            decreases named@.len() - i,
        {
            let candidate = named[i];
            let have_kid = match candidate.certificate().extensions() {
                Ok(extensions) => extensions.subject_key(),
                Err(_) => None,
            };
            let rate = rate_candidate(want_kid, have_kid);
            proof {
                reveal(Seq::filter);
                assert(all.take(i + 1).drop_last() =~= all.take(i as int));
            }
            if rate == 0 {
                likely.push(candidate);
            } else if rate == 2 {
                unlikely.push(candidate);
            } else {
                neutral.push(candidate);
            }
            i = i + 1;
        }
        assert(all.take(i as int) =~= all);
        likely.append(&mut neutral);
        likely.append(&mut unlikely);
        likely
    }

    /// Searches for a chain from `working_cert` to a trust anchor. The chain
    /// is given with the trust anchor first.
    pub fn build_chain_inner(
        &self,
        working_cert: &VerificationCertificate<B>,
        current_depth: u8,
        working_cert_extensions: &Extensions,
        name_chain: NameChain<'_>,
        budget: &mut Budget,
    ) -> (r: Result<Chain<B>, ValidationError>)
        ensures
            self.search_outcome(
                *working_cert,
                current_depth,
                *working_cert_extensions,
                all_names(name_chain),
                *old(budget),
                chain_view(r),
                *final(budget),
            ),
        decreases 255 - current_depth,
    {
        let ghost names = all_names(name_chain);
        if let Some(constraints) = &working_cert_extensions.name_constraints {
            match constraints {
                Ok(constraints) => {
                    match name_chain.evaluate_constraints(constraints, budget) {
                        Ok(_) => {},
                        Err(e) => return Err(e),
                    }
                },
                Err(e) => return Err(ValidationError::Malformed(e.clone())),
            }
        }
        // If the working cert is listed in the store's root set, this is the
        // end.
        if self.store.contains(working_cert) {
            let mut chain: Chain<B> = Vec::new();
            chain.push(working_cert.clone());
            return Ok(chain);
        }
        // This comes after the root set check, since the depth only measures
        // the intermediate chain's length, not the root or leaf.
        if current_depth > self.policy.max_chain_depth {
            return Err(ValidationError::other("chain construction exceeds max depth"));
        }
        let candidates = self.potential_issuers(working_cert, working_cert_extensions);
        let ghost all = self.issuers(*working_cert, *working_cert_extensions);
        let ghost start = *budget;
        let mut last_err: Option<ValidationError> = None;
        let mut i: usize = 0;
        assert(all.skip(0) =~= all);
        while i < candidates.len()
            invariant
                i <= candidates@.len(),
                candidates@.unref() == all,
                names == all_names(name_chain),
                forall|out: Outcome<B>, after: Budget|
                    #[trigger] self.candidates_outcome(
                        *working_cert,
                        current_depth,
                        names,
                        all.skip(i as int),
                        option_view(last_err),
                        *budget,
                        out,
                        after,
                    ) ==> self.candidates_outcome(
                        *working_cert,
                        current_depth,
                        names,
                        all,
                        None,
                        start,
                        out,
                        after,
                    ),
                forall|out: Outcome<B>, after: Budget|
                    #[trigger] self.candidates_outcome(
                        *working_cert,
                        current_depth,
                        names,
                        all,
                        None,
                        start,
                        out,
                        after,
                    ) ==> self.search_outcome(
                        *working_cert,
                        current_depth,
                        *working_cert_extensions,
                        names,
                        *old(budget),
                        out,
                        after,
                    ),
            decreases candidates@.len() - i,
        {
            let candidate = candidates[i];
            let ghost at = *budget;
            let ghost last = option_view(last_err);
            proof {
                assert(all.skip(i as int).drop_first() =~= all.skip(i + 1));
            }
            // A candidate issuer is said to verify if it both signs for the
            // working certificate and conforms to the policy.
            let issuer_extensions = match candidate.certificate().extensions() {
                Ok(extensions) => extensions,
                Err(e) => {
                    let r = Err(ValidationError::DuplicateExtension(e));
                    assert(self.candidates_outcome(
                        *working_cert,
                        current_depth,
                        names,
                        all.skip(i as int),
                        last,
                        at,
                        chain_view(r),
                        *budget,
                    ));
                    return r;
                },
            };
            match self.policy.valid_issuer(
                candidate,
                working_cert.certificate(),
                current_depth,
                issuer_extensions,
                budget,
            ) {
                Ok(_) => {
                    let ghost left = *budget;
                    // The depth grows with every chain member, self-issued or
                    // not, which also keeps a self-signed intermediate from
                    // being followed forever.
                    let next_depth: u8 = match current_depth.checked_add(1) {
                        Some(depth) => depth,
                        None => {
                            let r = Err(
                                ValidationError::other("current depth calculation overflowed"),
                            );
                            assert(self.candidates_outcome(
                                *working_cert,
                                current_depth,
                                names,
                                all.skip(i as int),
                                last,
                                at,
                                chain_view(r),
                                *budget,
                            ));
                            return r;
                        },
                    };
                    // Name constraints are not applied to the subjects of
                    // self-issued certificates, unless the certificate is the
                    // leaf. An issuing candidate is not the leaf.
                    let next_chain = match NameChain::new(
                        Some(&name_chain),
                        issuer_extensions,
                        cert_is_self_issued(candidate.certificate()),
                    ) {
                        Ok(chain) => chain,
                        Err(e) => {
                            let r = Err(e);
                            assert(self.candidates_outcome(
                                *working_cert,
                                current_depth,
                                names,
                                all.skip(i as int),
                                last,
                                at,
                                chain_view(r),
                                *budget,
                            ));
                            return r;
                        },
                    };
                    let ghost own = own_names(next_chain);
                    let built = self.build_chain_inner(
                        candidate,
                        next_depth,
                        issuer_extensions,
                        next_chain,
                        budget,
                    );
                    let ghost found = chain_view(built);
                    match built {
                        Ok(mut chain) => {
                            chain.push(working_cert.clone());
                            let r = Ok(chain);
                            proof {
                                self.lemma_followed(
                                    *working_cert,
                                    current_depth,
                                    names,
                                    all.skip(i as int),
                                    last,
                                    *issuer_extensions,
                                    own,
                                    at,
                                    left,
                                    found,
                                    *budget,
                                    chain_view(r),
                                    *budget,
                                );
                            }
                            return r;
                        },
                        // Immediately return on fatal error.
                        Err(ValidationError::FatalError(text)) => {
                            let r = Err(ValidationError::FatalError(text));
                            proof {
                                self.lemma_followed(
                                    *working_cert,
                                    current_depth,
                                    names,
                                    all.skip(i as int),
                                    last,
                                    *issuer_extensions,
                                    own,
                                    at,
                                    left,
                                    found,
                                    *budget,
                                    chain_view(r),
                                    *budget,
                                );
                            }
                            return r;
                        },
                        Err(e) => {
                            assert forall|out: Outcome<B>, after: Budget| #[trigger]
                                self.candidates_outcome(
                                    *working_cert,
                                    current_depth,
                                    names,
                                    all.skip(i + 1),
                                    Some(e@),
                                    *budget,
                                    out,
                                    after,
                                ) implies self.candidates_outcome(
                                *working_cert,
                                current_depth,
                                names,
                                all.skip(i as int),
                                last,
                                at,
                                out,
                                after,
                            ) by {
                                self.lemma_followed(
                                    *working_cert,
                                    current_depth,
                                    names,
                                    all.skip(i as int),
                                    last,
                                    *issuer_extensions,
                                    own,
                                    at,
                                    left,
                                    found,
                                    *budget,
                                    out,
                                    after,
                                );
                            }
                            last_err = Some(e);
                        },
                    }
                },
                Err(e) => {
                    assert forall|out: Outcome<B>, after: Budget| #[trigger]
                        self.candidates_outcome(
                            *working_cert,
                            current_depth,
                            names,
                            all.skip(i + 1),
                            Some(e@),
                            *budget,
                            out,
                            after,
                        ) implies self.candidates_outcome(
                        *working_cert,
                        current_depth,
                        names,
                        all.skip(i as int),
                        last,
                        at,
                        out,
                        after,
                    ) by {}
                    last_err = Some(e);
                },
            }
            i = i + 1;
        }
        let ghost last = option_view(last_err);
        let ghost at = *budget;
        let r = Err(ValidationError::exhausted(last_err));
        assert(self.candidates_outcome(
            *working_cert,
            current_depth,
            names,
            all.skip(i as int),
            last,
            at,
            chain_view(r),
            at,
        ));
        r
    }

    /// Builds a chain from `leaf` to a trust anchor. The chain is given with
    /// the leaf first.
    pub fn build_chain(&self, leaf: &VerificationCertificate<B>, budget: &mut Budget) -> (r: Result<
        Chain<B>,
        ValidationError,
    >)
        ensures
            self.chain_outcome(*leaf, *old(budget), chain_view(r), *final(budget)),
    {
        // Before anything else, check whether the given leaf is well-formed
        // according to the policy. The leaf must be an end entity.
        let leaf_extensions = match leaf.certificate().extensions() {
            Ok(extensions) => extensions,
            Err(e) => return Err(ValidationError::DuplicateExtension(e)),
        };
        match self.policy.permits_ee(leaf.certificate(), leaf_extensions) {
            Ok(_) => {},
            Err(e) => return Err(e),
        }
        let name_chain = match NameChain::new(None, leaf_extensions, false) {
            Ok(chain) => chain,
            Err(e) => return Err(e),
        };
        match self.build_chain_inner(leaf, 0, leaf_extensions, name_chain, budget) {
            // The chain is built in reverse order.
            Ok(chain) => Ok(reversed(chain)),
            Err(e) => Err(e),
        }
    }
}

/// The certificates of `chain` in reverse order.
fn reversed<B: CryptoOps>(chain: Chain<B>) -> (r: Chain<B>)
    ensures
        r@ == chain@.reverse(),
{
    let mut rest = chain;
    let mut out: Chain<B> = Vec::new();
    let n: usize = rest.len();
    while rest.len() > 0
        invariant
            n == chain@.len(),
            rest@ == chain@.take(rest@.len() as int),
            rest@.len() + out@.len() == n,
            out@ == chain@.skip(rest@.len() as int).reverse(),
        decreases rest@.len(),
    {
        if let Some(cert) = rest.pop() {
            out.push(cert);
        }
    }
    out
}

} // verus!
