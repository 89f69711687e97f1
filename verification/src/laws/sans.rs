//! Laws of which names are held to the name constraints.

use std::sync::Arc;
use vstd::prelude::*;

use crate::builder::{verify_outcome, ChainBuilder};
use crate::certificate::{self_issued, Decoded, Extensions, GeneralName, NameConstraints};
use crate::error::{DuplicateExtensionsError, ErrorView};
use crate::laws::names::obeys;
use crate::laws::search::{
    extensions_of, law_names_obey, law_verified_chain, names_in_force, names_of_issuer,
    names_of_leaf,
};
use crate::name_chain::{all_names, constrained_names, NameChain};
use crate::ops::{CryptoOps, VerificationCertificate};
use crate::policy::{Policy, Profile};
use crate::trust_store::Store;

verus! {

/// The names that may be constrained are all those in the subject alternative
/// name extension. There are none if there is no such extension, or if the
/// certificate is a self-issued intermediate; and it is an error if the
/// extension has to be read and cannot be.
pub proof fn law_constrained_names(
    extensions: Extensions,
    self_issued_intermediate: bool,
    sans: Vec<GeneralName>,
    e: Arc<asn1::ParseError>,
)
    ensures
        !self_issued_intermediate && extensions.subject_alternative_name == Some(
            Decoded::<Vec<GeneralName>>::Ok(sans),
        ) ==> constrained_names(extensions, self_issued_intermediate) == Ok::<
            Seq<GeneralName>,
            ErrorView,
        >(sans@),
        !self_issued_intermediate && extensions.subject_alternative_name == Some(
            Decoded::<Vec<GeneralName>>::Err(e),
        ) ==> constrained_names(extensions, self_issued_intermediate) == Err::<
            Seq<GeneralName>,
            ErrorView,
        >(ErrorView::Malformed(*e)),
        self_issued_intermediate || extensions.subject_alternative_name is None
            ==> constrained_names(extensions, self_issued_intermediate) == Ok::<
            Seq<GeneralName>,
            ErrorView,
        >(Seq::empty()),
{
}

/// A certificate is self-issued exactly if its issuer is its subject.
pub proof fn law_self_issued<B: CryptoOps>(cert: VerificationCertificate<B>)
    ensures
        self_issued(*cert.cert) <==> cert.cert.issuer@ == cert.cert.subject@,
{
}

/// A chain of names holds the names below it, followed by all of its own.
pub proof fn law_all_names(chain: NameChain)
    ensures
        chain.child is Some ==> all_names(*chain.child->0).is_prefix_of(all_names(chain)),
        chain.child is None && chain.sans is None ==> all_names(chain).len() == 0,
        chain.child is None && chain.sans is Some ==> all_names(chain) == (chain.sans->0)@,
        chain.child is Some && chain.sans is None ==> all_names(chain) == all_names(
            *chain.child->0,
        ),
        chain.child is Some && chain.sans is Some ==> all_names(chain) == all_names(
            *chain.child->0,
        ) + (chain.sans->0)@,
{
    if let Some(child) = chain.child {
        assert(all_names(*child) =~= all_names(chain).take(all_names(*child).len() as int));
        if chain.sans is None {
            assert(all_names(chain) =~= all_names(*child));
        }
    }
}

/// Names once in force stay in force further up.
proof fn lemma_names_stay<B: CryptoOps>(
    path: Seq<VerificationCertificate<B>>,
    names: Seq<GeneralName>,
    i: int,
    j: int,
    name: GeneralName,
)
    requires
        0 <= i <= j,
        names_in_force(path, names, i).contains(name),
    ensures
        names_in_force(path, names, j).contains(name),
    decreases j - i,
{
    if i < j {
        lemma_names_stay(path, names, i, j - 1, name);
        let below = names_in_force(path, names, j - 1);
        let k = choose|k: int| 0 <= k < below.len() && below[k] == name;
        assert(names_in_force(path, names, j)[k] == name);
    }
}

/// Every name in the subject alternative name extension of a certificate of a
/// path that is not self-issued is in force at it and at every certificate
/// above it.
pub proof fn law_sans_in_force<B: CryptoOps>(
    path: Seq<VerificationCertificate<B>>,
    names: Seq<GeneralName>,
    i: int,
    j: int,
    extensions: Extensions,
    sans: Vec<GeneralName>,
    k: int,
)
    requires
        0 < i <= j < path.len(),
        path[i].cert.issuer@ != path[i].cert.subject@,
        path[i].cert.extensions == Ok::<Extensions, DuplicateExtensionsError>(extensions),
        extensions.subject_alternative_name == Some(Decoded::<Vec<GeneralName>>::Ok(sans)),
        0 <= k < sans@.len(),
    ensures
        names_in_force(path, names, j).contains(sans@[k]),
{
    let below = names_in_force(path, names, i - 1);
    assert(names_of_issuer(path[i]) == Ok::<Seq<GeneralName>, ErrorView>(sans@));
    assert(names_in_force(path, names, i)[below.len() + k] == sans@[k]);
    lemma_names_stay(path, names, i, j, sans@[k]);
}

/// In a verified chain, every name in the leaf's subject alternative name
/// extension obeys the name constraints of every certificate of the chain.
pub proof fn law_leaf_sans_obey<B: CryptoOps, P: Profile>(
    leaf: VerificationCertificate<B>,
    intermediates: Vec<VerificationCertificate<B>>,
    policy: Policy<B, P>,
    store: Store<B>,
    chain: Seq<VerificationCertificate<B>>,
    extensions: Extensions,
    sans: Vec<GeneralName>,
    k: int,
    j: int,
    above: Extensions,
    constraints: NameConstraints,
)
    requires
        verify_outcome(leaf, intermediates, policy, store, Ok(chain)),
        leaf.cert.extensions == Ok::<Extensions, DuplicateExtensionsError>(extensions),
        extensions.subject_alternative_name == Some(Decoded::<Vec<GeneralName>>::Ok(sans)),
        0 <= k < sans@.len(),
        0 <= j < chain.len(),
        chain[j].cert.extensions == Ok::<Extensions, DuplicateExtensionsError>(above),
        above.name_constraints == Some(Decoded::<NameConstraints>::Ok(constraints)),
    ensures
        obeys(sans@[k], constraints),
{
    let b = ChainBuilder { intermediates, policy: &policy, store: &store };
    law_verified_chain(leaf, intermediates, policy, store, chain);
    let names = names_of_leaf(leaf)->Ok_0;
    assert(names == sans@);
    assert(names_in_force(chain, names, 0)[k] == sans@[k]);
    lemma_names_stay(chain, names, 0, j, sans@[k]);
    let at = choose|at: int|
        0 <= at < names_in_force(chain, names, j).len() && names_in_force(chain, names, j)[at]
            == sans@[k];
    law_names_obey(b, chain, 0, names, j, constraints, at);
}

/// In a verified chain, every name in the subject alternative name extension of
/// an issuer that is not self-issued obeys the name constraints of that issuer
/// and of every certificate above it.
pub proof fn law_issuer_sans_obey<B: CryptoOps, P: Profile>(
    leaf: VerificationCertificate<B>,
    intermediates: Vec<VerificationCertificate<B>>,
    policy: Policy<B, P>,
    store: Store<B>,
    chain: Seq<VerificationCertificate<B>>,
    i: int,
    extensions: Extensions,
    sans: Vec<GeneralName>,
    k: int,
    j: int,
    above: Extensions,
    constraints: NameConstraints,
)
    requires
        verify_outcome(leaf, intermediates, policy, store, Ok(chain)),
        0 < i <= j < chain.len(),
        chain[i].cert.issuer@ != chain[i].cert.subject@,
        chain[i].cert.extensions == Ok::<Extensions, DuplicateExtensionsError>(extensions),
        extensions.subject_alternative_name == Some(Decoded::<Vec<GeneralName>>::Ok(sans)),
        0 <= k < sans@.len(),
        chain[j].cert.extensions == Ok::<Extensions, DuplicateExtensionsError>(above),
        above.name_constraints == Some(Decoded::<NameConstraints>::Ok(constraints)),
    ensures
        obeys(sans@[k], constraints),
{
    let b = ChainBuilder { intermediates, policy: &policy, store: &store };
    law_verified_chain(leaf, intermediates, policy, store, chain);
    let names = names_of_leaf(leaf)->Ok_0;
    law_sans_in_force(chain, names, i, j, extensions, sans, k);
    let at = choose|at: int|
        0 <= at < names_in_force(chain, names, j).len() && names_in_force(chain, names, j)[at]
            == sans@[k];
    law_names_obey(b, chain, 0, names, j, constraints, at);
}

/// No certificate of a verified chain has name constraints that cannot be
/// read.
pub proof fn law_constraints_readable<B: CryptoOps, P: Profile>(
    leaf: VerificationCertificate<B>,
    intermediates: Vec<VerificationCertificate<B>>,
    policy: Policy<B, P>,
    store: Store<B>,
    chain: Seq<VerificationCertificate<B>>,
    j: int,
    extensions: Extensions,
)
    requires
        verify_outcome(leaf, intermediates, policy, store, Ok(chain)),
        0 <= j < chain.len(),
        chain[j].cert.extensions == Ok::<Extensions, DuplicateExtensionsError>(extensions),
    ensures
        !(extensions.name_constraints matches Some(Err(_))),
{
    law_verified_chain(leaf, intermediates, policy, store, chain);
    assert(extensions_of(chain[j]) == extensions);
}

} // verus!
