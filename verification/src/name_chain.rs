//! The names of the certificates of a chain, and the name constraints that
//! they are held to.

use vstd::prelude::*;

use crate::budget::{name_constraint_limit, Budget};
use crate::certificate::{bytes_eq, Extensions, GeneralName, GeneralSubtree, NameConstraints};
use crate::error::{result_view, ErrorView, ValidationError};
use crate::hosts::{
    directory_matches, in_directory_subtree, in_mail_subtree, in_uri_subtree, mail_matches,
    uri_matches,
};
use crate::text::{bytes_text, debug_bytes, join};
use crate::types::{
    in_dns_subtree, in_ip_subnet, valid_dns_name, valid_ip_address, valid_ip_constraint,
    DNSConstraint, DNSName, IPAddress, IPConstraint,
};

verus! {

/// How a name constraint bears on a name.
#[derive(Debug, Clone, Copy, PartialEq, Eq)]
pub enum ApplyNameConstraintStatus {
    /// The constraint is of the same form as the name; says whether the name
    /// matches.
    Applied(bool),
    /// The constraint is of another form than the name.
    Skipped,
}

impl ApplyNameConstraintStatus {
    /// Whether the constraint is of the same form as the name.
    pub fn is_applied(&self) -> (r: bool)
        ensures
            r == (*self is Applied),
    {
        match self {
            ApplyNameConstraintStatus::Applied(_) => true,
            ApplyNameConstraintStatus::Skipped => false,
        }
    }

    /// Whether the constraint is of the same form as the name, and the name
    /// matches.
    pub fn is_match(&self) -> (r: bool)
        ensures
            r == (*self == ApplyNameConstraintStatus::Applied(true)),
    {
        match self {
            ApplyNameConstraintStatus::Applied(matched) => *matched,
            ApplyNameConstraintStatus::Skipped => false,
        }
    }
}

// ---------------------------------------------------------------------------
// What checking names against constraints gives
// ---------------------------------------------------------------------------
/// How `constraint` bears on `san`, or that one of the two is malformed. Only a
/// constraint of another form than the name is skipped.
pub open spec fn apply_constraint(constraint: GeneralName, san: GeneralName) -> Result<
    ApplyNameConstraintStatus,
    ErrorView,
> {
    match (constraint, san) {
        (GeneralName::DNSName(pattern), GeneralName::DNSName(name)) => if !valid_dns_name(name@) {
            Err(ErrorView::Other("unsatisfiable DNS name constraint: malformed SAN "@ + name@))
        } else if !valid_dns_name(pattern@) {
            Err(ErrorView::Other("malformed DNS name constraint: "@ + pattern@))
        } else {
            Ok(ApplyNameConstraintStatus::Applied(in_dns_subtree(pattern@, name@)))
        },
        (GeneralName::IPAddress(pattern), GeneralName::IPAddress(name)) => if !valid_ip_address(
            name@,
        ) {
            Err(
                ErrorView::Other(
                    "unsatisfiable IP name constraint: malformed SAN "@ + bytes_text(name@),
                ),
            )
        } else if !valid_ip_constraint(pattern@) {
            Err(ErrorView::Other("malformed IP name constraints: "@ + bytes_text(pattern@)))
        } else {
            Ok(ApplyNameConstraintStatus::Applied(in_ip_subnet(pattern@, name@)))
        },
        (GeneralName::RFC822Name(pattern), GeneralName::RFC822Name(name)) => Ok(
            ApplyNameConstraintStatus::Applied(in_mail_subtree(pattern@, name@)),
        ),
        (
            GeneralName::UniformResourceIdentifier(pattern),
            GeneralName::UniformResourceIdentifier(name),
        ) => Ok(ApplyNameConstraintStatus::Applied(in_uri_subtree(pattern@, name@))),
        (GeneralName::DirectoryName(pattern), GeneralName::DirectoryName(name)) => Ok(
            ApplyNameConstraintStatus::Applied(in_directory_subtree(pattern@, name@)),
        ),
        (GeneralName::Other(pattern), GeneralName::Other(name)) => if pattern.form == name.form {
            Ok(ApplyNameConstraintStatus::Applied(pattern.content@ == name.content@))
        } else {
            Ok(ApplyNameConstraintStatus::Skipped)
        },
        _ => Ok(ApplyNameConstraintStatus::Skipped),
    }
}

/// The subtrees of a list that may be absent.
pub open spec fn subtrees(list: Option<Vec<GeneralSubtree>>) -> Seq<GeneralSubtree> {
    match list {
        Some(list) => list@,
        None => Seq::empty(),
    }
}

/// Going through the permitted subtrees in order until `san` matches one: how
/// many were looked at, and whether one that applies was found and the last of
/// those matched.
pub open spec fn scan_permitted(san: GeneralName, list: Seq<GeneralSubtree>) -> (
    nat,
    Result<Option<bool>, ErrorView>,
)
    decreases list.len(),
{
    if list.len() == 0 {
        (0, Ok(None))
    } else {
        let (checks, seen) = scan_permitted(san, list.drop_last());
        match seen {
            Ok(Some(true)) => (checks, seen),
            Err(_) => (checks, seen),
            Ok(seen) => (
                checks + 1,
                match apply_constraint(list.last().base, san) {
                    Ok(ApplyNameConstraintStatus::Applied(matched)) => Ok(Some(matched)),
                    Ok(ApplyNameConstraintStatus::Skipped) => Ok(seen),
                    Err(e) => Err(e),
                },
            ),
        }
    }
}

/// Going through the excluded subtrees in order until `san` matches one: how
/// many were looked at, and whether one matched.
pub open spec fn scan_excluded(san: GeneralName, list: Seq<GeneralSubtree>) -> (
    nat,
    Result<bool, ErrorView>,
)
    decreases list.len(),
{
    if list.len() == 0 {
        (0, Ok(false))
    } else {
        let (checks, matched) = scan_excluded(san, list.drop_last());
        if matched == Ok::<bool, ErrorView>(false) {
            (
                checks + 1,
                match apply_constraint(list.last().base, san) {
                    Ok(status) => Ok(status == ApplyNameConstraintStatus::Applied(true)),
                    Err(e) => Err(e),
                },
            )
        } else {
            (checks, matched)
        }
    }
}

/// Checking one name: how many constraints were looked at, and the outcome.
/// The name has to match a permitted subtree if any applies to it, and no
/// excluded subtree.
pub open spec fn check_name(san: GeneralName, constraints: NameConstraints) -> (
    nat,
    Result<(), ErrorView>,
) {
    let (permitted_checks, permitted) = scan_permitted(
        san,
        subtrees(constraints.permitted_subtrees),
    );
    let (excluded_checks, excluded) = scan_excluded(san, subtrees(constraints.excluded_subtrees));
    match permitted {
        Err(e) => (permitted_checks, Err(e)),
        Ok(Some(false)) => (
            permitted_checks,
            Err(ErrorView::Other("no permitted name constraints matched SAN"@)),
        ),
        Ok(_) => (
            permitted_checks + excluded_checks,
            match excluded {
                Err(e) => Err(e),
                Ok(true) => Err(ErrorView::Other("excluded name constraint matched SAN"@)),
                Ok(false) => Ok(()),
            },
        ),
    }
}

/// Checking names in order up to the first that fails: how many constraints
/// were looked at, and the outcome.
pub open spec fn check_names(names: Seq<GeneralName>, constraints: NameConstraints) -> (
    nat,
    Result<(), ErrorView>,
)
    decreases names.len(),
{
    if names.len() == 0 {
        (0, Ok(()))
    } else {
        let (checks, before) = check_names(names.drop_last(), constraints);
        if before is Err {
            (checks, before)
        } else {
            let (more, last) = check_name(names.last(), constraints);
            (checks + more, last)
        }
    }
}

/// The outcome of work that takes `work.0` name constraint checks and ends
/// with `work.1`, and the budget that it leaves of `before`.
pub open spec fn charged<T>(before: Budget, work: (nat, Result<T, ErrorView>)) -> (
    Result<T, ErrorView>,
    Budget,
) {
    if work.0 <= before.name_constraint_checks {
        (
            work.1,
            Budget {
                name_constraint_checks: (before.name_constraint_checks - work.0) as usize,
                signature_checks: before.signature_checks,
            },
        )
    } else {
        (
            Err(name_constraint_limit()),
            Budget { name_constraint_checks: 0, signature_checks: before.signature_checks },
        )
    }
}

/// Looking at more permitted subtrees takes no fewer checks, and changes
/// nothing once the scan has ended.
proof fn lemma_scan_permitted_prefix(san: GeneralName, list: Seq<GeneralSubtree>, k: int)
    requires
        0 <= k <= list.len(),
    ensures
        scan_permitted(san, list.take(k)).0 <= scan_permitted(san, list).0,
        scan_permitted(san, list.take(k)).1 is Err || scan_permitted(san, list.take(k)).1 == Ok::<
            Option<bool>,
            ErrorView,
        >(Some(true)) ==> scan_permitted(san, list) == scan_permitted(san, list.take(k)),
    decreases list.len(),
{
    if k == list.len() {
        assert(list.take(k) =~= list);
    } else {
        lemma_scan_permitted_prefix(san, list.drop_last(), k);
        assert(list.drop_last().take(k) =~= list.take(k));
    }
}

/// Looking at more excluded subtrees takes no fewer checks, and changes
/// nothing once the scan has ended.
proof fn lemma_scan_excluded_prefix(san: GeneralName, list: Seq<GeneralSubtree>, k: int)
    requires
        0 <= k <= list.len(),
    ensures
        scan_excluded(san, list.take(k)).0 <= scan_excluded(san, list).0,
        scan_excluded(san, list.take(k)).1 != Ok::<bool, ErrorView>(false) ==> scan_excluded(
            san,
            list,
        ) == scan_excluded(san, list.take(k)),
    decreases list.len(),
{
    if k == list.len() {
        assert(list.take(k) =~= list);
    } else {
        lemma_scan_excluded_prefix(san, list.drop_last(), k);
        assert(list.drop_last().take(k) =~= list.take(k));
    }
}

/// Checking more names takes no fewer checks, and changes nothing once one has
/// failed.
proof fn lemma_check_names_prefix(
    names: Seq<GeneralName>,
    constraints: NameConstraints,
    k: int,
)
    requires
        0 <= k <= names.len(),
    ensures
        check_names(names.take(k), constraints).0 <= check_names(names, constraints).0,
        check_names(names.take(k), constraints).1 is Err ==> check_names(names, constraints)
            == check_names(names.take(k), constraints),
    decreases names.len(),
{
    if k == names.len() {
        assert(names.take(k) =~= names);
    } else {
        lemma_check_names_prefix(names.drop_last(), constraints, k);
        assert(names.drop_last().take(k) =~= names.take(k));
    }
}

// ---------------------------------------------------------------------------
// The names of a chain
// ---------------------------------------------------------------------------
/// The names of a certificate, linked to those of the certificates below it.
pub struct NameChain<'a> {
    pub child: Option<&'a NameChain<'a>>,
    /// The subject alternative names of the certificate itself; `None` stands
    /// for no names.
    pub sans: Option<&'a Vec<GeneralName>>,
}

/// The subject alternative names of a certificate that its issuers may
/// constrain. A self-issued intermediate has none.
pub open spec fn constrained_names(
    extensions: Extensions,
    self_issued_intermediate: bool,
) -> Result<Seq<GeneralName>, ErrorView> {
    match extensions.subject_alternative_name {
        Some(sans) if !self_issued_intermediate => match sans {
            Ok(sans) => Ok(sans@),
            Err(e) => Err(ErrorView::Malformed(*e)),
        },
        _ => Ok(Seq::empty()),
    }
}

/// The names that `chain` holds for its own certificate.
pub open spec fn own_names(chain: NameChain) -> Seq<GeneralName> {
    match chain.sans {
        Some(sans) => sans@,
        None => Seq::empty(),
    }
}

/// All names of `chain`, those of the leaf first.
pub open spec fn all_names(chain: NameChain) -> Seq<GeneralName>
    decreases chain,
{
    match chain.child {
        Some(child) => all_names(*child) + own_names(chain),
        None => own_names(chain),
    }
}

impl<'a> NameChain<'a> {
    /// The names of a certificate with the given extensions, on top of those
    /// of `child`.
    pub fn new(
        child: Option<&'a NameChain<'a>>,
        extensions: &'a Extensions,
        self_issued_intermediate: bool,
    ) -> (r: Result<NameChain<'a>, ValidationError>)
        ensures
            match r {
                Ok(chain) => {
                    &&& constrained_names(*extensions, self_issued_intermediate) == Ok::<
                        Seq<GeneralName>,
                        ErrorView,
                    >(own_names(chain))
                    &&& chain.child == child
                },
                Err(e) => constrained_names(*extensions, self_issued_intermediate) == Err::<
                    Seq<GeneralName>,
                    ErrorView,
                >(e@),
            },
    {
        if self_issued_intermediate {
            return Ok(NameChain { child, sans: None });
        }
        match &extensions.subject_alternative_name {
            Some(Ok(sans)) => Ok(NameChain { child, sans: Some(sans) }),
            Some(Err(e)) => Err(ValidationError::Malformed(e.clone())),
            None => Ok(NameChain { child, sans: None }),
        }
    }

    /// Pays for one name constraint check, and finds out how `constraint`
    /// bears on `san`.
    pub fn evaluate_single_constraint(
        &self,
        constraint: &GeneralName,
        san: &GeneralName,
        budget: &mut Budget,
    ) -> (r: Result<ApplyNameConstraintStatus, ValidationError>)
        ensures
            (result_view(r), *final(budget)) == charged(
                *old(budget),
                (1, apply_constraint(*constraint, *san)),
            ),
    {
        match budget.name_constraint_check() {
            Ok(_) => {},
            Err(e) => return Err(e),
        }
        match (constraint, san) {
            (GeneralName::DNSName(pattern), GeneralName::DNSName(name)) => {
                match (DNSConstraint::new(pattern.as_str()), DNSName::new(name.as_str())) {
                    (Some(pattern), Some(name)) => {
                        Ok(ApplyNameConstraintStatus::Applied(pattern.matches(&name)))
                    },
                    (_, None) => Err(
                        ValidationError::Other(
                            join(
                                "unsatisfiable DNS name constraint: malformed SAN ",
                                name.as_str(),
                            ),
                        ),
                    ),
                    (None, _) => Err(
                        ValidationError::Other(
                            join("malformed DNS name constraint: ", pattern.as_str()),
                        ),
                    ),
                }
            },
            (GeneralName::IPAddress(pattern), GeneralName::IPAddress(name)) => {
                match (
                    IPConstraint::from_bytes(pattern.as_slice()),
                    IPAddress::from_bytes(name.as_slice()),
                ) {
                    (Some(pattern), Some(name)) => {
                        Ok(ApplyNameConstraintStatus::Applied(pattern.matches(&name)))
                    },
                    (_, None) => Err(
                        ValidationError::Other(
                            join(
                                "unsatisfiable IP name constraint: malformed SAN ",
                                debug_bytes(name.as_slice()).as_str(),
                            ),
                        ),
                    ),
                    (None, _) => Err(
                        ValidationError::Other(
                            join(
                                "malformed IP name constraints: ",
                                debug_bytes(pattern.as_slice()).as_str(),
                            ),
                        ),
                    ),
                }
            },
            (GeneralName::RFC822Name(pattern), GeneralName::RFC822Name(name)) => {
                Ok(ApplyNameConstraintStatus::Applied(mail_matches(pattern, name)))
            },
            (
                GeneralName::UniformResourceIdentifier(pattern),
                GeneralName::UniformResourceIdentifier(name),
            ) => Ok(ApplyNameConstraintStatus::Applied(uri_matches(pattern, name))),
            (GeneralName::DirectoryName(pattern), GeneralName::DirectoryName(name)) => {
                Ok(ApplyNameConstraintStatus::Applied(directory_matches(pattern, name)))
            },
            (GeneralName::Other(pattern), GeneralName::Other(name)) => {
                if pattern.form == name.form {
                    let equal = bytes_eq(pattern.content.as_slice(), name.content.as_slice());
                    Ok(ApplyNameConstraintStatus::Applied(equal))
                } else {
                    Ok(ApplyNameConstraintStatus::Skipped)
                }
            },
            _ => Ok(ApplyNameConstraintStatus::Skipped),
        }
    }

    /// Goes through the permitted subtrees until `san` matches one. Gives back
    /// `None` if none applies to `san`, and otherwise whether one matched.
    fn evaluate_permitted(
        &self,
        list: &Vec<GeneralSubtree>,
        san: &GeneralName,
        budget: &mut Budget,
    ) -> (r: Result<Option<bool>, ValidationError>)
        ensures
            (result_view(r), *final(budget)) == charged(*old(budget), scan_permitted(*san, list@)),
    {
        let mut seen: Option<bool> = None;
        let mut i: usize = 0;
        while i < list.len()
            invariant
                i <= list@.len(),
                seen != Some(true),
                scan_permitted(*san, list@.take(i as int)).1 == Ok::<Option<bool>, ErrorView>(seen),
                budget.signature_checks == old(budget).signature_checks,
                budget.name_constraint_checks + scan_permitted(*san, list@.take(i as int)).0
                    == old(budget).name_constraint_checks,
            decreases list@.len() - i,
        {
            proof {
                assert(list@.take(i + 1).drop_last() =~= list@.take(i as int));
                lemma_scan_permitted_prefix(*san, list@, i + 1);
            }
            match self.evaluate_single_constraint(&list[i].base, san, budget) {
                Ok(status) => {
                    if status.is_applied() {
                        seen = Some(status.is_match());
                        if status.is_match() {
                            return Ok(seen);
                        }
                    }
                },
                Err(e) => return Err(e),
            }
            i = i + 1;
        }
        assert(list@.take(i as int) =~= list@);
        Ok(seen)
    }

    /// Goes through the excluded subtrees until `san` matches one. Gives back
    /// whether one matched.
    fn evaluate_excluded(
        &self,
        list: &Vec<GeneralSubtree>,
        san: &GeneralName,
        budget: &mut Budget,
    ) -> (r: Result<bool, ValidationError>)
        ensures
            (result_view(r), *final(budget)) == charged(*old(budget), scan_excluded(*san, list@)),
    {
        let mut i: usize = 0;
        while i < list.len()
            invariant
                i <= list@.len(),
                scan_excluded(*san, list@.take(i as int)).1 == Ok::<bool, ErrorView>(false),
                budget.signature_checks == old(budget).signature_checks,
                budget.name_constraint_checks + scan_excluded(*san, list@.take(i as int)).0
                    == old(budget).name_constraint_checks,
            decreases list@.len() - i,
        {
            proof {
                assert(list@.take(i + 1).drop_last() =~= list@.take(i as int));
                lemma_scan_excluded_prefix(*san, list@, i + 1);
            }
            match self.evaluate_single_constraint(&list[i].base, san, budget) {
                Ok(status) => {
                    if status.is_match() {
                        return Ok(true);
                    }
                },
                Err(e) => return Err(e),
            }
            i = i + 1;
        }
        assert(list@.take(i as int) =~= list@);
        Ok(false)
    }

    /// Checks one name against the constraints.
    fn evaluate_name(
        &self,
        constraints: &NameConstraints,
        san: &GeneralName,
        budget: &mut Budget,
    ) -> (r: Result<(), ValidationError>)
        ensures
            (result_view(r), *final(budget)) == charged(
                *old(budget),
                check_name(*san, *constraints),
            ),
    {
        // If there are no applicable constraints, the SAN is considered valid.
        if let Some(permitted_subtrees) = &constraints.permitted_subtrees {
            match self.evaluate_permitted(permitted_subtrees, san, budget) {
                Ok(Some(false)) => return Err(
                    ValidationError::other("no permitted name constraints matched SAN"),
                ),
                Ok(_) => {},
                Err(e) => return Err(e),
            }
        }
        if let Some(excluded_subtrees) = &constraints.excluded_subtrees {
            match self.evaluate_excluded(excluded_subtrees, san, budget) {
                Ok(true) => return Err(
                    ValidationError::other("excluded name constraint matched SAN"),
                ),
                Ok(false) => {},
                Err(e) => return Err(e),
            }
        }
        Ok(())
    }

    /// Checks all names of the chain against the constraints, those of the
    /// leaf first.
    pub fn evaluate_constraints(
        &self,
        constraints: &NameConstraints,
        budget: &mut Budget,
    ) -> (r: Result<(), ValidationError>)
        ensures
            (result_view(r), *final(budget)) == charged(
                *old(budget),
                check_names(all_names(*self), *constraints),
            ),
        decreases self,
    {
        let ghost names = all_names(*self);
        let ghost mut below: Seq<GeneralName> = Seq::empty();
        if let Some(child) = self.child {
            proof {
                below = all_names(*child);
                assert(names.take(below.len() as int) =~= below);
                lemma_check_names_prefix(names, *constraints, below.len() as int);
            }
            match child.evaluate_constraints(constraints, budget) {
                Ok(_) => {},
                Err(e) => return Err(e),
            }
        }
        if let Some(sans) = self.sans {
            let mut i: usize = 0;
            while i < sans.len()
                invariant
                    i <= sans@.len(),
                    names == below + sans@,
                    check_names(names.take(below.len() + i), *constraints).1 is Ok,
                    budget.signature_checks == old(budget).signature_checks,
                    budget.name_constraint_checks + check_names(
                        names.take(below.len() + i),
                        *constraints,
                    ).0 == old(budget).name_constraint_checks,
                    names == all_names(*self),
                decreases sans@.len() - i,
            {
                proof {
                    let k = below.len() + i;
                    assert(names.take(k + 1).drop_last() =~= names.take(k));
                    lemma_check_names_prefix(names, *constraints, k + 1);
                }
                match self.evaluate_name(constraints, &sans[i], budget) {
                    Ok(_) => {},
                    Err(e) => return Err(e),
                }
                i = i + 1;
            }
            assert(names.take(below.len() + i) =~= names);
        }
        Ok(())
    }
}

} // verus!
