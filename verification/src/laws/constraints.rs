//! Laws of what a single constraint says of a name, of what a check of names
//! finds first, and of what it costs.

use std::sync::Arc;
use vstd::prelude::*;

use crate::budget::Budget;
use crate::builder::constraints_outcome;
use crate::certificate::{
    Decoded, Extensions, GeneralName, GeneralSubtree, NameConstraints, NameForm, OpaqueName,
};
use crate::error::ErrorView;
use crate::hosts::{in_directory_subtree, in_mail_subtree, in_uri_subtree};
use crate::laws::addresses::{law_ip_address, law_ip_octets};
use crate::laws::labels::{ends_with_labels, labels, law_dns_labels};
use crate::laws::names::{applies, some_applies};
use crate::name_chain::{
    apply_constraint, charged, check_name, check_names, scan_excluded, scan_permitted, subtrees,
    ApplyNameConstraintStatus,
};
use crate::text::bytes_text;
use crate::types::{valid_dns_name, valid_ip_constraint};

verus! {

/// The outcome of a constraint that applies.
pub open spec fn applied(matched: bool) -> Result<ApplyNameConstraintStatus, ErrorView> {
    Ok(ApplyNameConstraintStatus::Applied(matched))
}

/// The outcome of a constraint that cannot be applied, with the given message.
pub open spec fn unreadable(message: Seq<char>) -> Result<ApplyNameConstraintStatus, ErrorView> {
    Err(ErrorView::Other(message))
}

/// A DNS name matches a DNS constraint exactly if its labels end with those of
/// the constraint. It is an error if the name, or else the constraint, is
/// malformed.
pub proof fn law_dns_constraint(constraint: String, name: String)
    ensures
        valid_dns_name(constraint@) && valid_dns_name(name@) ==> apply_constraint(
            GeneralName::DNSName(constraint),
            GeneralName::DNSName(name),
        ) == applied(ends_with_labels(labels(constraint@), labels(name@))),
        !valid_dns_name(name@) ==> apply_constraint(
            GeneralName::DNSName(constraint),
            GeneralName::DNSName(name),
        ) == unreadable("unsatisfiable DNS name constraint: malformed SAN "@ + name@),
        !valid_dns_name(constraint@) && valid_dns_name(name@) ==> apply_constraint(
            GeneralName::DNSName(constraint),
            GeneralName::DNSName(name),
        ) == unreadable("malformed DNS name constraint: "@ + constraint@),
{
    law_dns_labels(constraint@, name@);
}

/// An address matches a subnet exactly if it has half as many octets as the
/// constraint, and each agrees with the subnet's address under the mask. It is
/// an error if the address, or else the constraint, is malformed.
pub proof fn law_ip_constraint_applied(constraint: Vec<u8>, name: Vec<u8>)
    ensures
        valid_ip_constraint(constraint@) && (name@.len() == 4 || name@.len() == 16)
            ==> apply_constraint(
            GeneralName::IPAddress(constraint),
            GeneralName::IPAddress(name),
        ) == applied(
            2 * name@.len() == constraint@.len() && forall|k: int|
                0 <= k < name@.len() ==> (#[trigger] name@[k]) & constraint@[name@.len() + k]
                    == constraint@[k] & constraint@[name@.len() + k],
        ),
        !(name@.len() == 4 || name@.len() == 16) ==> apply_constraint(
            GeneralName::IPAddress(constraint),
            GeneralName::IPAddress(name),
        ) == unreadable(
            "unsatisfiable IP name constraint: malformed SAN "@ + bytes_text(name@),
        ),
        !valid_ip_constraint(constraint@) && (name@.len() == 4 || name@.len() == 16)
            ==> apply_constraint(
            GeneralName::IPAddress(constraint),
            GeneralName::IPAddress(name),
        ) == unreadable("malformed IP name constraints: "@ + bytes_text(constraint@)),
{
    law_ip_octets(constraint@, name@);
    law_ip_address(name@);
}

/// Names of the other forms are matched with constraints of their form by the
/// rule of the form, and never give an error.
pub proof fn law_other_constraints(
    a: String,
    b: String,
    c: Vec<Vec<u8>>,
    d: Vec<Vec<u8>>,
    x: OpaqueName,
    y: OpaqueName,
)
    ensures
        apply_constraint(GeneralName::RFC822Name(a), GeneralName::RFC822Name(b)) == applied(
            in_mail_subtree(a@, b@),
        ),
        apply_constraint(
            GeneralName::UniformResourceIdentifier(a),
            GeneralName::UniformResourceIdentifier(b),
        ) == applied(in_uri_subtree(a@, b@)),
        apply_constraint(GeneralName::DirectoryName(c), GeneralName::DirectoryName(d)) == applied(
            in_directory_subtree(c@, d@),
        ),
        x.form == y.form ==> apply_constraint(GeneralName::Other(x), GeneralName::Other(y))
            == applied(x.content@ == y.content@),
{
}

/// A number for each form of names.
pub open spec fn form_number(name: GeneralName) -> int {
    match name {
        GeneralName::DNSName(_) => 0,
        GeneralName::IPAddress(_) => 1,
        GeneralName::RFC822Name(_) => 2,
        GeneralName::UniformResourceIdentifier(_) => 3,
        GeneralName::DirectoryName(_) => 4,
        GeneralName::Other(name) => match name.form {
            NameForm::OtherName => 5,
            NameForm::X400Address => 6,
            NameForm::EDIPartyName => 7,
            NameForm::RegisteredID => 8,
        },
    }
}

/// A constraint is skipped exactly if it is of another form than the name.
pub proof fn law_skipped_forms(constraint: GeneralName, name: GeneralName)
    ensures
        apply_constraint(constraint, name) == Ok::<ApplyNameConstraintStatus, ErrorView>(
            ApplyNameConstraintStatus::Skipped,
        ) <==> form_number(constraint) != form_number(name),
{
}

/// The subtrees of a list are all of them, and none if there is no list.
pub proof fn law_subtrees(list: Vec<GeneralSubtree>)
    ensures
        subtrees(Some(list)) == list@,
        subtrees(None).len() == 0,
{
}

/// Whether `constraint` applies to `san` and `san` matches it.
pub open spec fn hits(constraint: GeneralName, san: GeneralName) -> bool {
    apply_constraint(constraint, san) == applied(true)
}

/// The scan of the permitted subtrees ends at the first that the name matches
/// or that cannot be read, having made one check for each up to it.
pub proof fn law_permitted_first(san: GeneralName, list: Seq<GeneralSubtree>, m: int)
    requires
        0 <= m < list.len(),
        forall|j: int|
            0 <= j < m ==> apply_constraint(#[trigger] list[j].base, san) is Ok && !hits(
                list[j].base,
                san,
            ),
    ensures
        hits(list[m].base, san) ==> scan_permitted(san, list) == (
            (m + 1) as nat,
            Ok::<Option<bool>, ErrorView>(Some(true)),
        ),
        apply_constraint(list[m].base, san) matches Err(e) ==> scan_permitted(san, list) == (
            (m + 1) as nat,
            Err::<Option<bool>, ErrorView>(e),
        ),
    decreases list.len(),
{
    let init = list.drop_last();
    if m < list.len() - 1 {
        assert forall|j: int|
            0 <= j < m implies apply_constraint(#[trigger] init[j].base, san) is Ok
            && !hits(init[j].base, san) by {
            assert(init[j] == list[j]);
        }
        law_permitted_first(san, init, m);
    } else {
        assert forall|j: int|
            0 <= j < init.len() implies apply_constraint(#[trigger] init[j].base, san) is Ok
            && !hits(init[j].base, san) by {
            assert(init[j] == list[j]);
        }
        law_permitted_none(san, init);
    }
}

/// The scan of permitted subtrees none of which the name matches makes one
/// check for each, and tells whether any of them applies.
pub proof fn law_permitted_none(san: GeneralName, list: Seq<GeneralSubtree>)
    requires
        forall|j: int|
            0 <= j < list.len() ==> apply_constraint(#[trigger] list[j].base, san) is Ok
                && !hits(list[j].base, san),
    ensures
        scan_permitted(san, list).0 == list.len(),
        some_applies(list, san) ==> scan_permitted(san, list).1 == Ok::<Option<bool>, ErrorView>(
            Some(false),
        ),
        !some_applies(list, san) ==> scan_permitted(san, list).1 == Ok::<Option<bool>, ErrorView>(
            None,
        ),
    decreases list.len(),
{
    if list.len() > 0 {
        let init = list.drop_last();
        assert forall|j: int|
            0 <= j < init.len() implies apply_constraint(#[trigger] init[j].base, san) is Ok
            && !hits(init[j].base, san) by {
            assert(init[j] == list[j]);
        }
        law_permitted_none(san, init);
        let last = list.len() - 1;
        assert(apply_constraint(list[last].base, san) is Ok);
        if some_applies(init, san) {
            let j = choose|j: int| 0 <= j < init.len() && applies(#[trigger] init[j].base, san);
            assert(applies(list[j].base, san));
        }
        if some_applies(list, san) && !applies(list[last].base, san) {
            let j = choose|j: int| 0 <= j < list.len() && applies(#[trigger] list[j].base, san);
            assert(applies(init[j].base, san));
        }
    }
}

/// The scan of the excluded subtrees ends at the first that the name matches or
/// that cannot be read, having made one check for each up to it.
pub proof fn law_excluded_first(san: GeneralName, list: Seq<GeneralSubtree>, m: int)
    requires
        0 <= m < list.len(),
        forall|j: int|
            0 <= j < m ==> apply_constraint(#[trigger] list[j].base, san) is Ok && !hits(
                list[j].base,
                san,
            ),
    ensures
        hits(list[m].base, san) ==> scan_excluded(san, list) == (
            (m + 1) as nat,
            Ok::<bool, ErrorView>(true),
        ),
        apply_constraint(list[m].base, san) matches Err(e) ==> scan_excluded(san, list) == (
            (m + 1) as nat,
            Err::<bool, ErrorView>(e),
        ),
    decreases list.len(),
{
    let init = list.drop_last();
    if m < list.len() - 1 {
        assert forall|j: int|
            0 <= j < m implies apply_constraint(#[trigger] init[j].base, san) is Ok
            && !hits(init[j].base, san) by {
            assert(init[j] == list[j]);
        }
        law_excluded_first(san, init, m);
    } else {
        assert forall|j: int|
            0 <= j < init.len() implies apply_constraint(#[trigger] init[j].base, san) is Ok
            && !hits(init[j].base, san) by {
            assert(init[j] == list[j]);
        }
        law_excluded_none(san, init);
    }
}

/// The scan of excluded subtrees none of which the name matches makes one check
/// for each.
pub proof fn law_excluded_none(san: GeneralName, list: Seq<GeneralSubtree>)
    requires
        forall|j: int|
            0 <= j < list.len() ==> apply_constraint(#[trigger] list[j].base, san) is Ok
                && !hits(list[j].base, san),
    ensures
        scan_excluded(san, list) == (list.len(), Ok::<bool, ErrorView>(false)),
    decreases list.len(),
{
    if list.len() > 0 {
        let init = list.drop_last();
        assert forall|j: int|
            0 <= j < init.len() implies apply_constraint(#[trigger] init[j].base, san) is Ok
            && !hits(init[j].base, san) by {
            assert(init[j] == list[j]);
        }
        law_excluded_none(san, init);
        let last = list.len() - 1;
        assert(apply_constraint(list[last].base, san) is Ok);
    }
}

/// The check of a name holds it to the permitted subtrees, and only if it
/// passes these to the excluded ones; and pays for both.
pub proof fn law_name_checked(san: GeneralName, constraints: NameConstraints)
    ensures
        ({
            let (p, permitted) = scan_permitted(san, subtrees(constraints.permitted_subtrees));
            let (x, excluded) = scan_excluded(san, subtrees(constraints.excluded_subtrees));
            let (cost, checked) = check_name(san, constraints);
            let passes = permitted == Ok::<Option<bool>, ErrorView>(None) || permitted == Ok::<
                Option<bool>,
                ErrorView,
            >(Some(true));
            &&& permitted matches Err(e) ==> checked == Err::<(), ErrorView>(e) && cost == p
            &&& permitted == Ok::<Option<bool>, ErrorView>(Some(false)) ==> checked == Err::<
                (),
                ErrorView,
            >(ErrorView::Other("no permitted name constraints matched SAN"@)) && cost == p
            &&& passes ==> cost == p + x
            &&& passes && excluded is Err ==> checked == Err::<(), ErrorView>(excluded->Err_0)
            &&& passes && excluded == Ok::<bool, ErrorView>(true) ==> checked == Err::<
                (),
                ErrorView,
            >(ErrorView::Other("excluded name constraint matched SAN"@))
            &&& passes && excluded == Ok::<bool, ErrorView>(false) ==> checked is Ok
        }),
{
}

/// The check of names goes from the first to the last and ends at the first
/// that fails; it costs what the checks of the names up to there cost.
pub proof fn law_names_checked(
    names: Seq<GeneralName>,
    more: GeneralName,
    constraints: NameConstraints,
)
    ensures
        check_names(Seq::empty(), constraints) == (0nat, Ok::<(), ErrorView>(())),
        check_names(names, constraints).1 is Err ==> check_names(names.push(more), constraints)
            == check_names(names, constraints),
        check_names(names, constraints).1 is Ok ==> check_names(names.push(more), constraints) == (
            check_names(names, constraints).0 + check_name(more, constraints).0,
            check_name(more, constraints).1,
        ),
{
    assert(names.push(more).drop_last() =~= names);
}

/// Work that the budget covers is paid for, check by check; work that it does
/// not cover uses it up and is a fatal error. The signature checks are left
/// alone.
pub proof fn law_charged<T>(before: Budget, checks: nat, r: Result<T, ErrorView>)
    ensures
        checks <= before.name_constraint_checks ==> {
            let (paid, after) = charged(before, (checks, r));
            &&& paid == r
            &&& after.name_constraint_checks + checks == before.name_constraint_checks
        },
        checks > before.name_constraint_checks ==> {
            let (paid, after) = charged(before, (checks, r));
            &&& paid == Err::<T, ErrorView>(
                ErrorView::FatalError("Exceeded maximum name constraint check limit"@),
            )
            &&& after.name_constraint_checks == 0
        },
        charged(before, (checks, r)).1.signature_checks == before.signature_checks,
{
}

/// A certificate without name constraints lets all names pass at no cost; one
/// whose name constraints cannot be parsed gives that error; and otherwise the
/// names are checked against them.
pub proof fn law_constraints_outcome(
    extensions: Extensions,
    names: Seq<GeneralName>,
    before: Budget,
    constraints: NameConstraints,
    e: Arc<asn1::ParseError>,
)
    ensures
        extensions.name_constraints is None ==> constraints_outcome(extensions, names, before) == (
            Ok::<(), ErrorView>(()),
            before,
        ),
        extensions.name_constraints == Some(Decoded::<NameConstraints>::Err(e))
            ==> constraints_outcome(extensions, names, before) == (
            Err::<(), ErrorView>(ErrorView::Malformed(*e)),
            before,
        ),
        extensions.name_constraints == Some(Decoded::<NameConstraints>::Ok(constraints))
            ==> constraints_outcome(extensions, names, before) == charged(
            before,
            check_names(names, constraints),
        ),
{
}

} // verus!
