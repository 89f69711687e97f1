//! Laws of names and name constraints.

use vstd::prelude::*;

use crate::budget::Budget;
use crate::certificate::{same_form, GeneralName, GeneralSubtree, NameConstraints};
use crate::error::ErrorView;
use crate::hosts::{in_directory_subtree, in_host_subtree};
use crate::name_chain::{
    apply_constraint, charged, check_name, check_names, scan_excluded, scan_permitted, subtrees,
    ApplyNameConstraintStatus,
};
use crate::types::{
    ascii_lower, in_dns_subtree, in_ip_subnet, valid_dns_name, valid_ip_address,
    valid_ip_constraint,
};

verus! {

/// Whether `constraint` is of the same form as `san`, both being well formed.
pub open spec fn applies(constraint: GeneralName, san: GeneralName) -> bool {
    apply_constraint(constraint, san) matches Ok(ApplyNameConstraintStatus::Applied(_))
}

/// Whether `constraint` is of the same form as `san`, both being well formed,
/// and `san` matches it.
pub open spec fn matches(constraint: GeneralName, san: GeneralName) -> bool {
    apply_constraint(constraint, san) == Ok::<ApplyNameConstraintStatus, ErrorView>(
        ApplyNameConstraintStatus::Applied(true),
    )
}

/// Whether `san` matches one of the subtrees.
pub open spec fn some_match(list: Seq<GeneralSubtree>, san: GeneralName) -> bool {
    exists|j: int| 0 <= j < list.len() && matches(#[trigger] list[j].base, san)
}

/// Whether one of the subtrees applies to `san`.
pub open spec fn some_applies(list: Seq<GeneralSubtree>, san: GeneralName) -> bool {
    exists|j: int| 0 <= j < list.len() && applies(#[trigger] list[j].base, san)
}

/// Whether it can be told of each of the subtrees how it bears on `san`.
pub open spec fn all_readable(list: Seq<GeneralSubtree>, san: GeneralName) -> bool {
    forall|j: int|
        0 <= j < list.len() ==> apply_constraint(#[trigger] list[j].base, san) is Ok
}

/// Whether one of the subtrees is of the same form as `san`.
pub open spec fn some_of_form(list: Seq<GeneralSubtree>, san: GeneralName) -> bool {
    exists|j: int| 0 <= j < list.len() && same_form(#[trigger] list[j].base, san)
}

/// Whether `san` obeys the constraints: it matches one of the permitted
/// subtrees if any of those is of its form, and none of the excluded ones, all
/// of those of its form being well formed.
pub open spec fn obeys(san: GeneralName, constraints: NameConstraints) -> bool {
    &&& some_of_form(subtrees(constraints.permitted_subtrees), san) ==> some_match(
        subtrees(constraints.permitted_subtrees),
        san,
    )
    &&& forall|j: int|
        0 <= j < subtrees(constraints.excluded_subtrees).len() && same_form(
            #[trigger] subtrees(constraints.excluded_subtrees)[j].base,
            san,
        ) ==> {
            &&& applies(subtrees(constraints.excluded_subtrees)[j].base, san)
            &&& !matches(subtrees(constraints.excluded_subtrees)[j].base, san)
        }
}

/// How what holds of a list of subtrees relates to what holds of the list
/// without its last one.
proof fn lemma_last_subtree(san: GeneralName, list: Seq<GeneralSubtree>)
    requires
        list.len() > 0,
    ensures
        some_match(list, san) == (some_match(list.drop_last(), san) || matches(
            list.last().base,
            san,
        )),
        some_applies(list, san) == (some_applies(list.drop_last(), san) || applies(
            list.last().base,
            san,
        )),
        all_readable(list, san) == (all_readable(list.drop_last(), san) && apply_constraint(
            list.last().base,
            san,
        ) is Ok),
{
    let init = list.drop_last();
    let last = list.len() - 1;
    if some_match(list, san) {
        let j = choose|j: int| 0 <= j < list.len() && matches(#[trigger] list[j].base, san);
        if j < last {
            assert(matches(init[j].base, san));
        }
    }
    if some_applies(list, san) {
        let j = choose|j: int| 0 <= j < list.len() && applies(#[trigger] list[j].base, san);
        if j < last {
            assert(applies(init[j].base, san));
        }
    }
    if all_readable(init, san) && apply_constraint(list.last().base, san) is Ok {
        assert forall|j: int| 0 <= j < list.len() implies apply_constraint(
            #[trigger] list[j].base,
            san,
        ) is Ok by {
            if j < last {
                assert(apply_constraint(init[j].base, san) is Ok);
            }
        }
    }
}

/// What a scan of the permitted subtrees finds.
proof fn lemma_scan_permitted(san: GeneralName, list: Seq<GeneralSubtree>)
    ensures
        match scan_permitted(san, list).1 {
            Ok(None) => !some_applies(list, san),
            Ok(Some(true)) => some_match(list, san),
            Ok(Some(false)) => some_applies(list, san) && !some_match(list, san),
            Err(_) => !all_readable(list, san),
        },
    decreases list.len(),
{
    if list.len() > 0 {
        lemma_scan_permitted(san, list.drop_last());
        lemma_last_subtree(san, list);
    }
}

/// What a scan of the excluded subtrees finds.
proof fn lemma_scan_excluded(san: GeneralName, list: Seq<GeneralSubtree>)
    ensures
        match scan_excluded(san, list).1 {
            Ok(found) => found == some_match(list, san),
            Err(_) => !all_readable(list, san),
        },
    decreases list.len(),
{
    if list.len() > 0 {
        lemma_scan_excluded(san, list.drop_last());
        lemma_last_subtree(san, list);
    }
}

/// A scan that ends without an error or a match has read every subtree.
proof fn lemma_scan_readable(san: GeneralName, list: Seq<GeneralSubtree>)
    ensures
        scan_permitted(san, list).1 is Ok && scan_permitted(san, list).1 != Ok::<
            Option<bool>,
            ErrorView,
        >(Some(true)) ==> all_readable(list, san),
        scan_excluded(san, list).1 == Ok::<bool, ErrorView>(false) ==> all_readable(list, san),
    decreases list.len(),
{
    if list.len() > 0 {
        lemma_scan_readable(san, list.drop_last());
        lemma_last_subtree(san, list);
    }
}

/// A name that passes the check obeys the constraints. A name that obeys them
/// passes, as long as it can be told of each of them how it bears on the name.
pub proof fn law_check_name(san: GeneralName, constraints: NameConstraints)
    ensures
        check_name(san, constraints).1 is Ok ==> obeys(san, constraints),
        obeys(san, constraints) && all_readable(subtrees(constraints.permitted_subtrees), san)
            && all_readable(subtrees(constraints.excluded_subtrees), san) ==> check_name(
            san,
            constraints,
        ).1 is Ok,
{
    let permitted = subtrees(constraints.permitted_subtrees);
    let excluded = subtrees(constraints.excluded_subtrees);
    lemma_scan_permitted(san, permitted);
    lemma_scan_excluded(san, excluded);
    lemma_scan_readable(san, permitted);
    lemma_scan_readable(san, excluded);
}

/// Names that pass the check all obey the constraints. Names that all obey
/// them pass, as long as it can be told of each constraint how it bears on
/// each name.
pub proof fn law_check_names(names: Seq<GeneralName>, constraints: NameConstraints)
    ensures
        check_names(names, constraints).1 is Ok ==> forall|i: int|
            0 <= i < names.len() ==> obeys(#[trigger] names[i], constraints),
        (forall|i: int|
            0 <= i < names.len() ==> {
                &&& obeys(#[trigger] names[i], constraints)
                &&& all_readable(subtrees(constraints.permitted_subtrees), names[i])
                &&& all_readable(subtrees(constraints.excluded_subtrees), names[i])
            }) ==> check_names(names, constraints).1 is Ok,
    decreases names.len(),
{
    if names.len() > 0 {
        let init = names.drop_last();
        law_check_names(init, constraints);
        law_check_name(names.last(), constraints);
        if check_names(names, constraints).1 is Ok {
            assert forall|i: int| 0 <= i < names.len() implies obeys(
                #[trigger] names[i],
                constraints,
            ) by {
                if i < init.len() {
                    assert(obeys(init[i], constraints));
                }
            }
        }
    }
}

/// A constraint is skipped exactly if it is of another form than the name.
pub proof fn law_skipped(constraint: GeneralName, san: GeneralName)
    ensures
        apply_constraint(constraint, san) == Ok::<ApplyNameConstraintStatus, ErrorView>(
            ApplyNameConstraintStatus::Skipped,
        ) <==> !same_form(constraint, san),
{
}

/// Whether `san` is well formed, where its form can tell.
pub open spec fn well_formed_name(san: GeneralName) -> bool {
    match san {
        GeneralName::DNSName(name) => valid_dns_name(name@),
        GeneralName::IPAddress(octets) => valid_ip_address(octets@),
        _ => true,
    }
}

/// Whether `base` is well formed as the root of a subtree, where its form can
/// tell.
pub open spec fn well_formed_base(base: GeneralName) -> bool {
    match base {
        GeneralName::DNSName(name) => valid_dns_name(name@),
        GeneralName::IPAddress(octets) => valid_ip_constraint(octets@),
        _ => true,
    }
}

/// A constraint that is of the same form as a name applies to it, unless one of
/// the two is malformed; and that is the only error.
pub proof fn law_same_form_applies(constraint: GeneralName, san: GeneralName)
    ensures
        apply_constraint(constraint, san) is Err <==> same_form(constraint, san) && !(
        well_formed_base(constraint) && well_formed_name(san)),
        applies(constraint, san) <==> same_form(constraint, san) && well_formed_base(constraint)
            && well_formed_name(san),
{
}

/// A well-formed name lies in the subtree that it is the root of. (An address
/// is no root: a subnet has a mask as well.)
pub proof fn law_root_matches(name: GeneralName)
    requires
        well_formed_name(name),
        !(name is IPAddress),
    ensures
        matches(name, name),
{
    if let GeneralName::DNSName(text) = name {
        law_dns_subtree_root(text@);
    }
}

/// Whether `san` is permitted and not excluded: no permitted subtree applies to
/// it or it matches one, and it matches no excluded subtree.
pub open spec fn allowed(san: GeneralName, constraints: NameConstraints) -> bool {
    &&& some_applies(subtrees(constraints.permitted_subtrees), san) ==> some_match(
        subtrees(constraints.permitted_subtrees),
        san,
    )
    &&& !some_match(subtrees(constraints.excluded_subtrees), san)
}

/// Over well-formed names and subtrees, and with budget for all of them, the
/// check of the names of a chain succeeds exactly if each is permitted and not
/// excluded.
pub proof fn law_check_exact(
    names: Seq<GeneralName>,
    constraints: NameConstraints,
    before: Budget,
)
    requires
        forall|i: int| 0 <= i < names.len() ==> well_formed_name(#[trigger] names[i]),
        forall|j: int|
            0 <= j < subtrees(constraints.permitted_subtrees).len() ==> well_formed_base(
                #[trigger] subtrees(constraints.permitted_subtrees)[j].base,
            ),
        forall|j: int|
            0 <= j < subtrees(constraints.excluded_subtrees).len() ==> well_formed_base(
                #[trigger] subtrees(constraints.excluded_subtrees)[j].base,
            ),
        before.name_constraint_checks >= names.len() * (subtrees(
            constraints.permitted_subtrees,
        ).len() + subtrees(constraints.excluded_subtrees).len()),
    ensures
        charged(before, check_names(names, constraints)).0 is Ok <==> forall|i: int|
            0 <= i < names.len() ==> allowed(#[trigger] names[i], constraints),
{
    let permitted = subtrees(constraints.permitted_subtrees);
    let excluded = subtrees(constraints.excluded_subtrees);
    law_checks_bounded(names, constraints);
    law_check_names(names, constraints);
    assert forall|i: int| 0 <= i < names.len() implies {
        &&& allowed(#[trigger] names[i], constraints) == obeys(names[i], constraints)
        &&& all_readable(permitted, names[i])
        &&& all_readable(excluded, names[i])
    } by {}
}

/// A name to which no constraint applies, because each is of another form, is
/// considered valid.
pub proof fn law_no_applicable_constraint(san: GeneralName, constraints: NameConstraints)
    requires
        forall|j: int|
            0 <= j < subtrees(constraints.permitted_subtrees).len() ==> !same_form(
                #[trigger] subtrees(constraints.permitted_subtrees)[j].base,
                san,
            ),
        forall|j: int|
            0 <= j < subtrees(constraints.excluded_subtrees).len() ==> !same_form(
                #[trigger] subtrees(constraints.excluded_subtrees)[j].base,
                san,
            ),
    ensures
        check_name(san, constraints).1 is Ok,
{
    law_check_name(san, constraints);
}

/// A chain never takes more name constraint checks than it has names times
/// subtrees to hold each of them to.
pub proof fn law_checks_bounded(names: Seq<GeneralName>, constraints: NameConstraints)
    ensures
        check_names(names, constraints).0 <= names.len() * (subtrees(
            constraints.permitted_subtrees,
        ).len() + subtrees(constraints.excluded_subtrees).len()),
    decreases names.len(),
{
    if names.len() > 0 {
        let per_name = subtrees(constraints.permitted_subtrees).len() + subtrees(
            constraints.excluded_subtrees,
        ).len();
        law_checks_bounded(names.drop_last(), constraints);
        lemma_scan_lengths(names.last(), subtrees(constraints.permitted_subtrees));
        lemma_scan_lengths(names.last(), subtrees(constraints.excluded_subtrees));
        let n = names.len();
        assert((n - 1) * per_name + per_name == n * per_name) by (nonlinear_arith);
    }
}

proof fn lemma_scan_lengths(san: GeneralName, list: Seq<GeneralSubtree>)
    ensures
        scan_permitted(san, list).0 <= list.len(),
        scan_excluded(san, list).0 <= list.len(),
    decreases list.len(),
{
    if list.len() > 0 {
        lemma_scan_lengths(san, list.drop_last());
    }
}

/// A DNS name lies in the subtree that it is the root of.
pub proof fn law_dns_subtree_root(name: Seq<char>)
    ensures
        in_dns_subtree(name, name),
{
}

/// Adding labels to the left of a name keeps it in a subtree.
pub proof fn law_dns_subtree_labels(pattern: Seq<char>, name: Seq<char>, labels: Seq<char>)
    requires
        in_dns_subtree(pattern, name),
    ensures
        in_dns_subtree(pattern, labels + seq!['.'] + name),
{
}

/// A subtree of a subtree lies in the subtree.
pub proof fn law_dns_subtree_nests(outer: Seq<char>, inner: Seq<char>, name: Seq<char>)
    requires
        in_dns_subtree(outer, inner),
        in_dns_subtree(inner, name),
    ensures
        in_dns_subtree(outer, name),
{
}

/// A domain with a leading period stands for the hosts in the domain, and not
/// for the host that has the name of the domain.
pub proof fn law_domain_excludes_host(domain: Seq<char>)
    ensures
        !in_host_subtree(seq!['.'] + domain, domain),
{
}

/// A host in a subdomain is a host in the domain.
pub proof fn law_domain_nests(domain: Seq<char>, subdomain: Seq<char>, host: Seq<char>)
    requires
        valid_dns_name(domain),
        in_dns_subtree(domain, subdomain),
        in_host_subtree(seq!['.'] + subdomain, host),
    ensures
        in_host_subtree(seq!['.'] + domain, host),
{
    assert((seq!['.'] + domain).skip(1) =~= domain);
    assert((seq!['.'] + subdomain).skip(1) =~= subdomain);
    law_dns_subtree_nests(domain, subdomain, host);
}

/// A subtree of a directory subtree lies in the subtree.
pub proof fn law_directory_nests(outer: Seq<Vec<u8>>, inner: Seq<Vec<u8>>, name: Seq<Vec<u8>>)
    requires
        in_directory_subtree(outer, inner),
        in_directory_subtree(inner, name),
    ensures
        in_directory_subtree(outer, name),
{
}

/// The case of ASCII letters makes no difference to whether a name lies in a
/// subtree.
pub proof fn law_dns_subtree_case(pattern: Seq<char>, name: Seq<char>)
    ensures
        in_dns_subtree(pattern, name) == in_dns_subtree(
            pattern.map_values(|c: char| ascii_lower(c)),
            name.map_values(|c: char| ascii_lower(c)),
        ),
{
    let p = pattern.map_values(|c: char| ascii_lower(c));
    let n = name.map_values(|c: char| ascii_lower(c));
    let extra = name.len() - pattern.len();
    if extra >= 0 {
        assert forall|i: int| 0 <= i < pattern.len() implies {
            &&& p[i] == ascii_lower(#[trigger] pattern[i])
            &&& n.skip(extra)[i] == ascii_lower(name.skip(extra)[i])
            &&& ascii_lower(p[i]) == p[i]
            &&& ascii_lower(n.skip(extra)[i]) == n.skip(extra)[i]
        } by {}
    }
}

/// The address that a subnet is given by lies in the subnet.
pub proof fn law_ip_subnet_base(constraint: Seq<u8>)
    requires
        valid_ip_constraint(constraint),
    ensures
        in_ip_subnet(constraint, constraint.take(constraint.len() as int / 2)),
{
}

} // verus!
