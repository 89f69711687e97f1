//! Laws of DNS names, in terms of their labels.

use vstd::prelude::*;

use crate::hosts::{in_host_subtree, is_host_name};
use crate::types::{
    ascii_lower, eq_ignore_ascii_case, in_dns_subtree, is_label, valid_dns_name, valid_label,
};

verus! {

/// The labels of `s`: the pieces that its dots separate, from left to right.
pub open spec fn labels(s: Seq<char>) -> Seq<Seq<char>>
    decreases s.len(),
{
    if s.len() == 0 {
        seq![Seq::empty()]
    } else {
        let rest = labels(s.drop_first());
        if s[0] == '.' {
            seq![Seq::empty()] + rest
        } else {
            seq![seq![s[0]] + rest[0]] + rest.drop_first()
        }
    }
}

/// Whether `c` and `d` are the same character, or the same ASCII letter in two
/// cases.
pub open spec fn same_letter(c: char, d: char) -> bool {
    ||| c == d
    ||| 'a' <= c <= 'z' && c as int == d as int + 32
    ||| 'a' <= d <= 'z' && d as int == c as int + 32
}

/// Whether `a` and `b` agree letter by letter, without regard to case.
pub open spec fn same_text(a: Seq<char>, b: Seq<char>) -> bool {
    &&& a.len() == b.len()
    &&& forall|i: int| 0 <= i < a.len() ==> same_letter(#[trigger] a[i], b[i])
}

/// Whether the labels `b` end with the labels `a`, without regard to case.
pub open spec fn ends_with_labels(a: Seq<Seq<char>>, b: Seq<Seq<char>>) -> bool {
    &&& a.len() <= b.len()
    &&& forall|k: int|
        0 <= k < a.len() ==> same_text(#[trigger] a[k], b[b.len() - a.len() + k])
}

/// Two characters are the same in lower case exactly if they are the same
/// letter.
pub proof fn law_lower(c: char, d: char)
    ensures
        ascii_lower(c) == ascii_lower(d) <==> same_letter(c, d),
{
}

/// Two texts are equal up to case exactly if they agree letter by letter.
pub proof fn law_ignore_case(a: Seq<char>, b: Seq<char>)
    ensures
        eq_ignore_ascii_case(a, b) <==> same_text(a, b),
{
    assert forall|c: char, d: char| ascii_lower(c) == ascii_lower(d) <==> #[trigger] same_letter(
        c,
        d,
    ) by {
        law_lower(c, d);
    }
    if same_text(a, b) {
        assert forall|i: int| 0 <= i < a.len() implies ascii_lower(#[trigger] a[i]) == ascii_lower(
            b[i],
        ) by {
            assert(same_letter(a[i], b[i]));
        }
    }
}

/// The number of characters of `ls`, one more counted for each label.
spec fn total(ls: Seq<Seq<char>>) -> int
    decreases ls.len(),
{
    if ls.len() == 0 {
        0
    } else {
        ls[0].len() + 1 + total(ls.drop_first())
    }
}

proof fn lemma_total(s: Seq<char>)
    ensures
        labels(s).len() > 0,
        total(labels(s)) == s.len() + 1,
    decreases s.len(),
{
    reveal_with_fuel(total, 2);
    if s.len() > 0 {
        let rest = labels(s.drop_first());
        lemma_total(s.drop_first());
        assert((seq![Seq::<char>::empty()] + rest).drop_first() =~= rest);
        assert((seq![seq![s[0]] + rest[0]] + rest.drop_first()).drop_first()
            =~= rest.drop_first());
    } else {
        assert(labels(s).drop_first() =~= Seq::empty());
    }
}

proof fn lemma_total_suffix(a: Seq<Seq<char>>, b: Seq<Seq<char>>)
    requires
        ends_with_labels(a, b),
    ensures
        total(a) <= total(b),
        total(a) == total(b) <==> a.len() == b.len(),
    decreases b.len(),
{
    if b.len() > 0 {
        if a.len() == b.len() {
            let c = a.drop_first();
            let d = b.drop_first();
            assert(same_text(a[0], b[0]));
            assert forall|k: int| 0 <= k < c.len() implies same_text(#[trigger] c[k], d[k]) by {
                assert(same_text(a[k + 1], b[k + 1]));
            }
            lemma_total_suffix(c, d);
        } else {
            let d = b.drop_first();
            assert forall|k: int| 0 <= k < a.len() implies same_text(
                #[trigger] a[k],
                d[d.len() - a.len() + k],
            ) by {
                assert(same_text(a[k], b[b.len() - a.len() + k]));
            }
            lemma_total_suffix(a, d);
        }
    }
}

/// Texts agree up to case exactly if their labels do.
proof fn lemma_same_labels(a: Seq<char>, b: Seq<char>)
    requires
        a.len() == b.len(),
    ensures
        same_text(a, b) <==> labels(a).len() == labels(b).len() && ends_with_labels(
            labels(a),
            labels(b),
        ),
    decreases a.len(),
{
    if a.len() > 0 {
        let c = a.drop_first();
        let d = b.drop_first();
        lemma_same_labels(c, d);
        lemma_total(c);
        lemma_total(d);
        let la = labels(a);
        let lb = labels(b);
        let lc = labels(c);
        let ld = labels(d);
        if same_text(a, b) {
            assert(same_letter(a[0], b[0]));
            assert forall|i: int| 0 <= i < c.len() implies same_letter(#[trigger] c[i], d[i]) by {
                assert(same_letter(a[i + 1], b[i + 1]));
            }
            assert forall|k: int| 0 <= k < la.len() implies same_text(#[trigger] la[k], lb[k]) by {
                if a[0] == '.' {
                    if k > 0 {
                        assert(same_text(lc[k - 1], ld[k - 1]));
                    }
                } else {
                    assert(same_text(lc[k], ld[k]));
                    if k == 0 {
                        assert forall|i: int| 0 <= i < la[0].len() implies same_letter(
                            #[trigger] la[0][i],
                            lb[0][i],
                        ) by {
                            if i > 0 {
                                assert(same_letter(lc[0][i - 1], ld[0][i - 1]));
                            }
                        }
                    }
                }
            }
        }
        if la.len() == lb.len() && ends_with_labels(la, lb) {
            assert(same_text(la[0], lb[0]));
            if a[0] == '.' {
                assert(la[0].len() == 0);
                assert(b[0] == '.');
                assert forall|k: int| 0 <= k < lc.len() implies same_text(
                    #[trigger] lc[k],
                    ld[k],
                ) by {
                    assert(same_text(la[k + 1], lb[k + 1]));
                }
            } else {
                assert(la[0].len() > 0);
                assert(b[0] != '.');
                assert(same_letter(la[0][0], lb[0][0]));
                assert forall|k: int| 0 <= k < lc.len() implies same_text(
                    #[trigger] lc[k],
                    ld[k],
                ) by {
                    assert(same_text(la[k], lb[k]));
                    if k == 0 {
                        assert forall|i: int| 0 <= i < lc[0].len() implies same_letter(
                            #[trigger] lc[0][i],
                            ld[0][i],
                        ) by {
                            assert(same_letter(la[0][i + 1], lb[0][i + 1]));
                        }
                    }
                }
            }
            assert forall|i: int| 0 <= i < a.len() implies same_letter(#[trigger] a[i], b[i]) by {
                if i > 0 {
                    assert(same_letter(c[i - 1], d[i - 1]));
                }
            }
        }
    } else {
        assert(a =~= b);
        assert forall|k: int| 0 <= k < labels(a).len() implies same_text(
            #[trigger] labels(a)[k],
            labels(b)[k],
        ) by {}
    }
}

/// A name lies in a subtree exactly if its labels end with the labels of the
/// subtree's root, compared without regard to case.
pub proof fn law_dns_labels(pattern: Seq<char>, name: Seq<char>)
    ensures
        in_dns_subtree(pattern, name) <==> ends_with_labels(labels(pattern), labels(name)),
    decreases name.len(),
{
    let a = labels(pattern);
    let b = labels(name);
    lemma_total(pattern);
    lemma_total(name);
    if ends_with_labels(a, b) {
        lemma_total_suffix(a, b);
    }
    let extra = name.len() - pattern.len();
    if extra == 0 {
        assert(name.skip(0) =~= name);
        law_ignore_case(pattern, name);
        lemma_same_labels(pattern, name);
    } else if extra > 0 {
        let shorter = name.drop_first();
        let c = labels(shorter);
        law_dns_labels(pattern, shorter);
        lemma_total(shorter);
        if ends_with_labels(a, c) {
            lemma_total_suffix(a, c);
        }
        assert(shorter.skip(extra - 1) =~= name.skip(extra));
        if extra > 1 {
            assert(shorter[extra - 2] == name[extra - 1]);
        }
        if ends_with_labels(a, b) {
            assert(a.len() <= c.len());
            assert forall|k: int| 0 <= k < a.len() implies same_text(
                #[trigger] a[k],
                c[c.len() - a.len() + k],
            ) by {
                assert(same_text(a[k], b[b.len() - a.len() + k]));
            }
        }
        if ends_with_labels(a, c) && (name[0] == '.' || a.len() < c.len()) {
            assert forall|k: int| 0 <= k < a.len() implies same_text(
                #[trigger] a[k],
                b[b.len() - a.len() + k],
            ) by {
                assert(same_text(a[k], c[c.len() - a.len() + k]));
            }
        }
    }
}

/// Where the `k`-th label stands.
proof fn lemma_label_position(s: Seq<char>, k: int) -> (r: (int, int))
    requires
        0 <= k < labels(s).len(),
    ensures
        is_label(s, r.0, r.1),
        labels(s)[k] == s.subrange(r.0, r.1),
        (k == 0) == (r.0 == 0),
    decreases s.len(),
{
    if s.len() == 0 {
        assert(s.subrange(0, 0) =~= Seq::empty());
        (0, 0)
    } else {
        let rest = s.drop_first();
        lemma_total(rest);
        if s[0] == '.' && k == 0 {
            assert(s.subrange(0, 0) =~= Seq::empty());
            (0, 0)
        } else if s[0] == '.' {
            let (a, b) = lemma_label_position(rest, k - 1);
            assert(s.subrange(a + 1, b + 1) =~= rest.subrange(a, b));
            assert forall|i: int| a + 1 <= i < b + 1 implies s[i] != '.' by {
                assert(rest[i - 1] != '.');
            }
            assert(b == rest.len() || rest[b] == s[b + 1]);
            (a + 1, b + 1)
        } else {
            let (a, b) = lemma_label_position(rest, k);
            assert forall|i: int| a + 1 <= i < b + 1 implies s[i] != '.' by {
                assert(rest[i - 1] != '.');
            }
            assert(b == rest.len() || rest[b] == s[b + 1]);
            if k == 0 {
                assert(s.subrange(0, b + 1) =~= seq![s[0]] + rest.subrange(0, b));
                (0, b + 1)
            } else {
                assert(s.subrange(a + 1, b + 1) =~= rest.subrange(a, b));
                (a + 1, b + 1)
            }
        }
    }
}

/// Which label stands at a place.
proof fn lemma_label_index(s: Seq<char>, a: int, b: int) -> (k: int)
    requires
        is_label(s, a, b),
    ensures
        0 <= k < labels(s).len(),
        labels(s)[k] == s.subrange(a, b),
        (k == 0) == (a == 0),
    decreases s.len(),
{
    if s.len() == 0 {
        assert(s.subrange(0, 0) =~= Seq::empty());
        0
    } else {
        let rest = s.drop_first();
        lemma_total(rest);
        if a == 0 && s[0] == '.' {
            assert(s.subrange(0, 0) =~= Seq::empty());
            0
        } else if a == 0 {
            assert(is_label(rest, 0, b - 1));
            let k = lemma_label_index(rest, 0, b - 1);
            assert(s.subrange(0, b) =~= seq![s[0]] + rest.subrange(0, b - 1));
            0
        } else {
            assert(is_label(rest, a - 1, b - 1));
            let k = lemma_label_index(rest, a - 1, b - 1);
            assert(s.subrange(a, b) =~= rest.subrange(a - 1, b - 1));
            if s[0] == '.' {
                k + 1
            } else {
                k
            }
        }
    }
}

/// A text is a DNS name exactly if it has one to 253 characters and each of its
/// labels has one to 63, which are letters, digits and hyphens, with no hyphen
/// first or last.
pub proof fn law_dns_name(s: Seq<char>)
    ensures
        valid_dns_name(s) <==> {
            &&& 1 <= s.len() <= 253
            &&& forall|k: int|
                0 <= k < labels(s).len() ==> {
                    &&& 1 <= (#[trigger] labels(s)[k]).len() <= 63
                    &&& labels(s)[k][0] != '-'
                    &&& labels(s)[k].last() != '-'
                    &&& forall|i: int|
                        0 <= i < labels(s)[k].len() ==> {
                            ||| 'a' <= #[trigger] labels(s)[k][i] <= 'z'
                            ||| 'A' <= labels(s)[k][i] <= 'Z'
                            ||| '0' <= labels(s)[k][i] <= '9'
                            ||| labels(s)[k][i] == '-'
                        }
                }
        },
{
    if valid_dns_name(s) {
        assert forall|k: int| 0 <= k < labels(s).len() implies valid_label(
            #[trigger] labels(s)[k],
        ) by {
            let (a, b) = lemma_label_position(s, k);
        }
    }
    if 1 <= s.len() <= 253 && !valid_dns_name(s) {
        let (a, b) = choose|a: int, b: int|
            #[trigger] is_label(s, a, b) && !valid_label(s.subrange(a, b));
        let k = lemma_label_index(s, a, b);
        assert(!valid_label(labels(s)[k]));
    }
}

/// A DNS name is the name of a host exactly if its last label holds something
/// other than digits.
pub proof fn law_host_name(s: Seq<char>)
    ensures
        is_host_name(s) <==> valid_dns_name(s) && exists|i: int|
            0 <= i < labels(s).last().len() && !('0' <= #[trigger] labels(s).last()[i] <= '9'),
{
    lemma_total(s);
    let last = labels(s).last();
    let (a, b) = lemma_label_position(s, labels(s).len() - 1);
    lemma_last_label(s);
    assert(last =~= s.subrange(s.len() - last.len(), s.len() as int));
    if is_host_name(s) {
        let i = choose|i: int|
            {
                &&& 0 <= i < s.len()
                &&& !('0' <= #[trigger] s[i] <= '9')
                &&& forall|k: int| i <= k < s.len() ==> s[k] != '.'
            };
        let start = s.len() - last.len();
        assert(i >= start);
        assert(last[i - start] == s[i]);
    }
    if valid_dns_name(s) && exists|i: int|
        0 <= i < last.len() && !('0' <= #[trigger] last[i] <= '9') {
        let i = choose|i: int| 0 <= i < last.len() && !('0' <= #[trigger] last[i] <= '9');
        let at = s.len() - last.len() + i;
        assert(s[at] == last[i]);
        assert forall|k: int| at <= k < s.len() implies s[k] != '.' by {
            assert(last[k - (s.len() - last.len())] == s[k]);
        }
    }
}

/// The last label ends where the text ends and starts after the last dot.
proof fn lemma_last_label(s: Seq<char>)
    ensures
        labels(s).len() > 0,
        labels(s).last().len() <= s.len(),
        labels(s).last() == s.skip(s.len() - labels(s).last().len()),
        forall|i: int| 0 <= i < labels(s).last().len() ==> #[trigger] labels(s).last()[i] != '.',
        labels(s).last().len() < s.len() ==> s[s.len() - labels(s).last().len() - 1] == '.',
    decreases s.len(),
{
    lemma_total(s);
    if s.len() == 0 {
        assert(s.skip(0) =~= Seq::empty());
    } else {
        let rest = s.drop_first();
        lemma_last_label(rest);
        let l = labels(rest).last();
        if s[0] == '.' || labels(rest).len() > 1 {
            assert(labels(s).last() == l);
            assert(s.skip(s.len() - l.len()) =~= rest.skip(rest.len() - l.len()));
            if l.len() < rest.len() {
                assert(rest[rest.len() - l.len() - 1] == s[s.len() - l.len() - 1]);
            } else if s[0] != '.' {
                lemma_total_one(rest);
            }
        } else {
            lemma_total_one(rest);
            assert(labels(s).last() == seq![s[0]] + l);
            assert(l =~= rest);
            assert(labels(s).last() =~= s);
            assert(s.skip(0) =~= s);
        }
    }
}

/// A text has one label exactly if that is the whole text.
proof fn lemma_total_one(s: Seq<char>)
    ensures
        labels(s).len() == 1 <==> labels(s).last().len() == s.len(),
{
    lemma_total(s);
    reveal_with_fuel(total, 2);
    lemma_total_last(labels(s));
}

proof fn lemma_total_last(ls: Seq<Seq<char>>)
    requires
        ls.len() > 0,
    ensures
        total(ls) >= ls.last().len() + 1,
        total(ls) == ls.last().len() + 1 <==> ls.len() == 1,
    decreases ls.len(),
{
    reveal_with_fuel(total, 2);
    if ls.len() > 1 {
        lemma_total_last(ls.drop_first());
    } else {
        assert(ls.drop_first() =~= Seq::empty());
    }
}

/// A domain with a leading period stands for the hosts whose labels are one or
/// more, followed by those of the domain; without regard to case.
pub proof fn law_domain_labels(domain: Seq<char>, host: Seq<char>)
    requires
        valid_dns_name(domain),
    ensures
        in_host_subtree(seq!['.'] + domain, host) <==> {
            &&& is_host_name(host)
            &&& labels(domain).len() < labels(host).len()
            &&& ends_with_labels(labels(domain), labels(host))
        },
{
    assert((seq!['.'] + domain).skip(1) =~= domain);
    law_dns_labels(domain, host);
    lemma_total(domain);
    lemma_total(host);
    if ends_with_labels(labels(domain), labels(host)) {
        lemma_total_suffix(labels(domain), labels(host));
    }
}

/// A pattern that is a DNS name stands for the one host that has its labels,
/// without regard to case.
pub proof fn law_host_labels(pattern: Seq<char>, host: Seq<char>)
    requires
        valid_dns_name(pattern),
    ensures
        in_host_subtree(pattern, host) <==> {
            &&& is_host_name(host)
            &&& labels(pattern).len() == labels(host).len()
            &&& ends_with_labels(labels(pattern), labels(host))
        },
{
    law_dns_name(pattern);
    lemma_total(pattern);
    lemma_total(host);
    if pattern[0] == '.' {
        assert(labels(pattern)[0].len() == 0);
    }
    law_ignore_case(pattern, host);
    if ends_with_labels(labels(pattern), labels(host)) {
        lemma_total_suffix(labels(pattern), labels(host));
    }
    if pattern.len() == host.len() {
        lemma_same_labels(pattern, host);
    }
}

/// Nothing else stands for a host: a pattern that does is a DNS name, with a
/// leading period or without.
pub proof fn law_host_pattern(pattern: Seq<char>, host: Seq<char>)
    requires
        in_host_subtree(pattern, host),
    ensures
        is_host_name(host),
        valid_dns_name(pattern) || (pattern.len() > 0 && pattern[0] == '.' && valid_dns_name(
            pattern.skip(1),
        )),
{
}

} // verus!
