//! Mail addresses, URIs and directory names, and the subtrees of each that a
//! certificate may be constrained to.

use vstd::prelude::*;
use vstd::string::StrSliceExecFns;
use vstd::utf8::is_ascii_chars;

use crate::certificate::bytes_eq;
use crate::types::{
    ascii_at, eq_ignore_ascii_case, in_dns_subtree, valid_dns_name, DNSConstraint, DNSName,
};

verus! {

// ---------------------------------------------------------------------------
// Hosts
// ---------------------------------------------------------------------------
/// Whether `c` is a decimal digit.
pub open spec fn is_digit(c: char) -> bool {
    '0' <= c <= '9'
}

/// Whether `s` is the name of a host: a DNS name whose last label is not a
/// number, which tells it from an address.
pub open spec fn is_host_name(s: Seq<char>) -> bool {
    &&& valid_dns_name(s)
    &&& exists|i: int|
        {
            &&& 0 <= i < s.len()
            &&& !is_digit(#[trigger] s[i])
            &&& forall|k: int| i <= k < s.len() ==> s[k] != '.'
        }
}

/// Whether `host` is one of the hosts that `pattern` stands for. A pattern
/// that begins with a period stands for every host whose name is made by
/// adding one or more labels to the left; any other stands for the one host
/// with that name.
pub open spec fn in_host_subtree(pattern: Seq<char>, host: Seq<char>) -> bool {
    &&& is_host_name(host)
    &&& if pattern.len() > 0 && pattern[0] == '.' {
        let domain = pattern.skip(1);
        &&& valid_dns_name(domain)
        &&& in_dns_subtree(domain, host)
        &&& host.len() > domain.len()
    } else {
        valid_dns_name(pattern) && eq_ignore_ascii_case(pattern, host)
    }
}

fn digit(c: char) -> (r: bool)
    ensures
        r == is_digit(c),
{
    '0' <= c && c <= '9'
}

/// Whether the last label of `s` is not a number.
fn ends_in_name(s: &str) -> (r: bool)
    requires
        s.is_ascii(),
    ensures
        r == (exists|i: int|
            {
                &&& 0 <= i < s@.len()
                &&& !is_digit(#[trigger] s@[i])
                &&& forall|k: int| i <= k < s@.len() ==> s@[k] != '.'
            }),
{
    let mut i: usize = s.unicode_len();
    while i > 0
        invariant
            s.is_ascii(),
            i <= s@.len(),
            forall|k: int| i <= k < s@.len() ==> is_digit(#[trigger] s@[k]),
        decreases i,
    {
        let c = ascii_at(s, i - 1);
        if c == '.' {
            return false;
        }
        if !digit(c) {
            return true;
        }
        i = i - 1;
    }
    false
}

/// Whether `host` is one of the hosts that `pattern` stands for.
fn host_matches(pattern: &str, host: &str) -> (r: bool)
    requires
        host.is_ascii(),
    ensures
        r == in_host_subtree(pattern@, host@),
{
    let name = match DNSName::new(host) {
        Some(name) => name,
        None => return false,
    };
    if !ends_in_name(host) {
        return false;
    }
    let n: usize = pattern.unicode_len();
    if n > 0 && pattern.get_char(0) == '.' {
        let domain = pattern.substring_char(1, n);
        match DNSConstraint::new(domain) {
            Some(root) => root.matches(&name) && host.unicode_len() > n - 1,
            None => false,
        }
    } else {
        match DNSConstraint::new(pattern) {
            Some(root) => {
                host.unicode_len() == n && root.matches(&name)
            },
            None => false,
        }
    }
}

/// The first position from `from` on at which `c` stands in `s`, or the length
/// of `s`.
pub open spec fn next_char(s: Seq<char>, c: char, from: int) -> int
    decreases s.len() - from,
{
    if from >= s.len() {
        s.len() as int
    } else if s[from] == c {
        from
    } else {
        next_char(s, c, from + 1)
    }
}

/// The last position at which `c` stands in `s`, or -1.
pub open spec fn last_char(s: Seq<char>, c: char) -> int
    decreases s.len(),
{
    if s.len() == 0 {
        -1
    } else if s.last() == c {
        s.len() - 1
    } else {
        last_char(s.drop_last(), c)
    }
}

/// The first position from `from` on at which `c` stands in `s`.
fn find_char(s: &str, c: char, from: usize) -> (r: usize)
    requires
        s.is_ascii(),
        from <= s@.len(),
    ensures
        r == next_char(s@, c, from as int),
        from <= r <= s@.len(),
{
    let n: usize = s.unicode_len();
    let mut i: usize = from;
    while i < n
        invariant
            s.is_ascii(),
            n == s@.len(),
            from <= i <= n,
            next_char(s@, c, from as int) == next_char(s@, c, i as int),
        decreases n - i,
    {
        if ascii_at(s, i) == c {
            return i;
        }
        i = i + 1;
    }
    n
}

// ---------------------------------------------------------------------------
// Mail addresses
// ---------------------------------------------------------------------------
/// The local part and the host of the mail address `s`, if it is one.
pub open spec fn mailbox(s: Seq<char>) -> Option<(Seq<char>, Seq<char>)> {
    let at = last_char(s, '@');
    if is_ascii_chars(s) && at > 0 && is_host_name(s.skip(at + 1)) {
        Some((s.take(at), s.skip(at + 1)))
    } else {
        None
    }
}

/// Whether `name` lies in the subtree of mail addresses under `pattern`. That
/// is the pattern itself; the same mailbox, if the pattern is a mail address,
/// without regard to the case of the host; and otherwise every mailbox at a
/// host that the pattern stands for.
pub open spec fn in_mail_subtree(pattern: Seq<char>, name: Seq<char>) -> bool {
    ||| pattern == name
    ||| match mailbox(name) {
        None => false,
        Some((local, host)) => match mailbox(pattern) {
            Some((want_local, want_host)) => {
                &&& want_local == local
                &&& eq_ignore_ascii_case(want_host, host)
            },
            None => in_host_subtree(pattern, host),
        },
    }
}

/// Where the host of the mail address `s` starts, if it is one.
fn mail_host(s: &str) -> (r: Option<usize>)
    ensures
        match r {
            Some(start) => {
                &&& is_ascii_chars(s@)
                &&& 1 < start <= s@.len()
                &&& mailbox(s@) == Some((s@.take(start - 1), s@.skip(start as int)))
                &&& is_host_name(s@.skip(start as int))
            },
            None => mailbox(s@) is None,
        },
{
    if !s.is_ascii() {
        return None;
    }
    let n: usize = s.unicode_len();
    let mut i: usize = n;
    assert(s@.take(n as int) =~= s@);
    while i > 0 && ascii_at(s, i - 1) != '@'
        invariant
            s.is_ascii(),
            n == s@.len(),
            i <= n,
            last_char(s@, '@') == last_char(s@.take(i as int), '@'),
        decreases i,
    {
        assert(s@.take(i as int).drop_last() =~= s@.take(i - 1));
        i = i - 1;
    }
    if i <= 1 {
        return None;
    }
    let host = s.substring_ascii(i, n);
    if DNSName::new(host).is_some() && ends_in_name(host) {
        Some(i)
    } else {
        None
    }
}

/// Whether `name` lies in the subtree of mail addresses under `pattern`.
pub fn mail_matches(pattern: &String, name: &String) -> (r: bool)
    ensures
        r == in_mail_subtree(pattern@, name@),
{
    if *pattern == *name {
        return true;
    }
    let text = name.as_str();
    let start = match mail_host(text) {
        Some(start) => start,
        None => return false,
    };
    let n: usize = text.unicode_len();
    let host = text.substring_ascii(start, n);
    match mail_host(pattern.as_str()) {
        Some(want_start) => {
            let want = pattern.as_str();
            let want_n: usize = want.unicode_len();
            let want_host = want.substring_ascii(want_start, want_n);
            let local = text.substring_ascii(0, start - 1);
            let want_local = want.substring_ascii(0, want_start - 1);
            local.to_string() == want_local.to_string() && same_host(want_host, host)
        },
        None => host_matches(pattern.as_str(), host),
    }
}

/// Whether two DNS names differ at most in case.
fn same_host(a: &str, b: &str) -> (r: bool)
    requires
        valid_dns_name(a@),
        valid_dns_name(b@),
    ensures
        r == eq_ignore_ascii_case(a@, b@),
{
    match (DNSConstraint::new(a), DNSName::new(b)) {
        (Some(root), Some(name)) => {
            a.unicode_len() == b.unicode_len() && root.matches(&name)
        },
        _ => false,
    }
}

// ---------------------------------------------------------------------------
// URIs
// ---------------------------------------------------------------------------
/// Whether `c` may occur in the scheme of a URI.
pub open spec fn is_scheme_char(c: char) -> bool {
    ||| 'a' <= c <= 'z'
    ||| 'A' <= c <= 'Z'
    ||| is_digit(c)
    ||| c == '+'
    ||| c == '-'
    ||| c == '.'
}

/// Whether `s` is the scheme of a URI: a letter, followed by letters, digits,
/// pluses, hyphens and periods.
pub open spec fn is_scheme(s: Seq<char>) -> bool {
    &&& s.len() > 0
    &&& 'a' <= s[0] <= 'z' || 'A' <= s[0] <= 'Z'
    &&& forall|i: int| 0 <= i < s.len() ==> is_scheme_char(#[trigger] s[i])
}

/// The end of the authority of the URI `s` that starts at `from`.
pub open spec fn authority_end(s: Seq<char>, from: int) -> int {
    let slash = next_char(s, '/', from);
    let question = next_char(s, '?', from);
    let hash = next_char(s, '#', from);
    if slash <= question && slash <= hash {
        slash
    } else if question <= hash {
        question
    } else {
        hash
    }
}

/// The host of the URI `s`, as it stands there between the user information
/// and the port, if it has an authority.
pub open spec fn uri_host(s: Seq<char>) -> Option<Seq<char>> {
    let colon = next_char(s, ':', 0);
    let authority = colon + 3;
    let end = authority_end(s, authority);
    let at = next_char(s, '@', authority);
    let start = if at < end {
        at + 1
    } else {
        authority
    };
    let port = next_char(s, ':', start);
    let stop = if port < end {
        port
    } else {
        end
    };
    if {
        &&& is_ascii_chars(s)
        &&& authority <= s.len()
        &&& is_scheme(s.take(colon))
        &&& s[colon + 1] == '/'
        &&& s[colon + 2] == '/'
        &&& forall|k: int| stop < k < end ==> is_digit(#[trigger] s[k])
    } {
        Some(s.subrange(start, stop))
    } else {
        None
    }
}

/// Whether `name` lies in the subtree of URIs under `pattern`: it is the
/// pattern itself, or its host is one of those that the pattern stands for. A
/// URI without an authority, or whose host is given by an address, has no such
/// host.
pub open spec fn in_uri_subtree(pattern: Seq<char>, name: Seq<char>) -> bool {
    ||| pattern == name
    ||| match uri_host(name) {
        Some(host) => in_host_subtree(pattern, host),
        None => false,
    }
}

/// Whether the first `n` characters of `s` are a scheme.
fn starts_with_scheme(s: &str, n: usize) -> (r: bool)
    requires
        s.is_ascii(),
        n <= s@.len(),
    ensures
        r == is_scheme(s@.take(n as int)),
{
    if n == 0 {
        return false;
    }
    let first = ascii_at(s, 0);
    if !(('a' <= first && first <= 'z') || ('A' <= first && first <= 'Z')) {
        return false;
    }
    let mut i: usize = 0;
    while i < n
        invariant
            s.is_ascii(),
            i <= n <= s@.len(),
            forall|k: int| 0 <= k < i ==> is_scheme_char(#[trigger] s@.take(n as int)[k]),
        decreases n - i,
    {
        let c = ascii_at(s, i);
        if !(('a' <= c && c <= 'z') || ('A' <= c && c <= 'Z') || digit(c) || c == '+' || c == '-'
            || c == '.') {
            assert(!is_scheme_char(s@.take(n as int)[i as int]));
            return false;
        }
        i = i + 1;
    }
    true
}

/// Whether the characters of `s` from `from` up to `to` are digits.
fn all_digits(s: &str, from: usize, to: usize) -> (r: bool)
    requires
        s.is_ascii(),
        from <= to <= s@.len(),
    ensures
        r == (forall|k: int| from <= k < to ==> is_digit(#[trigger] s@[k])),
{
    let mut i: usize = from;
    while i < to
        invariant
            s.is_ascii(),
            from <= i <= to <= s@.len(),
            forall|k: int| from <= k < i ==> is_digit(#[trigger] s@[k]),
        decreases to - i,
    {
        if !digit(ascii_at(s, i)) {
            return false;
        }
        i = i + 1;
    }
    true
}

/// The host of the URI `s`, if it has an authority.
fn find_uri_host<'a>(s: &'a str) -> (r: Option<&'a str>)
    ensures
        match r {
            Some(host) => uri_host(s@) == Some(host@) && host.is_ascii(),
            None => uri_host(s@) is None,
        },
{
    if !s.is_ascii() {
        return None;
    }
    let n: usize = s.unicode_len();
    let colon = find_char(s, ':', 0);
    if n < 3 || colon > n - 3 {
        return None;
    }
    if !starts_with_scheme(s, colon) || ascii_at(s, colon + 1) != '/' || ascii_at(s, colon + 2)
        != '/' {
        return None;
    }
    let authority: usize = colon + 3;
    let slash = find_char(s, '/', authority);
    let question = find_char(s, '?', authority);
    let hash = find_char(s, '#', authority);
    let end: usize = if slash <= question && slash <= hash {
        slash
    } else if question <= hash {
        question
    } else {
        hash
    };
    let at = find_char(s, '@', authority);
    let start: usize = if at < end {
        at + 1
    } else {
        authority
    };
    let port = find_char(s, ':', start);
    let stop: usize = if port < end {
        port
    } else {
        end
    };
    if stop < end && !all_digits(s, stop + 1, end) {
        return None;
    }
    Some(s.substring_ascii(start, stop))
}

/// Whether `name` lies in the subtree of URIs under `pattern`.
pub fn uri_matches(pattern: &String, name: &String) -> (r: bool)
    ensures
        r == in_uri_subtree(pattern@, name@),
{
    if *pattern == *name {
        return true;
    }
    match find_uri_host(name.as_str()) {
        Some(host) => host_matches(pattern.as_str(), host),
        None => false,
    }
}

// ---------------------------------------------------------------------------
// Directory names
// ---------------------------------------------------------------------------
/// Whether the directory name `name` lies in the subtree under `pattern`: it
/// starts with the relative names of the pattern. Relative names are compared
/// by their encodings.
pub open spec fn in_directory_subtree(pattern: Seq<Vec<u8>>, name: Seq<Vec<u8>>) -> bool {
    &&& pattern.len() <= name.len()
    &&& forall|i: int| 0 <= i < pattern.len() ==> (#[trigger] pattern[i])@ == name[i]@
}

/// Whether the directory name `name` lies in the subtree under `pattern`.
pub fn directory_matches(pattern: &Vec<Vec<u8>>, name: &Vec<Vec<u8>>) -> (r: bool)
    ensures
        r == in_directory_subtree(pattern@, name@),
{
    if pattern.len() > name.len() {
        return false;
    }
    let mut i: usize = 0;
    while i < pattern.len()
        invariant
            i <= pattern@.len() <= name@.len(),
            forall|k: int| 0 <= k < i ==> (#[trigger] pattern@[k])@ == name@[k]@,
        decreases pattern@.len() - i,
    {
        if !bytes_eq(pattern[i].as_slice(), name[i].as_slice()) {
            return false;
        }
        i = i + 1;
    }
    true
}

} // verus!
