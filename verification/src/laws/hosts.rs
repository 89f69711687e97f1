//! Laws of mail addresses, URIs and directory names, in terms of their parts.

use vstd::prelude::*;
use vstd::utf8::is_ascii_chars;

use crate::hosts::{
    authority_end, in_directory_subtree, in_host_subtree, in_mail_subtree, in_uri_subtree,
    is_host_name, is_scheme, is_scheme_char, last_char, mailbox, next_char, uri_host,
};
use crate::laws::labels::{law_ignore_case, same_text};
use crate::types::{is_label_char, lemma_stray_char, valid_dns_name};

verus! {

/// A DNS name is made of letters, digits, hyphens and dots.
proof fn lemma_name_chars(s: Seq<char>)
    requires
        valid_dns_name(s),
    ensures
        forall|i: int| 0 <= i < s.len() ==> #[trigger] s[i] == '.' || is_label_char(s[i]),
        forall|i: int| 0 <= i < s.len() ==> '\0' <= #[trigger] s[i] <= '\u{7f}' && s[i] != '@',
{
    assert forall|i: int|
        0 <= i < s.len() implies #[trigger] s[i] == '.' || is_label_char(s[i]) by {
        if s[i] != '.' && !is_label_char(s[i]) {
            lemma_stray_char(s, i);
        }
    }
}

/// The address with the given local part and host.
pub open spec fn address(local: Seq<char>, host: Seq<char>) -> Seq<char> {
    local + seq!['@'] + host
}

proof fn lemma_last_char(s: Seq<char>, c: char, at: int)
    requires
        -1 <= at < s.len(),
        at >= 0 ==> s[at] == c,
        forall|k: int| at < k < s.len() ==> s[k] != c,
    ensures
        last_char(s, c) == at,
    decreases s.len(),
{
    if s.len() > 0 && at < s.len() - 1 {
        lemma_last_char(s.drop_last(), c, at);
    }
}

proof fn lemma_last_char_found(s: Seq<char>, c: char)
    ensures
        -1 <= last_char(s, c) < s.len(),
        last_char(s, c) >= 0 ==> s[last_char(s, c)] == c,
        forall|k: int| last_char(s, c) < k < s.len() ==> s[k] != c,
    decreases s.len(),
{
    if s.len() > 0 && s.last() != c {
        lemma_last_char_found(s.drop_last(), c);
        assert forall|k: int| last_char(s, c) < k < s.len() implies s[k] != c by {
            if k < s.len() - 1 {
                assert(s.drop_last()[k] == s[k]);
            }
        }
    }
}

/// A text is a mail address exactly if it is ASCII and made of a local part, an
/// at sign, and the name of a host; and these are its parts.
pub proof fn law_mailbox(s: Seq<char>, local: Seq<char>, host: Seq<char>)
    ensures
        mailbox(s) == Some((local, host)) <==> {
            &&& s == address(local, host)
            &&& local.len() > 0
            &&& is_host_name(host)
            &&& is_ascii_chars(s)
        },
{
    if mailbox(s) == Some((local, host)) {
        let at = last_char(s, '@');
        lemma_last_char_found(s, '@');
        assert(s =~= address(local, host));
    }
    if s == address(local, host) && local.len() > 0 && is_host_name(host) && is_ascii_chars(s) {
        lemma_name_chars(host);
        let at = local.len() as int;
        assert forall|k: int| at < k < s.len() implies s[k] != '@' by {
            assert(s[k] == host[k - at - 1]);
        }
        lemma_last_char(s, '@', at);
        assert(s.take(at) =~= local);
        assert(s.skip(at + 1) =~= host);
    }
}

/// Every text lies in the subtree of mail addresses that it is the root of.
pub proof fn law_mail_root(name: Seq<char>)
    ensures
        in_mail_subtree(name, name),
{
}

/// A mail address as a pattern stands for one mailbox: the same local part, at
/// the same host without regard to case.
pub proof fn law_mail_mailbox(
    pattern_local: Seq<char>,
    pattern_host: Seq<char>,
    local: Seq<char>,
    host: Seq<char>,
)
    requires
        pattern_local.len() > 0,
        local.len() > 0,
        is_host_name(pattern_host),
        is_host_name(host),
        is_ascii_chars(pattern_local),
        is_ascii_chars(local),
    ensures
        in_mail_subtree(address(pattern_local, pattern_host), address(local, host)) <==> {
            &&& pattern_local == local
            &&& same_text(pattern_host, host)
        },
{
    let pattern = address(pattern_local, pattern_host);
    let name = address(local, host);
    lemma_name_chars(pattern_host);
    lemma_name_chars(host);
    lemma_address_ascii(pattern_local, pattern_host);
    lemma_address_ascii(local, host);
    law_mailbox(pattern, pattern_local, pattern_host);
    law_mailbox(name, local, host);
    law_mailbox(name, pattern_local, pattern_host);
    law_ignore_case(pattern_host, host);
}

proof fn lemma_address_ascii(local: Seq<char>, host: Seq<char>)
    requires
        is_ascii_chars(local),
        is_ascii_chars(host),
    ensures
        is_ascii_chars(address(local, host)),
{
    let s = address(local, host);
    assert forall|i: int| 0 <= i < s.len() implies '\0' <= #[trigger] s[i] <= '\u{7f}' by {
        if i < local.len() {
            assert(s[i] == local[i]);
        } else if i > local.len() {
            assert(s[i] == host[i - local.len() - 1]);
        }
    }
}

/// A pattern without an at sign stands for every mailbox at the hosts that it
/// stands for.
pub proof fn law_mail_hosts(pattern: Seq<char>, local: Seq<char>, host: Seq<char>)
    requires
        forall|i: int| 0 <= i < pattern.len() ==> #[trigger] pattern[i] != '@',
        local.len() > 0,
        is_host_name(host),
        is_ascii_chars(local),
    ensures
        in_mail_subtree(pattern, address(local, host)) <==> in_host_subtree(pattern, host),
{
    let name = address(local, host);
    lemma_name_chars(host);
    lemma_address_ascii(local, host);
    law_mailbox(name, local, host);
    assert(name[local.len() as int] == '@');
    if let Some(parts) = mailbox(pattern) {
        law_mailbox(pattern, parts.0, parts.1);
        assert(pattern[parts.0.len() as int] == '@');
    }
}

/// A text that is no mail address lies in no subtree of mail addresses but its
/// own.
pub proof fn law_mail_other(pattern: Seq<char>, name: Seq<char>)
    requires
        in_mail_subtree(pattern, name),
        pattern != name,
    ensures
        exists|local: Seq<char>, host: Seq<char>|
            name == #[trigger] address(local, host) && local.len() > 0 && is_host_name(host),
{
    let parts = mailbox(name)->0;
    law_mailbox(name, parts.0, parts.1);
}

/// Whether `c` ends the authority of a URI.
pub open spec fn ends_authority(c: char) -> bool {
    c == '/' || c == '?' || c == '#'
}

/// Whether `s` is the URI that is made of a scheme, a colon and two slashes,
/// user information, a host, a port and a rest. The user information is empty
/// or ends with an at sign; the port is empty or a colon and digits; the rest
/// is empty or starts with a slash, a question mark or a number sign.
pub open spec fn uri_parts(
    s: Seq<char>,
    scheme: Seq<char>,
    user: Seq<char>,
    host: Seq<char>,
    port: Seq<char>,
    rest: Seq<char>,
) -> bool {
    &&& s == scheme + seq![':', '/', '/'] + user + host + port + rest
    &&& is_ascii_chars(s)
    &&& scheme.len() > 0
    &&& 'a' <= scheme[0] <= 'z' || 'A' <= scheme[0] <= 'Z'
    &&& forall|i: int|
        0 <= i < scheme.len() ==> {
            ||| 'a' <= #[trigger] scheme[i] <= 'z'
            ||| 'A' <= scheme[i] <= 'Z'
            ||| '0' <= scheme[i] <= '9'
            ||| scheme[i] == '+'
            ||| scheme[i] == '-'
            ||| scheme[i] == '.'
        }
    &&& user.len() > 0 ==> user.last() == '@'
    &&& forall|i: int|
        0 <= i < user.len() - 1 ==> !ends_authority(#[trigger] user[i]) && user[i] != '@'
    &&& forall|i: int|
        0 <= i < host.len() ==> !ends_authority(#[trigger] host[i]) && host[i] != ':' && (user.len()
            == 0 ==> host[i] != '@')
    &&& port.len() > 0 ==> port[0] == ':'
    &&& forall|i: int| 0 < i < port.len() ==> '0' <= #[trigger] port[i] <= '9'
    &&& rest.len() > 0 ==> ends_authority(rest[0])
}

proof fn lemma_next_char(s: Seq<char>, c: char, from: int, to: int)
    requires
        from <= to <= s.len(),
        forall|k: int| from <= k < to ==> s[k] != c,
        to < s.len() ==> s[to] == c,
    ensures
        next_char(s, c, from) == to,
    decreases to - from,
{
    if from < to {
        lemma_next_char(s, c, from + 1, to);
    }
}

proof fn lemma_next_char_found(s: Seq<char>, c: char, from: int)
    requires
        0 <= from <= s.len(),
    ensures
        from <= next_char(s, c, from) <= s.len(),
        next_char(s, c, from) < s.len() ==> s[next_char(s, c, from)] == c,
        forall|k: int| from <= k < next_char(s, c, from) ==> s[k] != c,
    decreases s.len() - from,
{
    if from < s.len() && s[from] != c {
        lemma_next_char_found(s, c, from + 1);
    }
}

/// The end of an authority is the first place where something ends it.
proof fn lemma_authority_end(s: Seq<char>, from: int)
    requires
        0 <= from <= s.len(),
    ensures
        from <= authority_end(s, from) <= s.len(),
        authority_end(s, from) < s.len() ==> ends_authority(s[authority_end(s, from)]),
        forall|k: int| from <= k < authority_end(s, from) ==> !ends_authority(#[trigger] s[k]),
{
    lemma_next_char_found(s, '/', from);
    lemma_next_char_found(s, '?', from);
    lemma_next_char_found(s, '#', from);
}

/// A first place is unique.
proof fn lemma_authority_end_at(s: Seq<char>, from: int, to: int)
    requires
        0 <= from <= to <= s.len(),
        to < s.len() ==> ends_authority(s[to]),
        forall|k: int| from <= k < to ==> !ends_authority(#[trigger] s[k]),
    ensures
        authority_end(s, from) == to,
{
    lemma_authority_end(s, from);
    let end = authority_end(s, from);
    if end < to {
        assert(!ends_authority(s[end]));
    }
    if to < end {
        assert(!ends_authority(s[to]));
    }
}

/// A URI made of parts has the host that it is made with.
pub proof fn law_uri_host(
    s: Seq<char>,
    scheme: Seq<char>,
    user: Seq<char>,
    host: Seq<char>,
    port: Seq<char>,
    rest: Seq<char>,
)
    requires
        uri_parts(s, scheme, user, host, port, rest),
    ensures
        uri_host(s) == Some(host),
{
    let colon = scheme.len() as int;
    let authority = colon + 3;
    let start = authority + user.len();
    let stop = start + host.len();
    let end = stop + port.len();
    assert forall|k: int| 0 <= k < colon implies s[k] == scheme[k] by {}
    assert(s[colon] == ':');
    lemma_next_char(s, ':', 0, colon);
    assert(s.take(colon) =~= scheme);
    assert(is_scheme(scheme));
    assert forall|k: int| authority <= k < start implies s[k] == user[k - authority] by {}
    assert forall|k: int| start <= k < stop implies s[k] == host[k - start] by {}
    assert forall|k: int| stop <= k < end implies s[k] == port[k - stop] by {}
    assert(end < s.len() ==> s[end] == rest[0]);
    assert forall|k: int| authority <= k < end implies !ends_authority(#[trigger] s[k]) by {
        if k < start {
            assert(s[k] == user[k - authority]);
        } else if k < stop {
            assert(s[k] == host[k - start]);
        } else {
            assert(s[k] == port[k - stop]);
        }
    }
    lemma_authority_end_at(s, authority, end);
    if user.len() > 0 {
        assert forall|k: int| authority <= k < start - 1 implies s[k] != '@' by {
            assert(s[k] == user[k - authority]);
        }
        assert(s[start - 1] == user.last());
        lemma_next_char(s, '@', authority, start - 1);
    } else {
        lemma_next_char_found(s, '@', authority);
        let at = next_char(s, '@', authority);
        if at < end {
            if at < stop {
                assert(s[at] == host[at - start]);
            } else {
                assert(s[at] == port[at - stop]);
            }
        }
    }
    lemma_next_char_found(s, ':', start);
    let colon2 = next_char(s, ':', start);
    if colon2 < stop {
        assert(s[colon2] == host[colon2 - start]);
    }
    if port.len() > 0 {
        assert(s[stop] == port[0]);
    }
    assert forall|k: int| stop < k < end implies '0' <= #[trigger] s[k] <= '9' by {
        assert(s[k] == port[k - stop]);
    }
    assert(s.subrange(start, stop) =~= host);
}

/// A URI that has a host is made of parts, with that host among them.
pub proof fn law_uri_host_parts(s: Seq<char>)
    requires
        uri_host(s) is Some,
    ensures
        exists|scheme: Seq<char>, user: Seq<char>, port: Seq<char>, rest: Seq<char>|
            #[trigger] uri_parts(s, scheme, user, uri_host(s)->0, port, rest),
{
    let colon = next_char(s, ':', 0);
    lemma_next_char_found(s, ':', 0);
    let authority = colon + 3;
    lemma_authority_end(s, authority);
    let end = authority_end(s, authority);
    lemma_next_char_found(s, '@', authority);
    let at = next_char(s, '@', authority);
    let start = if at < end {
        at + 1
    } else {
        authority
    };
    lemma_next_char_found(s, ':', start);
    let colon2 = next_char(s, ':', start);
    let stop = if colon2 < end {
        colon2
    } else {
        end
    };
    let scheme = s.take(colon);
    let user = s.subrange(authority, start);
    let host = s.subrange(start, stop);
    let port = s.subrange(stop, end);
    let rest = s.skip(end);
    assert(s =~= scheme + seq![':', '/', '/'] + user + host + port + rest);
    assert forall|i: int| 0 <= i < scheme.len() implies is_scheme_char(#[trigger] scheme[i]) by {}
    assert forall|i: int| 0 <= i < user.len() - 1 implies !ends_authority(#[trigger] user[i])
        && user[i] != '@' by {
        assert(user[i] == s[authority + i]);
    }
    assert forall|i: int| 0 <= i < host.len() implies !ends_authority(#[trigger] host[i])
        && host[i] != ':' && (user.len() == 0 ==> host[i] != '@') by {
        assert(host[i] == s[start + i]);
    }
    assert forall|i: int| 0 < i < port.len() implies '0' <= #[trigger] port[i] <= '9' by {
        assert(port[i] == s[stop + i]);
    }
    assert(uri_host(s) == Some(host));
    assert(uri_parts(s, scheme, user, uri_host(s)->0, port, rest));
}

/// Every text lies in the subtree of URIs that it is the root of.
pub proof fn law_uri_root(name: Seq<char>)
    ensures
        in_uri_subtree(name, name),
{
}

/// A URI lies in the subtree of another text exactly if that stands for its
/// host.
pub proof fn law_uri_hosts(
    pattern: Seq<char>,
    s: Seq<char>,
    scheme: Seq<char>,
    user: Seq<char>,
    host: Seq<char>,
    port: Seq<char>,
    rest: Seq<char>,
)
    requires
        uri_parts(s, scheme, user, host, port, rest),
        pattern != s,
    ensures
        in_uri_subtree(pattern, s) <==> in_host_subtree(pattern, host),
{
    law_uri_host(s, scheme, user, host, port, rest);
}

/// A text that is no URI with a host lies in no subtree of URIs but its own.
pub proof fn law_uri_other(pattern: Seq<char>, name: Seq<char>)
    requires
        in_uri_subtree(pattern, name),
        pattern != name,
    ensures
        exists|
            scheme: Seq<char>,
            user: Seq<char>,
            host: Seq<char>,
            port: Seq<char>,
            rest: Seq<char>,
        | #[trigger]
            uri_parts(name, scheme, user, host, port, rest),
{
    law_uri_host_parts(name);
}

/// A directory name lies in a subtree exactly if its first relative names are
/// those of the subtree's root.
pub proof fn law_directory_prefix(pattern: Seq<Vec<u8>>, name: Seq<Vec<u8>>)
    ensures
        in_directory_subtree(pattern, name) <==> pattern.map_values(
            |rdn: Vec<u8>| rdn@,
        ).is_prefix_of(name.map_values(|rdn: Vec<u8>| rdn@)),
{
    let a = pattern.map_values(|rdn: Vec<u8>| rdn@);
    let b = name.map_values(|rdn: Vec<u8>| rdn@);
    if in_directory_subtree(pattern, name) {
        assert forall|i: int| 0 <= i < a.len() implies a[i] == b[i] by {
            assert(pattern[i]@ == name[i]@);
        }
        assert(a =~= b.subrange(0, a.len() as int));
    }
    if a.is_prefix_of(b) {
        assert forall|i: int| 0 <= i < pattern.len() implies (#[trigger] pattern[i])@
            == name[i]@ by {
            assert(a[i] == b.subrange(0, a.len() as int)[i]);
        }
    }
}

} // verus!
