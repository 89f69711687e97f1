//! Names and addresses, and the subtrees of names and addresses that a
//! certificate may be constrained to.

use vstd::prelude::*;

verus! {

// ---------------------------------------------------------------------------
// DNS names
// ---------------------------------------------------------------------------
/// Whether `c` may occur in a label of a DNS name.
pub open spec fn is_label_char(c: char) -> bool {
    ||| 'a' <= c <= 'z'
    ||| 'A' <= c <= 'Z'
    ||| '0' <= c <= '9'
    ||| c == '-'
}

/// Whether the characters of `s` from `a` up to `b` are one of the labels that
/// the dots of `s` separate.
pub open spec fn is_label(s: Seq<char>, a: int, b: int) -> bool {
    &&& 0 <= a <= b <= s.len()
    &&& a == 0 || s[a - 1] == '.'
    &&& b == s.len() || s[b] == '.'
    &&& forall|i: int| a <= i < b ==> s[i] != '.'
}

/// Whether `label` is well formed: one to 63 letters, digits and hyphens, with
/// no hyphen at either end.
pub open spec fn valid_label(label: Seq<char>) -> bool {
    &&& 1 <= label.len() <= 63
    &&& label[0] != '-'
    &&& label[label.len() - 1] != '-'
    &&& forall|i: int| 0 <= i < label.len() ==> is_label_char(#[trigger] label[i])
}

/// Whether `s` is a DNS name: one to 253 characters, each label well formed.
pub open spec fn valid_dns_name(s: Seq<char>) -> bool {
    &&& 1 <= s.len() <= 253
    &&& forall|a: int, b: int| #[trigger] is_label(s, a, b) ==> valid_label(s.subrange(a, b))
}

/// `c` in lower case, if it is an ASCII letter.
pub open spec fn ascii_lower(c: char) -> char {
    if 'A' <= c <= 'Z' {
        (c as u8 + 32) as char
    } else {
        c
    }
}

/// Whether `a` and `b` differ at most in the case of ASCII letters.
pub open spec fn eq_ignore_ascii_case(a: Seq<char>, b: Seq<char>) -> bool {
    &&& a.len() == b.len()
    &&& forall|i: int| 0 <= i < a.len() ==> ascii_lower(#[trigger] a[i]) == ascii_lower(b[i])
}

/// Whether `name` is `pattern` with zero or more labels added on the left,
/// without regard to case.
pub open spec fn in_dns_subtree(pattern: Seq<char>, name: Seq<char>) -> bool {
    let extra = name.len() - pattern.len();
    &&& extra >= 0
    &&& extra > 0 ==> name[extra - 1] == '.'
    &&& eq_ignore_ascii_case(pattern, name.skip(extra))
}

/// The start of the label that holds the character at `i`.
spec fn label_start(s: Seq<char>, i: int) -> int
    decreases i,
{
    if i <= 0 || s[i - 1] == '.' {
        i
    } else {
        label_start(s, i - 1)
    }
}

/// The end of the label that holds the character at `i - 1`.
spec fn label_end(s: Seq<char>, i: int) -> int
    decreases s.len() - i,
{
    if i >= s.len() || s[i] == '.' {
        i
    } else {
        label_end(s, i + 1)
    }
}

proof fn lemma_label_start(s: Seq<char>, i: int)
    requires
        0 <= i < s.len(),
    ensures
        0 <= label_start(s, i) <= i,
        label_start(s, i) == 0 || s[label_start(s, i) - 1] == '.',
        forall|k: int| label_start(s, i) <= k < i ==> s[k] != '.',
    decreases i,
{
    if !(i <= 0 || s[i - 1] == '.') {
        lemma_label_start(s, i - 1);
    }
}

proof fn lemma_label_end(s: Seq<char>, i: int)
    requires
        0 <= i <= s.len(),
    ensures
        i <= label_end(s, i) <= s.len(),
        label_end(s, i) == s.len() || s[label_end(s, i)] == '.',
        forall|k: int| i <= k < label_end(s, i) ==> s[k] != '.',
    decreases s.len() - i,
{
    if !(i >= s.len() || s[i] == '.') {
        lemma_label_end(s, i + 1);
    }
}

/// A name with a character that is neither a dot nor fit for a label is no
/// DNS name.
pub proof fn lemma_stray_char(s: Seq<char>, i: int)
    requires
        0 <= i < s.len(),
        s[i] != '.',
        !is_label_char(s[i]),
    ensures
        !valid_dns_name(s),
{
    lemma_label_start(s, i);
    lemma_label_end(s, i + 1);
    let a = label_start(s, i);
    let b = label_end(s, i + 1);
    assert(is_label(s, a, b));
    assert(s.subrange(a, b)[i - a] == s[i]);
}

fn fits_label(c: char) -> (r: bool)
    ensures
        r == is_label_char(c),
{
    ('a' <= c && c <= 'z') || ('A' <= c && c <= 'Z') || ('0' <= c && c <= '9') || c == '-'
}

fn lower(c: char) -> (r: char)
    ensures
        r == ascii_lower(c),
{
    if 'A' <= c && c <= 'Z' {
        (c as u8 + 32) as char
    } else {
        c
    }
}

/// The `i`-th character of the ASCII text `s`.
pub(crate) fn ascii_at(s: &str, i: usize) -> (r: char)
    requires
        s.is_ascii(),
        i < s@.len(),
    ensures
        r == s@[i as int],
{
    s.get_ascii(i) as char
}

/// A DNS name.
pub struct DNSName<'a> {
    value: &'a str,
}

impl<'a> View for DNSName<'a> {
    type V = Seq<char>;

    closed spec fn view(&self) -> Seq<char> {
        self.value@
    }
}

impl<'a> DNSName<'a> {
    #[verifier::type_invariant]
    spec fn well_formed(self) -> bool {
        valid_dns_name(self.value@) && self.value.is_ascii()
    }

    /// `value` as a DNS name, if it is one.
    pub fn new(value: &'a str) -> (r: Option<DNSName<'a>>)
        ensures
            r is Some <==> valid_dns_name(value@),
            r matches Some(name) ==> name@ == value@,
    {
        if !value.is_ascii() {
            proof {
                let i = choose|i: int|
                    0 <= i < value@.len() && !('\0' <= #[trigger] value@[i] <= '\u{7f}');
                lemma_stray_char(value@, i);
            }
            return None;
        }
        let n: usize = value.unicode_len();
        if n == 0 || n > 253 {
            return None;
        }
        let mut start: usize = 0;
        let mut i: usize = 0;
        loop
            invariant
                value.is_ascii(),
                n == value@.len(),
                1 <= n <= 253,
                0 <= start <= i <= n,
                start == 0 || value@[start - 1] == '.',
                forall|k: int| start <= k < i ==> #[trigger] value@[k] != '.',
                forall|k: int| start <= k < i ==> is_label_char(#[trigger] value@[k]),
                forall|a: int, b: int| #[trigger]
                    is_label(value@, a, b) && b < start ==> valid_label(value@.subrange(a, b)),
            decreases n - i,
        {
            let at_end = i == n;
            if at_end || ascii_at(value, i) == '.' {
                assert(is_label(value@, start as int, i as int));
                if i == start || i - start > 63 {
                    return None;
                }
                if ascii_at(value, start) == '-' || ascii_at(value, i - 1) == '-' {
                    return None;
                }
                if at_end {
                    return Some(DNSName { value });
                }
                start = i + 1;
            } else if !fits_label(ascii_at(value, i)) {
                proof {
                    lemma_stray_char(value@, i as int);
                }
                return None;
            }
            i = i + 1;
        }
    }
}

/// A DNS name constraint: the names of one subtree.
pub struct DNSConstraint<'a> {
    root: DNSName<'a>,
}

impl<'a> View for DNSConstraint<'a> {
    type V = Seq<char>;

    closed spec fn view(&self) -> Seq<char> {
        self.root@
    }
}

impl<'a> DNSConstraint<'a> {
    /// The constraint to the subtree under `pattern`, if that is a DNS name.
    pub fn new(pattern: &'a str) -> (r: Option<DNSConstraint<'a>>)
        ensures
            r is Some <==> valid_dns_name(pattern@),
            r matches Some(constraint) ==> constraint@ == pattern@,
    {
        match DNSName::new(pattern) {
            Some(root) => Some(DNSConstraint { root }),
            None => None,
        }
    }

    /// Whether `name` lies in the subtree. Any name that can be made by adding
    /// zero or more labels to the left of the constraint does.
    pub fn matches(&self, name: &DNSName<'_>) -> (r: bool)
        ensures
            r == in_dns_subtree(self@, name@),
    {
        proof {
            use_type_invariant(&self.root);
            use_type_invariant(name);
        }
        let pattern = self.root.value;
        let full = name.value;
        let m: usize = pattern.unicode_len();
        let n: usize = full.unicode_len();
        if n < m {
            return false;
        }
        let extra: usize = n - m;
        if extra > 0 && ascii_at(full, extra - 1) != '.' {
            return false;
        }
        let mut i: usize = 0;
        while i < m
            invariant
                pattern@ == self@,
                full@ == name@,
                m == pattern@.len(),
                n == full@.len(),
                n == m + extra,
                i <= m,
                pattern.is_ascii(),
                full.is_ascii(),
                forall|k: int|
                    0 <= k < i ==> ascii_lower(#[trigger] pattern@[k]) == ascii_lower(
                        full@[extra + k],
                    ),
            decreases m - i,
        {
            if lower(ascii_at(pattern, i)) != lower(ascii_at(full, extra + i)) {
                return false;
            }
            i = i + 1;
        }
        true
    }
}

// ---------------------------------------------------------------------------
// IP addresses
// ---------------------------------------------------------------------------
/// The `i`-th bit of `b`, the most significant bit of the first byte first.
pub open spec fn bit(b: Seq<u8>, i: int) -> bool {
    (b[i / 8] >> ((7 - i % 8) as u8)) & 1u8 == 1u8
}

/// Whether `b` is an IPv4 or IPv6 address.
pub open spec fn valid_ip_address(b: Seq<u8>) -> bool {
    b.len() == 4 || b.len() == 16
}

/// Whether `mask` is a run of `prefix` ones followed by zeros.
pub open spec fn is_prefix_mask(mask: Seq<u8>, prefix: int) -> bool {
    &&& 0 <= prefix <= 8 * mask.len()
    &&& forall|i: int| 0 <= i < 8 * mask.len() ==> #[trigger] bit(mask, i) == (i < prefix)
}

/// The second half of `b`, where a subnet's mask stands.
pub open spec fn mask_of(b: Seq<u8>) -> Seq<u8> {
    b.skip(b.len() as int / 2)
}

/// Whether `b` is an address followed by a subnet mask.
pub open spec fn valid_ip_constraint(b: Seq<u8>) -> bool {
    &&& b.len() == 8 || b.len() == 32
    &&& exists|prefix: int| is_prefix_mask(mask_of(b), prefix)
}

/// Whether `address` lies in the subnet that `constraint` describes: it is of
/// the same family, and agrees with the subnet's address wherever the mask is
/// set.
pub open spec fn in_ip_subnet(constraint: Seq<u8>, address: Seq<u8>) -> bool {
    &&& address.len() == constraint.len() / 2
    &&& forall|i: int|
        0 <= i < 8 * address.len() && bit(mask_of(constraint), i) ==> #[trigger] bit(address, i)
            == bit(constraint, i)
}

fn get_bit(b: &[u8], i: usize) -> (r: bool)
    requires
        i < 8 * b@.len(),
    ensures
        r == bit(b@, i as int),
{
    (b[i / 8] >> ((7 - i % 8) as u8)) & 1u8 == 1u8
}

/// An IP address.
pub struct IPAddress<'a> {
    octets: &'a [u8],
}

impl<'a> View for IPAddress<'a> {
    type V = Seq<u8>;

    closed spec fn view(&self) -> Seq<u8> {
        self.octets@
    }
}

impl<'a> IPAddress<'a> {
    #[verifier::type_invariant]
    spec fn well_formed(self) -> bool {
        valid_ip_address(self.octets@)
    }

    /// The address with the given octets, of which there must be 4 or 16.
    pub fn from_bytes(b: &'a [u8]) -> (r: Option<IPAddress<'a>>)
        ensures
            r is Some <==> valid_ip_address(b@),
            r matches Some(address) ==> address@ == b@,
    {
        if b.len() == 4 || b.len() == 16 {
            Some(IPAddress { octets: b })
        } else {
            None
        }
    }
}

/// An IP address constraint: the addresses of one subnet.
pub struct IPConstraint<'a> {
    octets: &'a [u8],
    prefix: usize,
}

impl<'a> View for IPConstraint<'a> {
    type V = Seq<u8>;

    closed spec fn view(&self) -> Seq<u8> {
        self.octets@
    }
}

impl<'a> IPConstraint<'a> {
    #[verifier::type_invariant]
    spec fn well_formed(self) -> bool {
        &&& self.octets@.len() == 8 || self.octets@.len() == 32
        &&& is_prefix_mask(mask_of(self.octets@), self.prefix as int)
    }

    /// The subnet that `b` describes: 8 or 32 octets, the first half an
    /// address and the second half a mask of ones followed by zeros.
    pub fn from_bytes(b: &'a [u8]) -> (r: Option<IPConstraint<'a>>)
        ensures
            r is Some <==> valid_ip_constraint(b@),
            r matches Some(constraint) ==> constraint@ == b@,
    {
        if b.len() != 8 && b.len() != 32 {
            return None;
        }
        let half: usize = b.len() / 2;
        let ghost mask = mask_of(b@);
        let bits: usize = 8 * half;
        let mut prefix: usize = 0;
        while prefix < bits && get_bit(b, bits + prefix)
            invariant
                b@.len() == 2 * half,
                bits == 8 * half,
                half == 4 || half == 16,
                mask == mask_of(b@),
                prefix <= bits,
                forall|i: int| 0 <= i < prefix ==> #[trigger] bit(mask, i),
            decreases bits - prefix,
        {
            proof {
                lemma_mask_bit(b@, half as int, prefix as int);
            }
            prefix = prefix + 1;
        }
        let ghost first = prefix as int;
        proof {
            if prefix < bits {
                lemma_mask_bit(b@, half as int, prefix as int);
            }
        }
        let mut i: usize = prefix;
        while i < bits
            invariant
                b@.len() == 2 * half,
                bits == 8 * half,
                half == 4 || half == 16,
                mask == mask_of(b@),
                first <= i <= bits,
                first == prefix,
                forall|k: int| 0 <= k < first ==> #[trigger] bit(mask, k),
                first < bits ==> !bit(mask, first),
                forall|k: int| first <= k < i ==> !#[trigger] bit(mask, k),
            decreases bits - i,
        {
            proof {
                lemma_mask_bit(b@, half as int, i as int);
            }
            if get_bit(b, bits + i) {
                return None;
            }
            i = i + 1;
        }
        Some(IPConstraint { octets: b, prefix })
    }

    /// Whether `address` lies in the subnet.
    pub fn matches(&self, address: &IPAddress<'_>) -> (r: bool)
        ensures
            r == in_ip_subnet(self@, address@),
    {
        proof {
            use_type_invariant(self);
            use_type_invariant(address);
        }
        let half: usize = self.octets.len() / 2;
        if address.octets.len() != half {
            return false;
        }
        let ghost mask = mask_of(self.octets@);
        let mut i: usize = 0;
        while i < self.prefix
            invariant
                half == self.octets@.len() / 2,
                self.octets@.len() == 8 || self.octets@.len() == 32,
                address.octets@.len() == half,
                mask == mask_of(self.octets@),
                is_prefix_mask(mask, self.prefix as int),
                i <= self.prefix,
                forall|k: int|
                    0 <= k < i ==> #[trigger] bit(address.octets@, k) == bit(self.octets@, k),
            decreases self.prefix - i,
        {
            if get_bit(address.octets, i) != get_bit(self.octets, i) {
                return false;
            }
            i = i + 1;
        }
        true
    }
}

/// The bits of the second half of `b` are the bits of its mask.
proof fn lemma_mask_bit(b: Seq<u8>, half: int, i: int)
    requires
        half == 4 || half == 16,
        b.len() == 2 * half,
        0 <= i < 8 * half,
    ensures
        bit(b, 8 * half + i) == bit(mask_of(b), i),
{
}

} // verus!
