//! Laws of IP addresses and subnets, in terms of their octets.

use vstd::prelude::*;

use crate::types::{
    bit, in_ip_subnet, is_prefix_mask, mask_of, valid_ip_address, valid_ip_constraint,
};

verus! {

/// Two octets agree under a mask exactly if they agree in each bit that the
/// mask has.
proof fn lemma_octet_agrees(x: u8, y: u8, m: u8)
    ensures
        x & m == y & m <==> {
            &&& (m >> 7u8) & 1u8 == 1u8 ==> ((x >> 7u8) & 1u8 == 1u8) == ((y >> 7u8) & 1u8 == 1u8)
            &&& (m >> 6u8) & 1u8 == 1u8 ==> ((x >> 6u8) & 1u8 == 1u8) == ((y >> 6u8) & 1u8 == 1u8)
            &&& (m >> 5u8) & 1u8 == 1u8 ==> ((x >> 5u8) & 1u8 == 1u8) == ((y >> 5u8) & 1u8 == 1u8)
            &&& (m >> 4u8) & 1u8 == 1u8 ==> ((x >> 4u8) & 1u8 == 1u8) == ((y >> 4u8) & 1u8 == 1u8)
            &&& (m >> 3u8) & 1u8 == 1u8 ==> ((x >> 3u8) & 1u8 == 1u8) == ((y >> 3u8) & 1u8 == 1u8)
            &&& (m >> 2u8) & 1u8 == 1u8 ==> ((x >> 2u8) & 1u8 == 1u8) == ((y >> 2u8) & 1u8 == 1u8)
            &&& (m >> 1u8) & 1u8 == 1u8 ==> ((x >> 1u8) & 1u8 == 1u8) == ((y >> 1u8) & 1u8 == 1u8)
            &&& (m >> 0u8) & 1u8 == 1u8 ==> ((x >> 0u8) & 1u8 == 1u8) == ((y >> 0u8) & 1u8 == 1u8)
        },
{
    assert(x & m == y & m <==> {
        &&& (m >> 7u8) & 1u8 == 1u8 ==> ((x >> 7u8) & 1u8 == 1u8) == ((y >> 7u8) & 1u8 == 1u8)
        &&& (m >> 6u8) & 1u8 == 1u8 ==> ((x >> 6u8) & 1u8 == 1u8) == ((y >> 6u8) & 1u8 == 1u8)
        &&& (m >> 5u8) & 1u8 == 1u8 ==> ((x >> 5u8) & 1u8 == 1u8) == ((y >> 5u8) & 1u8 == 1u8)
        &&& (m >> 4u8) & 1u8 == 1u8 ==> ((x >> 4u8) & 1u8 == 1u8) == ((y >> 4u8) & 1u8 == 1u8)
        &&& (m >> 3u8) & 1u8 == 1u8 ==> ((x >> 3u8) & 1u8 == 1u8) == ((y >> 3u8) & 1u8 == 1u8)
        &&& (m >> 2u8) & 1u8 == 1u8 ==> ((x >> 2u8) & 1u8 == 1u8) == ((y >> 2u8) & 1u8 == 1u8)
        &&& (m >> 1u8) & 1u8 == 1u8 ==> ((x >> 1u8) & 1u8 == 1u8) == ((y >> 1u8) & 1u8 == 1u8)
        &&& (m >> 0u8) & 1u8 == 1u8 ==> ((x >> 0u8) & 1u8 == 1u8) == ((y >> 0u8) & 1u8 == 1u8)
    }) by (bit_vector);
}

/// The bits of the `k`-th octet.
proof fn lemma_bits_of(b: Seq<u8>, k: int)
    requires
        0 <= k,
    ensures
        bit(b, 8 * k) == ((b[k] >> 7u8) & 1u8 == 1u8),
        bit(b, 8 * k + 1) == ((b[k] >> 6u8) & 1u8 == 1u8),
        bit(b, 8 * k + 2) == ((b[k] >> 5u8) & 1u8 == 1u8),
        bit(b, 8 * k + 3) == ((b[k] >> 4u8) & 1u8 == 1u8),
        bit(b, 8 * k + 4) == ((b[k] >> 3u8) & 1u8 == 1u8),
        bit(b, 8 * k + 5) == ((b[k] >> 2u8) & 1u8 == 1u8),
        bit(b, 8 * k + 6) == ((b[k] >> 1u8) & 1u8 == 1u8),
        bit(b, 8 * k + 7) == ((b[k] >> 0u8) & 1u8 == 1u8),
{
}

/// An address lies in a subnet exactly if it has as many octets as half the
/// constraint, and each of them agrees with the subnet's own address under the
/// mask, which is the other half.
pub proof fn law_ip_octets(constraint: Seq<u8>, address: Seq<u8>)
    ensures
        in_ip_subnet(constraint, address) <==> {
            &&& address.len() == constraint.len() / 2
            &&& forall|k: int|
                0 <= k < address.len() ==> (#[trigger] address[k]) & constraint[address.len() + k]
                    == constraint[k] & constraint[address.len() + k]
        },
{
    let mask = mask_of(constraint);
    let n = address.len() as int;
    if n == constraint.len() / 2 {
        assert forall|k: int| 0 <= k < n implies (#[trigger] mask[k]) == constraint[n + k] by {}
        if in_ip_subnet(constraint, address) {
            assert forall|k: int| 0 <= k < n implies (#[trigger] address[k]) & constraint[n + k]
                == constraint[k] & constraint[n + k] by {
                lemma_bits_of(address, k);
                lemma_bits_of(constraint, k);
                lemma_bits_of(mask, k);
                assert(mask[k] == constraint[n + k]);
                lemma_octet_agrees(address[k], constraint[k], mask[k]);
            }
        }
        if forall|k: int|
            0 <= k < n ==> (#[trigger] address[k]) & constraint[n + k] == constraint[k]
                & constraint[n + k] {
            assert forall|i: int| 0 <= i < 8 * n && bit(mask, i) implies #[trigger] bit(address, i)
                == bit(constraint, i) by {
                let k = i / 8;
                lemma_bits_of(address, k);
                lemma_bits_of(constraint, k);
                lemma_bits_of(mask, k);
                assert(mask[k] == constraint[n + k]);
                assert(address[k] & constraint[n + k] == constraint[k] & constraint[n + k]);
                lemma_octet_agrees(address[k], constraint[k], mask[k]);
                assert(i == 8 * k + i % 8);
            }
        }
    }
}

/// Under a mask of all ones the subnet holds its own address and no other.
pub proof fn law_ip_single_host(base: Seq<u8>, address: Seq<u8>)
    ensures
        in_ip_subnet(base + Seq::new(base.len(), |i: int| 255u8), address) <==> address == base,
{
    let constraint = base + Seq::new(base.len(), |i: int| 255u8);
    law_ip_octets(constraint, address);
    assert forall|x: u8| #[trigger] (x & 255u8) == x by {
        assert(x & 255u8 == x) by (bit_vector);
    }
    if in_ip_subnet(constraint, address) {
        assert forall|k: int| 0 <= k < base.len() implies address[k] == base[k] by {
            assert(address[k] & constraint[address.len() + k] == constraint[k]
                & constraint[address.len() + k]);
        }
        assert(address =~= base);
    }
}

/// Whether addresses that differ in one octet lie in a subnet is decided by
/// that octet's mask: if it is all zeros, both do or neither does.
pub proof fn law_ip_masked_octet(constraint: Seq<u8>, address: Seq<u8>, k: int, octet: u8)
    requires
        0 <= k < address.len(),
        constraint[address.len() + k] == 0,
    ensures
        in_ip_subnet(constraint, address) == in_ip_subnet(constraint, address.update(k, octet)),
{
    let other = address.update(k, octet);
    law_ip_octets(constraint, address);
    law_ip_octets(constraint, other);
    assert forall|x: u8| #[trigger] (x & 0u8) == 0u8 by {
        assert(x & 0u8 == 0u8) by (bit_vector);
    }
    if in_ip_subnet(constraint, address) {
        assert forall|j: int| 0 <= j < other.len() implies (#[trigger] other[j])
            & constraint[other.len() + j] == constraint[j] & constraint[other.len() + j] by {
            assert(address[j] & constraint[address.len() + j] == constraint[j]
                & constraint[address.len() + j]);
        }
    }
    if in_ip_subnet(constraint, other) {
        assert forall|j: int| 0 <= j < address.len() implies (#[trigger] address[j])
            & constraint[address.len() + j] == constraint[j] & constraint[address.len() + j] by {
            assert(other[j] & constraint[other.len() + j] == constraint[j]
                & constraint[other.len() + j]);
        }
    }
}

/// Whether `m` is some ones followed by zeros.
pub open spec fn is_mask_octet(m: u8) -> bool {
    m == 0 || m == 128 || m == 192 || m == 224 || m == 240 || m == 248 || m == 252 || m == 254 || m
        == 255
}

/// The octet whose first `t` bits are ones.
proof fn lemma_mask_octet(m: u8, t: u8)
    requires
        t <= 8,
    ensures
        ({
            &&& ((m >> 7u8) & 1u8 == 1u8) == (0 < t)
            &&& ((m >> 6u8) & 1u8 == 1u8) == (1 < t)
            &&& ((m >> 5u8) & 1u8 == 1u8) == (2 < t)
            &&& ((m >> 4u8) & 1u8 == 1u8) == (3 < t)
            &&& ((m >> 3u8) & 1u8 == 1u8) == (4 < t)
            &&& ((m >> 2u8) & 1u8 == 1u8) == (5 < t)
            &&& ((m >> 1u8) & 1u8 == 1u8) == (6 < t)
            &&& ((m >> 0u8) & 1u8 == 1u8) == (7 < t)
        }) <==> m == ones(t),
{
    assert(({
        &&& ((m >> 7u8) & 1u8 == 1u8) == (0 < t)
        &&& ((m >> 6u8) & 1u8 == 1u8) == (1 < t)
        &&& ((m >> 5u8) & 1u8 == 1u8) == (2 < t)
        &&& ((m >> 4u8) & 1u8 == 1u8) == (3 < t)
        &&& ((m >> 3u8) & 1u8 == 1u8) == (4 < t)
        &&& ((m >> 2u8) & 1u8 == 1u8) == (5 < t)
        &&& ((m >> 1u8) & 1u8 == 1u8) == (6 < t)
        &&& ((m >> 0u8) & 1u8 == 1u8) == (7 < t)
    }) <==> m == (if t == 0 {
        0u8
    } else if t == 1 {
        128u8
    } else if t == 2 {
        192u8
    } else if t == 3 {
        224u8
    } else if t == 4 {
        240u8
    } else if t == 5 {
        248u8
    } else if t == 6 {
        252u8
    } else if t == 7 {
        254u8
    } else {
        255u8
    })) by (bit_vector)
        requires
            t <= 8,
    ;
}

spec fn ones(t: u8) -> u8 {
    if t == 0 {
        0u8
    } else if t == 1 {
        128u8
    } else if t == 2 {
        192u8
    } else if t == 3 {
        224u8
    } else if t == 4 {
        240u8
    } else if t == 5 {
        248u8
    } else if t == 6 {
        252u8
    } else if t == 7 {
        254u8
    } else {
        255u8
    }
}

/// How many of the first eight of `prefix - 8 * k` bits are ones.
spec fn ones_in(prefix: int, k: int) -> u8 {
    if prefix <= 8 * k {
        0
    } else if prefix >= 8 * k + 8 {
        8
    } else {
        (prefix - 8 * k) as u8
    }
}

/// A mask by its prefix, and a mask by its octets.
proof fn lemma_prefix_octets(mask: Seq<u8>, prefix: int)
    requires
        0 <= prefix <= 8 * mask.len(),
    ensures
        is_prefix_mask(mask, prefix) <==> forall|k: int|
            0 <= k < mask.len() ==> #[trigger] mask[k] == ones(ones_in(prefix, k)),
{
    if is_prefix_mask(mask, prefix) {
        assert forall|k: int| 0 <= k < mask.len() implies #[trigger] mask[k] == ones(
            ones_in(prefix, k),
        ) by {
            lemma_bits_of(mask, k);
            lemma_mask_octet(mask[k], ones_in(prefix, k));
        }
    }
    if forall|k: int| 0 <= k < mask.len() ==> #[trigger] mask[k] == ones(ones_in(prefix, k)) {
        assert forall|i: int| 0 <= i < 8 * mask.len() implies #[trigger] bit(mask, i) == (i
            < prefix) by {
            let k = i / 8;
            assert(mask[k] == ones(ones_in(prefix, k)));
            lemma_bits_of(mask, k);
            lemma_mask_octet(mask[k], ones_in(prefix, k));
            assert(i == 8 * k + i % 8);
        }
    }
}

/// The length of the prefix of a mask.
proof fn lemma_mask_prefix(mask: Seq<u8>) -> (prefix: int)
    requires
        mask.len() > 0,
        forall|k: int| 0 <= k < mask.len() ==> is_mask_octet(#[trigger] mask[k]),
        forall|k: int, j: int|
            0 <= k < j < mask.len() && #[trigger] mask[k] != 255 ==> #[trigger] mask[j] == 0,
    ensures
        is_prefix_mask(mask, prefix),
{
    let all = forall|k: int| 0 <= k < mask.len() ==> #[trigger] mask[k] == 255;
    if all {
        let prefix = 8 * mask.len() as int;
        lemma_prefix_octets(mask, prefix);
        prefix
    } else {
        let at = lemma_first_other(mask, mask.len() as int);
        let m = mask[at];
        let t: int = if m == 0 {
            0
        } else if m == 128 {
            1
        } else if m == 192 {
            2
        } else if m == 224 {
            3
        } else if m == 240 {
            4
        } else if m == 248 {
            5
        } else if m == 252 {
            6
        } else {
            7
        };
        let prefix = 8 * at + t;
        assert forall|k: int| 0 <= k < mask.len() implies #[trigger] mask[k] == ones(
            ones_in(prefix, k),
        ) by {
            if k > at {
                assert(mask[at] != 255);
            }
        }
        lemma_prefix_octets(mask, prefix);
        prefix
    }
}

/// The first octet that is not all ones.
proof fn lemma_first_other(mask: Seq<u8>, n: int) -> (at: int)
    requires
        0 <= n <= mask.len(),
        exists|k: int| 0 <= k < n && #[trigger] mask[k] != 255,
    ensures
        0 <= at < n,
        mask[at] != 255,
        forall|k: int| 0 <= k < at ==> #[trigger] mask[k] == 255,
    decreases n,
{
    if exists|k: int| 0 <= k < n - 1 && #[trigger] mask[k] != 255 {
        lemma_first_other(mask, n - 1)
    } else {
        n - 1
    }
}

/// A constraint is well formed exactly if it has 8 or 32 octets and the second
/// half is a mask: octets of all ones, then at most one of ones followed by
/// zeros, then octets of all zeros.
pub proof fn law_ip_constraint(b: Seq<u8>)
    ensures
        valid_ip_constraint(b) <==> {
            &&& b.len() == 8 || b.len() == 32
            &&& forall|k: int|
                b.len() / 2 <= k < b.len() ==> is_mask_octet(#[trigger] b[k])
            &&& forall|k: int, j: int|
                b.len() / 2 <= k < j < b.len() && #[trigger] b[k] != 255 ==> #[trigger] b[j] == 0
        },
{
    let half = b.len() as int / 2;
    let mask = mask_of(b);
    if b.len() == 8 || b.len() == 32 {
        assert forall|k: int| 0 <= k < half implies #[trigger] mask[k] == b[half + k] by {}
        if valid_ip_constraint(b) {
            let prefix = choose|prefix: int| is_prefix_mask(mask, prefix);
            lemma_prefix_octets(mask, prefix);
            assert forall|k: int| half <= k < b.len() implies is_mask_octet(#[trigger] b[k]) && b[k]
                == ones(ones_in(prefix, k - half)) by {
                assert(mask[k - half] == b[k]);
            }
            assert forall|k: int, j: int|
                half <= k < j < b.len() && #[trigger] b[k] != 255 implies #[trigger] b[j] == 0 by {
                assert(b[k] == ones(ones_in(prefix, k - half)));
                assert(b[j] == ones(ones_in(prefix, j - half)));
            }
        }
        if (forall|k: int| half <= k < b.len() ==> is_mask_octet(#[trigger] b[k])) && (forall|
            k: int,
            j: int,
        |
            half <= k < j < b.len() && #[trigger] b[k] != 255 ==> #[trigger] b[j] == 0) {
            assert forall|k: int| 0 <= k < mask.len() implies is_mask_octet(#[trigger] mask[k]) by {
                assert(mask[k] == b[half + k]);
            }
            assert forall|k: int, j: int|
                0 <= k < j < mask.len() && #[trigger] mask[k] != 255 implies #[trigger] mask[j]
                == 0 by {
                assert(mask[k] == b[half + k]);
                assert(mask[j] == b[half + j]);
            }
            let prefix = lemma_mask_prefix(mask);
        }
    }
}

/// An address has the octets of IPv4 or of IPv6.
pub proof fn law_ip_address(b: Seq<u8>)
    ensures
        valid_ip_address(b) <==> b.len() == 4 || b.len() == 16,
{
}

} // verus!
