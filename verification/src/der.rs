//! The DER encoding of octet strings.

use vstd::prelude::*;

verus! {

/// The base-256 digits of `n`, the most significant first, with no leading
/// zero.
pub open spec fn base256(n: nat) -> Seq<u8>
    decreases n,
{
    if n == 0 {
        Seq::empty()
    } else {
        base256(n / 256).push((n % 256) as u8)
    }
}

/// The DER encoding of the length `n`.
pub open spec fn der_length(n: nat) -> Seq<u8> {
    if n < 128 {
        seq![n as u8]
    } else {
        seq![(128 + base256(n).len()) as u8] + base256(n)
    }
}

/// Whether `der` is the DER encoding of the octet string `content`, of less
/// than 4 GiB.
pub open spec fn is_octet_string(der: Seq<u8>, content: Seq<u8>) -> bool {
    &&& content.len() <= 0xffff_ffff
    &&& der == seq![4u8] + der_length(content.len()) + content
}

/// The content of the octet string that `der` encodes, if it encodes one.
pub open spec fn octet_string(der: Seq<u8>) -> Option<Seq<u8>> {
    if exists|content: Seq<u8>| is_octet_string(der, content) {
        Some(choose|content: Seq<u8>| is_octet_string(der, content))
    } else {
        None
    }
}

proof fn lemma_base256_len(m: nat, n: nat)
    requires
        m <= n,
    ensures
        base256(m).len() <= base256(n).len(),
    decreases n,
{
    if m > 0 {
        lemma_base256_len(m / 256, n / 256);
    }
}

/// A DER encoding is the encoding of one octet string only.
pub proof fn lemma_octet_string_unique(der: Seq<u8>, a: Seq<u8>, b: Seq<u8>)
    requires
        is_octet_string(der, a),
        is_octet_string(der, b),
    ensures
        a == b,
{
    if a.len() <= b.len() {
        lemma_base256_len(a.len(), b.len());
    } else {
        lemma_base256_len(b.len(), a.len());
    }
    assert(base256(128) == base256(0).push(128u8)) by {
        reveal_with_fuel(base256, 2);
    }
    if a.len() >= 128 {
        lemma_base256_len(128, a.len());
    }
    if b.len() >= 128 {
        lemma_base256_len(128, b.len());
    }
    let start = 1 + der_length(a.len()).len();
    assert(a =~= der.skip(start as int));
}

/// `asn1::parse_single`, at the type of octet strings. It succeeds exactly if
/// `der` is the DER encoding of an octet string of less than 4 GiB, with
/// nothing after it, and then gives back the content.
#[verifier::external_body]
fn parse_single_octet_string<'a>(der: &'a [u8]) -> (r: Result<&'a [u8], asn1::ParseError>)
    ensures
        r matches Ok(content) ==> is_octet_string(der@, content@),
        r is Err ==> forall|content: Seq<u8>| !is_octet_string(der@, content),
{
    asn1::parse_single::<&'a [u8]>(der)
}

/// The content of the octet string that `der` encodes, if it encodes one.
pub fn parse_octet_string<'a>(der: &'a [u8]) -> (r: Option<&'a [u8]>)
    ensures
        match r {
            Some(content) => octet_string(der@) == Some(content@),
            None => octet_string(der@) is None,
        },
{
    match parse_single_octet_string(der) {
        Ok(content) => {
            proof {
                let chosen = octet_string(der@)->0;
                lemma_octet_string_unique(der@, chosen, content@);
            }
            Some(content)
        },
        Err(_) => None,
    }
}

} // verus!
