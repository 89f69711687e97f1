//! Laws of encodings, messages, errors and limits.

use std::sync::Arc;
use vstd::prelude::*;
use vstd::std_specs::convert::FromSpec;

use crate::budget::{name_constraint_limit, signature_limit, Budget};
use crate::builder::{chain_view, Chain, Outcome};
use crate::der::{
    base256, der_length, is_octet_string, lemma_octet_string_unique, octet_string,
};
use crate::error::{
    error_view, exhausted_view, option_view, result_view, DuplicateExtensionsError, ErrorView,
    ValidationError,
};
use crate::ops::CryptoOps;
use crate::text::{bytes_text, comma_separated, decimal};

verus! {

/// The tag and length octets of an octet string of `n` octets.
pub open spec fn header(n: int) -> Seq<u8> {
    if n < 0x80 {
        seq![0x04u8, n as u8]
    } else if n < 0x100 {
        seq![0x04u8, 0x81, n as u8]
    } else if n < 0x1_0000 {
        seq![0x04u8, 0x82, (n / 0x100) as u8, (n % 0x100) as u8]
    } else if n < 0x100_0000 {
        seq![
            0x04u8,
            0x83,
            (n / 0x1_0000) as u8,
            (n / 0x100 % 0x100) as u8,
            (n % 0x100) as u8,
        ]
    } else {
        seq![
            0x04u8,
            0x84,
            (n / 0x100_0000) as u8,
            (n / 0x1_0000 % 0x100) as u8,
            (n / 0x100 % 0x100) as u8,
            (n % 0x100) as u8,
        ]
    }
}

proof fn lemma_header(n: nat)
    requires
        n <= 0xffff_ffff,
    ensures
        seq![4u8] + der_length(n) =~= header(n as int),
{
    reveal_with_fuel(base256, 6);
    if n >= 0x80 {
        assert(base256(0) =~= Seq::empty());
        if n < 0x100 {
            assert(n / 256 == 0);
            assert(base256(n) =~= seq![n as u8]);
        } else if n < 0x1_0000 {
            assert(n / 256 / 256 == 0);
            assert(base256(n / 256) =~= seq![(n / 256) as u8]);
            assert(base256(n) =~= seq![(n / 256) as u8, (n % 256) as u8]);
        } else if n < 0x100_0000 {
            assert(n / 256 / 256 / 256 == 0);
            assert(n / 256 / 256 == n / 0x1_0000);
            assert(base256(n / 256 / 256) =~= seq![(n / 256 / 256) as u8]);
            assert(base256(n / 256) =~= seq![(n / 256 / 256) as u8, (n / 256 % 256) as u8]);
            assert(base256(n) =~= seq![
                (n / 256 / 256) as u8,
                (n / 256 % 256) as u8,
                (n % 256) as u8,
            ]);
        } else {
            assert(n / 256 / 256 / 256 / 256 == 0);
            assert(n / 256 / 256 == n / 0x1_0000);
            assert(n / 256 / 256 / 256 == n / 0x100_0000);
            assert(base256(n / 256 / 256 / 256) =~= seq![(n / 256 / 256 / 256) as u8]);
            assert(base256(n / 256 / 256) =~= seq![
                (n / 256 / 256 / 256) as u8,
                (n / 256 / 256 % 256) as u8,
            ]);
            assert(base256(n / 256) =~= seq![
                (n / 256 / 256 / 256) as u8,
                (n / 256 / 256 % 256) as u8,
                (n / 256 % 256) as u8,
            ]);
            assert(base256(n) =~= seq![
                (n / 256 / 256 / 256) as u8,
                (n / 256 / 256 % 256) as u8,
                (n / 256 % 256) as u8,
                (n % 256) as u8,
            ]);
        }
    }
}

/// The octet string with a given content is encoded as its tag, the shortest
/// form of its length, and the content; and only that is decoded to the
/// content.
pub proof fn law_octet_string(der: Seq<u8>, content: Seq<u8>)
    ensures
        is_octet_string(der, content) <==> content.len() <= 0xffff_ffff && der == header(
            content.len() as int,
        ) + content,
        octet_string(der) == Some(content) <==> content.len() <= 0xffff_ffff && der == header(
            content.len() as int,
        ) + content,
{
    if content.len() <= 0xffff_ffff {
        lemma_header(content.len());
        assert(seq![4u8] + der_length(content.len()) + content =~= header(content.len() as int)
            + content);
    }
    if is_octet_string(der, content) {
        lemma_octet_string_unique(der, octet_string(der)->0, content);
    }
}

/// A byte in decimal: its digits, without leading zeros.
pub proof fn law_decimal(n: u8)
    ensures
        n < 10 ==> decimal(n as nat) == seq![('0' as int + n) as char],
        10 <= n < 100 ==> decimal(n as nat) == seq![
            ('0' as int + n / 10) as char,
            ('0' as int + n % 10) as char,
        ],
        100 <= n ==> decimal(n as nat) == seq![
            ('0' as int + n / 100) as char,
            ('0' as int + n / 10 % 10) as char,
            ('0' as int + n % 10) as char,
        ],
{
    reveal_with_fuel(decimal, 4);
    assert('0' as int == 48);
    if n >= 100 {
        assert(n / 10 / 10 == n / 100);
        assert(decimal((n / 100) as nat) =~= seq![('0' as int + n / 100) as char]);
        assert(decimal((n / 10) as nat) =~= seq![
            ('0' as int + n / 100) as char,
            ('0' as int + n / 10 % 10) as char,
        ]);
        assert(decimal(n as nat) =~= seq![
            ('0' as int + n / 100) as char,
            ('0' as int + n / 10 % 10) as char,
            ('0' as int + n % 10) as char,
        ]);
    } else if n >= 10 {
        assert(decimal((n / 10) as nat) =~= seq![('0' as int + n / 10) as char]);
        assert(decimal(n as nat) =~= seq![
            ('0' as int + n / 10) as char,
            ('0' as int + n % 10) as char,
        ]);
    }
}

/// Bytes are shown in square brackets, one after the other, with a comma and a
/// space between two.
pub proof fn law_bytes_text(first: u8, rest: Seq<u8>)
    ensures
        bytes_text(Seq::empty()) == seq!['[', ']'],
        bytes_text(seq![first]) == seq!['['] + decimal(first as nat) + seq![']'],
        rest.len() > 0 ==> seq!['['] + decimal(first as nat) + seq![',', ' '] + bytes_text(
            rest,
        ).skip(1) == bytes_text(seq![first] + rest),
{
    reveal_strlit("[");
    reveal_strlit("]");
    reveal_strlit(", ");
    assert("["@ =~= seq!['[']);
    assert("]"@ =~= seq![']']);
    assert(", "@ =~= seq![',', ' ']);
    assert(bytes_text(Seq::empty()) =~= seq!['[', ']']);
    if rest.len() > 0 {
        lemma_comma_separated(first, rest);
        assert(seq!['['] + decimal(first as nat) + seq![',', ' '] + bytes_text(rest).skip(1)
            =~= bytes_text(seq![first] + rest));
    }
}

proof fn lemma_comma_separated(first: u8, rest: Seq<u8>)
    requires
        rest.len() > 0,
    ensures
        comma_separated(seq![first] + rest) == decimal(first as nat) + ", "@ + comma_separated(
            rest,
        ),
    decreases rest.len(),
{
    reveal_with_fuel(comma_separated, 3);
    let all = seq![first] + rest;
    assert(all.drop_last() =~= seq![first] + rest.drop_last());
    if rest.len() > 1 {
        lemma_comma_separated(first, rest.drop_last());
        assert(comma_separated(all) =~= decimal(first as nat) + ", "@ + comma_separated(rest));
    } else {
        assert(rest.drop_last() =~= Seq::empty());
        assert(all.drop_last() =~= seq![first]);
        assert(comma_separated(all) =~= decimal(first as nat) + ", "@ + comma_separated(rest));
    }
}

/// What an error says is kept in its view: its kind, its text, and for
/// exhausted candidates the error within.
pub proof fn law_error_view(
    inner: Box<ValidationError>,
    parse: Arc<asn1::ParseError>,
    duplicate: DuplicateExtensionsError,
    fatal: &'static str,
    other: String,
)
    ensures
        error_view(ValidationError::CandidatesExhausted(inner)) == ErrorView::CandidatesExhausted(
            Box::new(error_view(*inner)),
        ),
        error_view(ValidationError::Malformed(parse)) == ErrorView::Malformed(*parse),
        error_view(ValidationError::DuplicateExtension(duplicate))
            == ErrorView::DuplicateExtension(duplicate),
        error_view(ValidationError::FatalError(fatal)) == ErrorView::FatalError(fatal@),
        error_view(ValidationError::Other(other)) == ErrorView::Other(other@),
{
}

/// The views of results keep what was returned.
pub proof fn law_result_views<B: CryptoOps>(
    value: (),
    chain: Chain<B>,
    e: ValidationError,
)
    ensures
        result_view(Ok::<(), ValidationError>(value)) == Ok::<(), ErrorView>(value),
        result_view(Err::<(), ValidationError>(e)) == Err::<(), ErrorView>(error_view(e)),
        chain_view(Ok::<Chain<B>, ValidationError>(chain)) == Outcome::<B>::Ok(chain@),
        chain_view(Err::<Chain<B>, ValidationError>(e)) == Outcome::<B>::Err(error_view(e)),
        option_view(Some(e)) == Some(error_view(e)),
        option_view(None) is None,
        e@ == error_view(e),
{
}

/// Errors of parsing and of duplicate extensions become errors of validation
/// that hold them.
pub proof fn law_from(parse: asn1::ParseError, duplicate: DuplicateExtensionsError)
    ensures
        error_view(<ValidationError as FromSpec<asn1::ParseError>>::from_spec(parse))
            == ErrorView::Malformed(parse),
        error_view(<ValidationError as FromSpec<DuplicateExtensionsError>>::from_spec(duplicate))
            == ErrorView::DuplicateExtension(duplicate),
{
}

/// Exhausting the candidates reports the last error, wrapped once: reporting it
/// again changes nothing, and an error that is not so wrapped stands within.
pub proof fn law_exhausted(e: ErrorView)
    ensures
        exhausted_view(Some(exhausted_view(Some(e)))) == exhausted_view(Some(e)),
        exhausted_view(Some(exhausted_view(None))) == exhausted_view(None),
        !(e is CandidatesExhausted) ==> exhausted_view(Some(e)) == ErrorView::CandidatesExhausted(
            Box::new(e),
        ),
        e is CandidatesExhausted ==> exhausted_view(Some(e)) == e,
        exhausted_view(None) == ErrorView::CandidatesExhausted(
            Box::new(ErrorView::Other("all candidates exhausted with no interior errors"@)),
        ),
{
}

/// A verification starts with 2 to the 20 name constraint checks and 2 to the
/// 7 signature checks, and says so if it runs out of either.
pub proof fn law_limits()
    ensures
        Budget::full().name_constraint_checks == 1024 * 1024,
        Budget::full().signature_checks == 128,
        name_constraint_limit() == ErrorView::FatalError(
            "Exceeded maximum name constraint check limit"@,
        ),
        signature_limit() == ErrorView::FatalError("Exceeded maximum signature check limit"@),
{
}

} // verus!
