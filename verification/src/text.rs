//! Text for error messages.

use vstd::prelude::*;
use vstd::string::StringExecFns;

verus! {

/// The decimal digits of `n`.
pub open spec fn decimal(n: nat) -> Seq<char>
    decreases n,
{
    let last = (48 + n % 10) as char;
    if n < 10 {
        seq![last]
    } else {
        decimal(n / 10).push(last)
    }
}

/// The numbers `b` in decimal, separated by commas.
pub open spec fn comma_separated(b: Seq<u8>) -> Seq<char>
    decreases b.len(),
{
    if b.len() == 0 {
        Seq::empty()
    } else if b.len() == 1 {
        decimal(b[0] as nat)
    } else {
        comma_separated(b.drop_last()) + ", "@ + decimal(b.last() as nat)
    }
}

/// How `b` is shown for debugging: its bytes in decimal, separated by commas
/// and in square brackets.
pub open spec fn bytes_text(b: Seq<u8>) -> Seq<char> {
    "["@ + comma_separated(b) + "]"@
}

fn digit(d: u8) -> (r: &'static str)
    requires
        d < 10,
    ensures
        r@ == seq![(48 + d) as char],
{
    match d {
        0 => {
            proof {
                reveal_strlit("0");
            }
            "0"
        },
        1 => {
            proof {
                reveal_strlit("1");
            }
            "1"
        },
        2 => {
            proof {
                reveal_strlit("2");
            }
            "2"
        },
        3 => {
            proof {
                reveal_strlit("3");
            }
            "3"
        },
        4 => {
            proof {
                reveal_strlit("4");
            }
            "4"
        },
        5 => {
            proof {
                reveal_strlit("5");
            }
            "5"
        },
        6 => {
            proof {
                reveal_strlit("6");
            }
            "6"
        },
        7 => {
            proof {
                reveal_strlit("7");
            }
            "7"
        },
        8 => {
            proof {
                reveal_strlit("8");
            }
            "8"
        },
        _ => {
            proof {
                reveal_strlit("9");
            }
            "9"
        },
    }
}

fn append_decimal(text: &mut String, n: u8)
    ensures
        final(text)@ == old(text)@ + decimal(n as nat),
    decreases n,
{
    if n >= 10 {
        append_decimal(text, n / 10);
    }
    text.append(digit(n % 10));
}

/// `b` as it is shown for debugging.
pub fn debug_bytes(b: &[u8]) -> (r: String)
    ensures
        r@ == bytes_text(b@),
{
    let mut text = "[".to_string();
    let mut i: usize = 0;
    while i < b.len()
        invariant
            i <= b@.len(),
            text@ == "["@ + comma_separated(b@.take(i as int)),
        decreases b@.len() - i,
    {
        if i > 0 {
            text.append(", ");
        }
        append_decimal(&mut text, b[i]);
        assert(b@.take(i + 1).drop_last() =~= b@.take(i as int));
        i = i + 1;
    }
    text.append("]");
    assert(b@.take(i as int) =~= b@);
    text
}

/// `prefix` followed by `text`.
pub fn join(prefix: &str, text: &str) -> (r: String)
    ensures
        r@ == prefix@ + text@,
{
    let mut joined = prefix.to_string();
    joined.append(text);
    joined
}

} // verus!
