//! A header as text, for people to read.
//!
//! The text names each field and its value, in the order of the layout:
//! integers in decimal, byte strings as lists of decimal numbers. The padding
//! is left out: it holds nothing worth reading.

use crate::layout::HeaderView;
use vstd::prelude::*;
use vstd::string::*;

verus! {

/// The decimal digits.
pub open spec fn digits() -> Seq<char> {
    seq!['0', '1', '2', '3', '4', '5', '6', '7', '8', '9']
}

/// `n` in decimal, without leading zeros.
pub open spec fn decimal(n: nat) -> Seq<char>
    decreases n,
{
    if n < 10 {
        seq![digits()[n as int]]
    } else {
        decimal(n / 10).push(digits()[(n % 10) as int])
    }
}

/// The numbers of `bytes` in decimal, each but the first after a comma and a
/// space.
pub open spec fn decimal_items(bytes: Seq<u8>) -> Seq<char>
    decreases bytes.len(),
{
    if bytes.len() == 0 {
        Seq::empty()
    } else if bytes.len() == 1 {
        decimal(bytes[0] as nat)
    } else {
        decimal_items(bytes.drop_last()) + seq![',', ' '] + decimal(bytes.last() as nat)
    }
}

/// `bytes` as a list in square brackets.
pub open spec fn decimal_list(bytes: Seq<u8>) -> Seq<char> {
    seq!['['] + decimal_items(bytes) + seq![']']
}

/// The text that describes `header`.
pub open spec fn debug_text(header: HeaderView) -> Seq<char> {
    "Header { signature: "@ + decimal_list(header.signature) + ", version: "@ + decimal(
        header.version as nat,
    ) + ", uuid: "@ + decimal_list(header.uuid) + ", size: "@ + decimal(header.size as nat)
        + ", root: "@ + decimal(header.root as nat) + ", free: "@ + decimal(header.free as nat)
        + " }"@
}

/// The digit for `d`.
fn digit_text(d: u64) -> (text: &'static str)
    requires
        d < 10,
    ensures
        text@ == seq![digits()[d as int]],
{
    proof {
        reveal_strlit("0");
        reveal_strlit("1");
        reveal_strlit("2");
        reveal_strlit("3");
        reveal_strlit("4");
        reveal_strlit("5");
        reveal_strlit("6");
        reveal_strlit("7");
        reveal_strlit("8");
        reveal_strlit("9");
    }
    let text = if d == 0 {
        "0"
    } else if d == 1 {
        "1"
    } else if d == 2 {
        "2"
    } else if d == 3 {
        "3"
    } else if d == 4 {
        "4"
    } else if d == 5 {
        "5"
    } else if d == 6 {
        "6"
    } else if d == 7 {
        "7"
    } else if d == 8 {
        "8"
    } else {
        "9"
    };
    assert(text@ =~= seq![digits()[d as int]]);
    text
}

/// Appends `n` in decimal to `text`.
pub(crate) fn push_decimal(text: &mut String, n: u64)
    ensures
        final(text)@ == old(text)@ + decimal(n as nat),
    decreases n,
{
    if n >= 10 {
        push_decimal(text, n / 10);
    }
    text.append(digit_text(n % 10));
    assert(text@ =~= old(text)@ + decimal(n as nat));
}

/// Appends `bytes` as a list in square brackets to `text`.
pub(crate) fn push_decimal_list(text: &mut String, bytes: &[u8])
    ensures
        final(text)@ == old(text)@ + decimal_list(bytes@),
{
    proof {
        reveal_strlit("[");
        reveal_strlit("]");
    }
    text.append("[");
    let mut k: usize = 0;
    while k < bytes.len()
        invariant
            k <= bytes@.len(),
            text@ == old(text)@ + seq!['['] + decimal_items(bytes@.subrange(0, k as int)),
        decreases bytes@.len() - k,
    {
        let ghost done = bytes@.subrange(0, k as int);
        let ghost next = bytes@.subrange(0, k + 1);
        assert(next.drop_last() =~= done);
        assert(next.last() == bytes@[k as int]);
        if k > 0 {
            text.append(", ");
            proof {
                reveal_strlit(", ");
            }
            assert(", "@ =~= seq![',', ' ']);
        }
        push_decimal(text, bytes[k] as u64);
        assert(text@ =~= old(text)@ + seq!['['] + decimal_items(next));
        k += 1;
    }
    assert(bytes@.subrange(0, k as int) =~= bytes@);
    text.append("]");
    assert(text@ =~= old(text)@ + decimal_list(bytes@));
}

} // verus!
