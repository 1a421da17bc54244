//! Unsigned 64-bit integers as eight bytes, in either byte order.
//!
//! The header stores its integers in the byte order of the machine that wrote
//! it. The order is therefore a value here, and everything is stated and proved
//! for both orders.

use vstd::prelude::*;

verus! {

/// Number of bytes that a stored integer takes.
pub const WORD_SIZE: usize = 8;

/// The order in which the bytes of a stored integer follow each other.
#[derive(Clone, Copy, Debug, PartialEq, Eq, Structural)]
pub enum ByteOrder {
    /// Least significant byte first.
    Little,
    /// Most significant byte first.
    Big,
}

/// 256 to the power `n`: the number of values that `n` bytes can hold.
pub open spec fn radix_pow(n: nat) -> nat
    decreases n,
{
    if n == 0 {
        1
    } else {
        256 * radix_pow((n - 1) as nat)
    }
}

/// The number that the bytes `s` spell in base 256, least significant byte
/// first.
pub open spec fn le_value(s: Seq<u8>) -> nat
    decreases s.len(),
{
    if s.len() == 0 {
        0
    } else {
        s[0] as nat + 256 * le_value(s.drop_first())
    }
}

/// The `n` low-order digits of `x` in base 256, least significant first.
pub open spec fn le_digits(x: nat, n: nat) -> Seq<u8>
    decreases n,
{
    if n == 0 {
        Seq::empty()
    } else {
        seq![(x % 256) as u8] + le_digits(x / 256, (n - 1) as nat)
    }
}

/// The eight bytes that store `x` in the given order.
pub open spec fn word_image(order: ByteOrder, x: u64) -> Seq<u8> {
    match order {
        ByteOrder::Little => le_digits(x as nat, 8),
        ByteOrder::Big => le_digits(x as nat, 8).reverse(),
    }
}

/// The number that the bytes `s` store in the given order.
pub open spec fn word_value(order: ByteOrder, s: Seq<u8>) -> nat {
    match order {
        ByteOrder::Little => le_value(s),
        ByteOrder::Big => le_value(s.reverse()),
    }
}

/// Eight bytes hold exactly the values of a `u64`.
pub proof fn lemma_radix_pow_word()
    ensures
        radix_pow(7) == 0x100_0000_0000_0000,
        radix_pow(8) == 0x1_0000_0000_0000_0000,
{
    reveal_with_fuel(radix_pow, 9);
}

/// More bytes hold more values.
pub proof fn lemma_radix_pow_grows(m: nat, n: nat)
    requires
        m <= n,
    ensures
        radix_pow(m) <= radix_pow(n),
    decreases n,
{
    if m < n {
        lemma_radix_pow_grows(m, (n - 1) as nat);
    }
}

/// `le_digits(x, n)` has `n` digits.
pub proof fn lemma_le_digits_len(x: nat, n: nat)
    ensures
        le_digits(x, n).len() == n,
    decreases n,
{
    if n > 0 {
        lemma_le_digits_len(x / 256, (n - 1) as nat);
    }
}

/// The value of `n` bytes is below 256 to the power `n`.
pub proof fn lemma_le_value_bound(s: Seq<u8>)
    ensures
        le_value(s) < radix_pow(s.len()),
    decreases s.len(),
{
    if s.len() > 0 {
        lemma_le_value_bound(s.drop_first());
    }
}

/// Reading back the digits of a number that fits in `n` bytes gives the number.
pub proof fn lemma_le_value_of_digits(x: nat, n: nat)
    requires
        x < radix_pow(n),
    ensures
        le_value(le_digits(x, n)) == x,
    decreases n,
{
    if n > 0 {
        let rest = le_digits(x / 256, (n - 1) as nat);
        lemma_le_value_of_digits(x / 256, (n - 1) as nat);
        assert(le_digits(x, n).drop_first() =~= rest);
    }
}

/// Writing out the value of a byte sequence gives the sequence back.
pub proof fn lemma_le_digits_of_value(s: Seq<u8>)
    ensures
        le_digits(le_value(s), s.len()) == s,
    decreases s.len(),
{
    if s.len() > 0 {
        let tail = s.drop_first();
        lemma_le_digits_of_value(tail);
        assert(le_value(s) % 256 == s[0] as nat);
        assert(le_value(s) / 256 == le_value(tail));
        assert(le_digits(le_value(s), s.len()) =~= s);
    } else {
        assert(le_digits(le_value(s), s.len()) =~= s);
    }
}

/// A stored integer takes eight bytes.
pub proof fn lemma_word_image_len(order: ByteOrder, x: u64)
    ensures
        word_image(order, x).len() == WORD_SIZE,
{
    lemma_le_digits_len(x as nat, 8);
}

/// Eight bytes store a number that a `u64` holds.
pub proof fn lemma_word_value_fits(order: ByteOrder, s: Seq<u8>)
    requires
        s.len() == WORD_SIZE,
    ensures
        word_value(order, s) <= u64::MAX,
{
    lemma_radix_pow_word();
    lemma_le_value_bound(s);
    lemma_le_value_bound(s.reverse());
}

/// What is stored is what is read back.
pub proof fn lemma_word_value_of_image(order: ByteOrder, x: u64)
    ensures
        word_value(order, word_image(order, x)) == x,
{
    lemma_radix_pow_word();
    lemma_le_value_of_digits(x as nat, 8);
    let digits = le_digits(x as nat, 8);
    assert(digits.reverse().reverse() =~= digits);
}

/// Any eight bytes are the image of the number that they store.
pub proof fn lemma_word_image_of_value(order: ByteOrder, s: Seq<u8>)
    requires
        s.len() == WORD_SIZE,
    ensures
        word_image(order, word_value(order, s) as u64) == s,
{
    lemma_word_value_fits(order, s);
    lemma_le_digits_of_value(s);
    lemma_le_digits_of_value(s.reverse());
    assert(s.reverse().reverse() =~= s);
}

/// `u16::to_ne_bytes` of std: the two bytes of `x` as this machine keeps them
/// in memory. Which order that is depends on the machine, so the contract
/// claims only that it is one of the two.
#[verifier::external_body]
fn memory_bytes(x: u16) -> (bytes: [u8; 2])
    ensures
        bytes@ == le_digits(x as nat, 2) || bytes@ == le_digits(x as nat, 2).reverse(),
{
    x.to_ne_bytes()
}

impl ByteOrder {
    /// The byte order of the machine that runs this code.
    pub fn native() -> ByteOrder {
        ByteOrder::of_probe(memory_bytes(1))
    }

    /// The byte order of a machine that keeps the number one, as a 16-bit
    /// integer, in memory as `probe`.
    pub fn of_probe(probe: [u8; 2]) -> (order: ByteOrder)
        ensures
            order == if probe@[0] == 1 {
                ByteOrder::Little
            } else {
                ByteOrder::Big
            },
    {
        if probe[0] == 1 {
            ByteOrder::Little
        } else {
            ByteOrder::Big
        }
    }
}

/// The bytes of `bytes` in the opposite order.
fn reversed(bytes: &[u8; 8]) -> (out: [u8; 8])
    ensures
        out@ == bytes@.reverse(),
{
    let mut out = [0u8; 8];
    let mut k: usize = 0;
    while k < 8
        invariant
            k <= 8,
            forall|j: int| 0 <= j < k ==> out@[j] == bytes@[7 - j],
        decreases 8 - k,
    {
        out[k] = bytes[7 - k];
        k += 1;
    }
    assert(out@ =~= bytes@.reverse());
    out
}

/// Stores `x` as eight bytes in the given order.
pub fn word_to_bytes(order: ByteOrder, x: u64) -> (bytes: [u8; 8])
    ensures
        bytes@ == word_image(order, x),
{
    let mut digits = [0u8; 8];
    let mut rest: u64 = x;
    let mut k: usize = 0;
    while k < 8
        invariant
            k <= 8,
            le_digits(x as nat, 8) == digits@.subrange(0, k as int) + le_digits(
                rest as nat,
                (8 - k) as nat,
            ),
        decreases 8 - k,
    {
        let ghost before = digits@;
        let ghost tail = le_digits((rest / 256) as nat, (7 - k) as nat);
        digits[k] = (rest % 256) as u8;
        assert(digits@.subrange(0, k + 1) + tail =~= before.subrange(0, k as int) + le_digits(
            rest as nat,
            (8 - k) as nat,
        ));
        rest = rest / 256;
        k += 1;
    }
    assert(digits@ =~= le_digits(x as nat, 8));
    match order {
        ByteOrder::Little => digits,
        ByteOrder::Big => reversed(&digits),
    }
}

/// Reads the integer that eight bytes store in the given order.
pub fn word_from_bytes(order: ByteOrder, bytes: &[u8; 8]) -> (x: u64)
    ensures
        x == word_value(order, bytes@),
{
    let digits = match order {
        ByteOrder::Little => *bytes,
        ByteOrder::Big => reversed(bytes),
    };
    let mut value: u64 = 0;
    let mut k: usize = 8;
    while k > 0
        invariant
            k <= 8,
            value == le_value(digits@.subrange(k as int, 8)),
        decreases k,
    {
        let ghost upper = digits@.subrange(k as int, 8);
        proof {
            lemma_le_value_bound(upper);
            lemma_radix_pow_word();
            lemma_radix_pow_grows(upper.len(), 7);
        }
        k -= 1;
        assert(digits@.subrange(k as int, 8).drop_first() =~= upper);
        value = value * 256 + digits[k] as u64;
    }
    assert(digits@.subrange(0, 8) =~= digits@);
    value
}

/// The integer whose image is the image of `x` with the byte at `index`
/// replaced by `value`.
pub fn word_with_byte(order: ByteOrder, x: u64, index: usize, value: u8) -> (y: u64)
    requires
        index < WORD_SIZE,
    ensures
        word_image(order, y) == word_image(order, x).update(index as int, value),
{
    let mut bytes = word_to_bytes(order, x);
    proof {
        lemma_word_image_len(order, x);
    }
    bytes[index] = value;
    proof {
        lemma_word_image_of_value(order, bytes@);
    }
    word_from_bytes(order, &bytes)
}

} // verus!
