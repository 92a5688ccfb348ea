//! Content hashes and how they are written.
use sha2::{Digest, Sha256};
use vstd::prelude::*;

verus! {

broadcast use vstd::array::group_array_axioms;

/// The SHA-256 digest of bytes, as the `sha2` crate computes it.
pub uninterp spec fn sha256_digest(bytes: Seq<u8>) -> Seq<u8>;

/// `sha2::Sha256`, fed with the bytes and finalised: the digest is a function of the bytes.
/// How the digest is computed is not restated here.
#[verifier::external_body]
pub(crate) fn sha256(bytes: &[u8]) -> (digest: [u8; 32])
    ensures
        digest@ == sha256_digest(bytes@),
{
    let mut hasher = Sha256::new();
    hasher.update(bytes);
    hasher.finalize().into()
}

/// The character of a hexadecimal digit.
pub open spec fn hex_digit(value: int) -> char {
    "0123456789abcdef"@[value]
}

/// Bytes as lower-case hexadecimal text, two digits for each byte.
pub open spec fn hex_text(bytes: Seq<u8>) -> Seq<char> {
    Seq::new(
        2 * bytes.len(),
        |i: int|
            hex_digit(
                if i % 2 == 0 {
                    bytes[i / 2] as int / 16
                } else {
                    bytes[i / 2] as int % 16
                },
            ),
    )
}

/// The character of a hexadecimal digit.
fn digit(value: u8) -> (digit: char)
    requires
        value < 16,
    ensures
        digit == hex_digit(value as int),
{
    proof {
        reveal_strlit("0123456789abcdef");
    }
    "0123456789abcdef".get_char(value as usize)
}

/// Bytes as lower-case hexadecimal text.
pub fn to_hex(bytes: &[u8]) -> (text: String)
    ensures
        text@ == hex_text(bytes@),
{
    let mut text = String::new();
    let mut i: usize = 0;
    while i < bytes.len()
        invariant
            i <= bytes@.len(),
            text@ == hex_text(bytes@.take(i as int)),
        decreases bytes@.len() - i,
    {
        let byte: u8 = bytes[i];
        let ghost before = text@;
        text.push(digit(byte / 16));
        text.push(digit(byte % 16));
        i += 1;
        proof {
            let longer = hex_text(bytes@.take(i as int));
            assert(longer.len() == before.len() + 2);
            assert forall|j: int| 0 <= j < longer.len() implies longer[j] == text@[j] by {
                if j < before.len() {
                    assert(bytes@.take(i as int)[j / 2] == bytes@.take(i - 1)[j / 2]);
                } else {
                    assert(bytes@.take(i as int)[j / 2] == byte);
                }
            }
            assert(text@ =~= longer);
        }
    }
    assert(bytes@.take(bytes@.len() as int) =~= bytes@);
    text
}

/// Hexadecimal text tells bytes apart.
pub proof fn law_hex_text_is_unique(one: Seq<u8>, two: Seq<u8>)
    requires
        hex_text(one) == hex_text(two),
    ensures
        one == two,
{
    reveal_strlit("0123456789abcdef");
    assert(hex_text(one).len() == 2 * one.len());
    assert(hex_text(two).len() == 2 * two.len());
    assert forall|i: int| 0 <= i < one.len() implies one[i] == two[i] by {
        lemma_hex_pair(one, i);
        lemma_hex_pair(two, i);
        lemma_hex_digit_is_unique(one[i] as int / 16, two[i] as int / 16);
        lemma_hex_digit_is_unique(one[i] as int % 16, two[i] as int % 16);
    }
    assert(one =~= two);
}

proof fn lemma_hex_pair(bytes: Seq<u8>, i: int)
    requires
        0 <= i < bytes.len(),
    ensures
        hex_text(bytes)[2 * i] == hex_digit(bytes[i] as int / 16),
        hex_text(bytes)[2 * i + 1] == hex_digit(bytes[i] as int % 16),
{
    assert((2 * i) / 2 == i && (2 * i) % 2 == 0);
    assert((2 * i + 1) / 2 == i && (2 * i + 1) % 2 == 1);
}

proof fn lemma_hex_digit_is_unique(one: int, two: int)
    requires
        0 <= one < 16,
        0 <= two < 16,
        hex_digit(one) == hex_digit(two),
    ensures
        one == two,
{
    reveal_strlit("0123456789abcdef");
    let digits = "0123456789abcdef"@;
    assert(forall|i: int| 0 <= i < 10 ==> #[trigger] digits[i] as int == 48 + i);
    assert(forall|i: int| 10 <= i < 16 ==> #[trigger] digits[i] as int == 87 + i);
}

/// Two hashes are the same.
pub fn same_hash(one: &[u8; 32], two: &[u8; 32]) -> (same: bool)
    ensures
        same == (one@ == two@),
{
    let mut i: usize = 0;
    while i < 32
        invariant
            i <= 32,
            forall|j: int| 0 <= j < i ==> one@[j] == two@[j],
        decreases 32 - i,
    {
        if one[i] != two[i] {
            return false;
        }
        i += 1;
    }
    assert(one@ =~= two@);
    true
}

/// The digits up to nine are those of decimal numbers, and those from ten on are the letters from
/// `a` on.
pub proof fn law_digits_of_sixteen(value: int)
    requires
        0 <= value < 16,
    ensures
        value < 10 ==> hex_digit(value) as int == '0' as int + value,
        value >= 10 ==> hex_digit(value) as int == 'a' as int + (value - 10),
{
    reveal_strlit("0123456789abcdef");
}

/// Each byte is written as two digits, the higher one first, in the order of the bytes.
pub proof fn law_two_digits_for_each_byte(bytes: Seq<u8>, at: int)
    requires
        0 <= at < bytes.len(),
    ensures
        hex_text(bytes).len() == 2 * bytes.len(),
        exists|high: int, low: int|
            0 <= high < 16 && 0 <= low < 16 && bytes[at] == 16 * high + low && hex_text(bytes)[2
                * at] == #[trigger] hex_digit(high) && hex_text(bytes)[2 * at + 1]
                == #[trigger] hex_digit(low),
{
    let high = bytes[at] as int / 16;
    let low = bytes[at] as int % 16;
    assert((2 * at) / 2 == at && (2 * at) % 2 == 0);
    assert((2 * at + 1) / 2 == at && (2 * at + 1) % 2 == 1);
    assert(hex_text(bytes)[2 * at] == hex_digit(high));
    assert(hex_text(bytes)[2 * at + 1] == hex_digit(low));
}

} // verus!
