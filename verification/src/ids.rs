//! Job identifiers: random UUIDs, held as their 128-bit value.

use vstd::prelude::*;

use crate::bytes;

verus! {

/// The hyphenated form of a UUID: 32 hexadecimal digits in groups of eight, four,
/// four, four and twelve.
pub open spec fn uuid_text(id: u128) -> Seq<char> {
    let h = bytes::hex_digits(id as nat, 32);
    h.subrange(0, 8) + seq!['-'] + h.subrange(8, 12) + seq!['-'] + h.subrange(12, 16) + seq!['-']
        + h.subrange(16, 20) + seq!['-'] + h.subrange(20, 32)
}

/// The version and the variant are those of a random UUID.
pub open spec fn is_random(id: u128) -> bool {
    (id >> 76u128) & 0xf == 4 && (id >> 62u128) & 0x3 == 2
}

/// `uuid::Uuid::new_v4`: version and variant bits are those of a random UUID;
/// nothing is known of the others. It gives none, and panics, on a machine that has
/// no source of randomness.
#[verifier::external_body]
pub(crate) fn new_job_id() -> (r: u128)
    ensures
        is_random(r),
{
    uuid::Uuid::new_v4().as_u128()
}

/// `uuid::Uuid`'s `Display`: the hyphenated form, in small letters.
#[verifier::external_body]
pub(crate) fn id_text(id: u128) -> (r: String)
    ensures
        r@ == uuid_text(id),
{
    uuid::Uuid::from_u128(id).to_string()
}

/// The first eight digits of an identifier, which tell file names apart.
pub fn short_id(id: u128) -> (r: String)
    ensures
        r@ == short_id_text(id),
        r@.len() == 8,
{
    let full = id_text(id);
    proof {
        bytes::lemma_hex_digits_len(id as nat, 32);
        assert(uuid_text(id).take(8) == short_id_text(id));
    }
    crate::text::clip(full.as_str(), 8)
}

/// The first eight digits of an identifier.
pub open spec fn short_id_text(id: u128) -> Seq<char> {
    bytes::hex_digits(id as nat, 32).subrange(0, 8)
}

/// Equal digits, equal numbers.
pub proof fn lemma_hex_digits_injective(a: nat, b: nat, width: nat)
    requires
        bytes::hex_digits(a, width) == bytes::hex_digits(b, width),
        a < vstd::arithmetic::power::pow(16, width),
        b < vstd::arithmetic::power::pow(16, width),
    ensures
        a == b,
    decreases width,
{
    vstd::arithmetic::power::lemma_pow0(16);
    if width > 0 {
        let w = (width - 1) as nat;
        let x = bytes::hex_digits(a, width);
        let y = bytes::hex_digits(b, width);
        assert(x.last() == bytes::hex_char((a % 16) as int));
        assert(y.last() == bytes::hex_char((b % 16) as int));
        bytes::lemma_hex_char_injective((a % 16) as int, (b % 16) as int);
        assert(x.drop_last() == bytes::hex_digits(a / 16, w));
        assert(y.drop_last() == bytes::hex_digits(b / 16, w));
        vstd::arithmetic::power::lemma_pow_adds(16, 1, w);
        vstd::arithmetic::power::lemma_pow1(16);
        assert(vstd::arithmetic::power::pow(16, width) == 16 * vstd::arithmetic::power::pow(16, w));
        lemma_hex_digits_injective(a / 16, b / 16, w);
    }
}

/// A UUID has 128 bits.
proof fn lemma_sixteen_to_the_32()
    ensures
        vstd::arithmetic::power::pow(16, 32) == 0x1_0000_0000_0000_0000_0000_0000_0000_0000,
{
    let p1 = vstd::arithmetic::power::pow(16, 1);
    let p2 = vstd::arithmetic::power::pow(16, 2);
    let p4 = vstd::arithmetic::power::pow(16, 4);
    let p8 = vstd::arithmetic::power::pow(16, 8);
    let p16 = vstd::arithmetic::power::pow(16, 16);
    vstd::arithmetic::power::lemma_pow1(16);
    vstd::arithmetic::power::lemma_pow_adds(16, 1, 1);
    vstd::arithmetic::power::lemma_pow_adds(16, 2, 2);
    vstd::arithmetic::power::lemma_pow_adds(16, 4, 4);
    vstd::arithmetic::power::lemma_pow_adds(16, 8, 8);
    vstd::arithmetic::power::lemma_pow_adds(16, 16, 16);
    assert(p1 * p1 == 0x100) by (nonlinear_arith)
        requires
            p1 == 0x10,
    ;
    assert(p2 * p2 == 0x1_0000) by (nonlinear_arith)
        requires
            p2 == 0x100,
    ;
    assert(p4 * p4 == 0x1_0000_0000) by (nonlinear_arith)
        requires
            p4 == 0x1_0000,
    ;
    assert(p8 * p8 == 0x1_0000_0000_0000_0000) by (nonlinear_arith)
        requires
            p8 == 0x1_0000_0000,
    ;
    assert(p16 * p16 == 0x1_0000_0000_0000_0000_0000_0000_0000_0000) by (nonlinear_arith)
        requires
            p16 == 0x1_0000_0000_0000_0000,
    ;
}

/// Two jobs with the same written identifier are the same job.
pub proof fn uuid_text_identifies(a: u128, b: u128)
    requires
        uuid_text(a) == uuid_text(b),
    ensures
        a == b,
{
    let x = bytes::hex_digits(a as nat, 32);
    let y = bytes::hex_digits(b as nat, 32);
    bytes::lemma_hex_digits_len(a as nat, 32);
    bytes::lemma_hex_digits_len(b as nat, 32);
    let s = uuid_text(a);
    let t = uuid_text(b);
    assert(x.len() == 32 && y.len() == 32);
    assert forall|i: int| 0 <= i < 32 implies x[i] == y[i] by {
        let k = if i < 8 {
            i
        } else if i < 12 {
            i + 1
        } else if i < 16 {
            i + 2
        } else if i < 20 {
            i + 3
        } else {
            i + 4
        };
        assert(s[k] == x[i]);
        assert(t[k] == y[i]);
    }
    assert(x == y);
    lemma_sixteen_to_the_32();
    lemma_hex_digits_injective(a as nat, b as nat, 32);
}

pub proof fn lemma_uuid_len(id: u128)
    ensures
        uuid_text(id).len() == 36,
{
    bytes::lemma_hex_digits_len(id as nat, 32);
}

} // verus!
