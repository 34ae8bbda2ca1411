//! Order-preserving text encodings for indexed field values.
//!
//! Index rows sort by their encoded-value segment, so a range scan over the
//! index is a sorted scan over the logical field.  Each numeric type is
//! rendered as zero-padded decimal at a fixed width wide enough for its
//! whole range; signed types are first biased so that their minimum maps to
//! zero; floating-point values are handled through their IEEE-754 bit
//! patterns with the sign bit flipped for positives and all bits flipped
//! for negatives, supplied here as the raw bits.  String values encode as
//! themselves.
//!
//! The order lemmas at the end state the point of the module: two values
//! compare the same way as their encodings compare lexicographically.

use vstd::prelude::*;

use vstd::arithmetic::div_mod::{lemma_fundamental_div_mod, lemma_mod_bound};

use crate::order::{
    lex_lt, lemma_lex_lt_concat_distinct, lemma_lex_lt_prepend, lemma_lex_trichotomy,
};

verus! {

/// Ten to the `w`.
pub open spec fn pow10(w: nat) -> nat
    decreases w,
{
    if w == 0 {
        1
    } else {
        10 * pow10((w - 1) as nat)
    }
}

/// The widths used by the encoders are wide enough for the full range of
/// their types.
pub proof fn lemma_pow10_widths()
    ensures
        pow10(3) == 1000,
        pow10(5) == 100000,
        pow10(10) == 10000000000,
        pow10(20) == 100000000000000000000,
        pow10(39) == 1000000000000000000000000000000000000000,
{
    reveal_with_fuel(pow10, 40);
}

/// The character for one decimal digit.
pub open spec fn digit_char(d: nat) -> char {
    if d == 0 {
        '0'
    } else if d == 1 {
        '1'
    } else if d == 2 {
        '2'
    } else if d == 3 {
        '3'
    } else if d == 4 {
        '4'
    } else if d == 5 {
        '5'
    } else if d == 6 {
        '6'
    } else if d == 7 {
        '7'
    } else if d == 8 {
        '8'
    } else {
        '9'
    }
}

/// `n` written as exactly `width` decimal digits, most significant first,
/// zero padded.
pub open spec fn spec_digits(n: nat, width: nat) -> Seq<char>
    decreases width,
{
    if width == 0 {
        Seq::empty()
    } else {
        spec_digits(n / 10, (width - 1) as nat) + seq![digit_char(n % 10)]
    }
}

/// The string for one decimal digit.
fn digit_str(d: u128) -> (r: &'static str)
    requires
        d < 10,
    ensures
        r@ == seq![digit_char(d as nat)],
{
    proof {
        reveal_strlit("0");
        reveal_strlit("1");
        reveal_strlit("2");
        reveal_strlit("3");
        reveal_strlit("4");
        reveal_strlit("5");
        reveal_strlit("6");
        reveal_strlit("7");
        reveal_strlit("8");
        reveal_strlit("9");
    }
    let r = if d == 0 {
        "0"
    } else if d == 1 {
        "1"
    } else if d == 2 {
        "2"
    } else if d == 3 {
        "3"
    } else if d == 4 {
        "4"
    } else if d == 5 {
        "5"
    } else if d == 6 {
        "6"
    } else if d == 7 {
        "7"
    } else if d == 8 {
        "8"
    } else {
        "9"
    };
    proof {
        assert(r@ =~= seq![digit_char(d as nat)]);
    }
    r
}

/// Render `n` as `width` zero-padded decimal digits.
pub fn encode_decimal(n: u128, width: usize) -> (r: String)
    ensures
        r@ == spec_digits(n as nat, width as nat),
        r@.len() == width,
    decreases width,
{
    if width == 0 {
        proof {
            assert(spec_digits(n as nat, 0) =~= Seq::<char>::empty());
        }
        String::new()
    } else {
        let mut r = encode_decimal(n / 10, width - 1);
        let d = digit_str(n % 10);
        proof {
            lemma_fundamental_div_mod(n as int, 10);
            lemma_mod_bound(n as int, 10);
        }
        r.append(d);
        proof {
            lemma_digits_len(n as nat, width as nat);
        }
        r
    }
}

/// A fixed-width rendering has that width.
pub proof fn lemma_digits_len(n: nat, width: nat)
    ensures
        spec_digits(n, width).len() == width,
    decreases width,
{
    if width > 0 {
        lemma_digits_len(n / 10, (width - 1) as nat);
    }
}

/// Digit characters compare as the digits do.
proof fn lemma_digit_char_order(a: nat, b: nat)
    requires
        a < b,
        b < 10,
    ensures
        digit_char(a) < digit_char(b),
{
}

/// Fixed-width decimal preserves order: smaller numbers render strictly
/// earlier, as long as both fit in the width.
pub proof fn lemma_digits_order(a: nat, b: nat, width: nat)
    requires
        a < b,
        b < pow10(width),
    ensures
        lex_lt(spec_digits(a, width), spec_digits(b, width)),
    decreases width,
{
    lemma_digits_len(a, width);
    lemma_digits_len(b, width);
    assert(width > 0);
    let qa = a / 10;
    let qb = b / 10;
    let ra = a % 10;
    let rb = b % 10;
    lemma_fundamental_div_mod(a as int, 10);
    lemma_fundamental_div_mod(b as int, 10);
    lemma_mod_bound(a as int, 10);
    lemma_mod_bound(b as int, 10);
    assert(qb < pow10((width - 1) as nat)) by {
        assert(pow10(width) == 10 * pow10((width - 1) as nat));
    }
    let pa = spec_digits(qa, (width - 1) as nat);
    let pb = spec_digits(qb, (width - 1) as nat);
    lemma_digits_len(qa, (width - 1) as nat);
    lemma_digits_len(qb, (width - 1) as nat);
    if qa < qb {
        lemma_digits_order(qa, qb, (width - 1) as nat);
        lemma_lex_trichotomy(pa, pb);
        lemma_lex_lt_concat_distinct(pa, pb, seq![digit_char(ra)], seq![digit_char(rb)]);
    } else {
        assert(qa == qb);
        assert(ra < rb);
        lemma_digit_char_order(ra, rb);
        assert(lex_lt(seq![digit_char(ra)], seq![digit_char(rb)]));
        lemma_lex_lt_prepend(pa, seq![digit_char(ra)], seq![digit_char(rb)]);
        assert(pa + seq![digit_char(ra)] == spec_digits(a, width));
        assert(pb + seq![digit_char(rb)] == spec_digits(b, width));
    }
}

/// A decimal rendering never contains the key separator.
pub proof fn lemma_digits_no_slash(n: nat, width: nat)
    ensures
        !spec_digits(n, width).contains('/'),
    decreases width,
{
    if width == 0 {
        assert(!spec_digits(n, width).contains('/'));
    } else {
        lemma_digits_no_slash(n / 10, (width - 1) as nat);
        let s = spec_digits(n, width);
        let p = spec_digits(n / 10, (width - 1) as nat);
        assert forall|i: int| 0 <= i < s.len() implies s[i] != '/' by {
            if i < p.len() {
                assert(s[i] == p[i]);
                assert(!p.contains('/'));
            } else {
                assert(s[i] == digit_char(n % 10));
            }
        }
        if s.contains('/') {
            let i = choose|i: int| 0 <= i < s.len() && s[i] == '/';
        }
    }
}

/// Equal-width renderings of distinct numbers differ; with
/// `lemma_digits_order` this makes the encoding strictly monotone, hence
/// injective.
pub proof fn lemma_digits_injective(a: nat, b: nat, width: nat)
    requires
        a != b,
        a < pow10(width),
        b < pow10(width),
    ensures
        spec_digits(a, width) != spec_digits(b, width),
{
    if a < b {
        lemma_digits_order(a, b, width);
        lemma_lex_trichotomy(spec_digits(a, width), spec_digits(b, width));
    } else {
        lemma_digits_order(b, a, width);
        lemma_lex_trichotomy(spec_digits(b, width), spec_digits(a, width));
    }
}

/// What `encode_u8` returns.
pub open spec fn spec_encode_u8(v: u8) -> Seq<char> {
    spec_digits(v as nat, 3)
}

/// `u8` as three decimal digits.
pub fn encode_u8(v: u8) -> (r: String)
    ensures
        r@ == spec_encode_u8(v),
{
    encode_decimal(v as u128, 3)
}

/// What `encode_u16` returns.
pub open spec fn spec_encode_u16(v: u16) -> Seq<char> {
    spec_digits(v as nat, 5)
}

/// `u16` as five decimal digits.
pub fn encode_u16(v: u16) -> (r: String)
    ensures
        r@ == spec_encode_u16(v),
{
    encode_decimal(v as u128, 5)
}

/// What `encode_u32` returns.
pub open spec fn spec_encode_u32(v: u32) -> Seq<char> {
    spec_digits(v as nat, 10)
}

/// `u32` as ten decimal digits.
pub fn encode_u32(v: u32) -> (r: String)
    ensures
        r@ == spec_encode_u32(v),
{
    encode_decimal(v as u128, 10)
}

/// What `encode_u64` returns.
pub open spec fn spec_encode_u64(v: u64) -> Seq<char> {
    spec_digits(v as nat, 20)
}

/// `u64` as twenty decimal digits.
pub fn encode_u64(v: u64) -> (r: String)
    ensures
        r@ == spec_encode_u64(v),
{
    encode_decimal(v as u128, 20)
}

/// What `encode_usize` returns.
pub open spec fn spec_encode_usize(v: usize) -> Seq<char> {
    spec_digits(v as nat, 20)
}

/// `usize` at the width of `u64`.
pub fn encode_usize(v: usize) -> (r: String)
    ensures
        r@ == spec_encode_usize(v),
{
    encode_decimal(v as u128, 20)
}

/// What `encode_u128` returns.
pub open spec fn spec_encode_u128(v: u128) -> Seq<char> {
    spec_digits(v as nat, 39)
}

/// `u128` as thirty-nine decimal digits.
pub fn encode_u128(v: u128) -> (r: String)
    ensures
        r@ == spec_encode_u128(v),
{
    encode_decimal(v, 39)
}

/// The signed-range bias of `i8`: the minimum maps to zero.
pub open spec fn bias_i8(v: i8) -> nat {
    (v + 128) as nat
}

/// What `encode_i8` returns.
pub open spec fn spec_encode_i8(v: i8) -> Seq<char> {
    spec_digits(bias_i8(v), 3)
}

/// `i8`, biased, as three decimal digits.
pub fn encode_i8(v: i8) -> (r: String)
    ensures
        r@ == spec_encode_i8(v),
{
    let biased: u16 = (v as i16 + 128) as u16;
    encode_decimal(biased as u128, 3)
}

/// The signed-range bias of `i16`.
pub open spec fn bias_i16(v: i16) -> nat {
    (v + 0x8000) as nat
}

/// What `encode_i16` returns.
pub open spec fn spec_encode_i16(v: i16) -> Seq<char> {
    spec_digits(bias_i16(v), 5)
}

/// `i16`, biased, as five decimal digits.
pub fn encode_i16(v: i16) -> (r: String)
    ensures
        r@ == spec_encode_i16(v),
{
    let biased: u32 = (v as i32 + 0x8000) as u32;
    encode_decimal(biased as u128, 5)
}

/// The signed-range bias of `i32`.
pub open spec fn bias_i32(v: i32) -> nat {
    (v + 0x8000_0000) as nat
}

/// What `encode_i32` returns.
pub open spec fn spec_encode_i32(v: i32) -> Seq<char> {
    spec_digits(bias_i32(v), 10)
}

/// `i32`, biased, as ten decimal digits.
pub fn encode_i32(v: i32) -> (r: String)
    ensures
        r@ == spec_encode_i32(v),
{
    let biased: u64 = (v as i64 + 0x8000_0000) as u64;
    encode_decimal(biased as u128, 10)
}

/// The signed-range bias of `i64`.
pub open spec fn bias_i64(v: i64) -> nat {
    (v + 0x8000_0000_0000_0000) as nat
}

/// What `encode_i64` returns.
pub open spec fn spec_encode_i64(v: i64) -> Seq<char> {
    spec_digits(bias_i64(v), 20)
}

/// `i64`, biased, as twenty decimal digits.
pub fn encode_i64(v: i64) -> (r: String)
    ensures
        r@ == spec_encode_i64(v),
{
    let biased: u128 = (v as i128 + 0x8000_0000_0000_0000) as u128;
    encode_decimal(biased, 20)
}

/// The signed-range bias of `isize`.
pub open spec fn bias_isize(v: isize) -> nat {
    (v + 0x8000_0000_0000_0000) as nat
}

/// What `encode_isize` returns.
pub open spec fn spec_encode_isize(v: isize) -> Seq<char> {
    spec_digits(bias_isize(v), 20)
}

/// `isize` at the width of `i64`.
pub fn encode_isize(v: isize) -> (r: String)
    ensures
        r@ == spec_encode_isize(v),
{
    let biased: u128 = (v as i128 + 0x8000_0000_0000_0000) as u128;
    encode_decimal(biased, 20)
}

/// The signed-range bias of `i128`.
pub open spec fn bias_i128(v: i128) -> nat {
    (v + 0x8000_0000_0000_0000_0000_0000_0000_0000) as nat
}

/// What `encode_i128` returns.
pub open spec fn spec_encode_i128(v: i128) -> Seq<char> {
    spec_digits(bias_i128(v), 39)
}

/// `i128`, biased, as thirty-nine decimal digits.
pub fn encode_i128(v: i128) -> (r: String)
    ensures
        r@ == spec_encode_i128(v),
{
    let quarter: i128 = 0x4000_0000_0000_0000_0000_0000_0000_0000;
    let biased: u128 = if v >= 0 {
        (v as u128) + 0x8000_0000_0000_0000_0000_0000_0000_0000u128
    } else {
        ((v + quarter) + quarter) as u128
    };
    encode_decimal(biased, 39)
}

/// The sortable transform of `f32` bits: flip the sign bit of non-negative
/// patterns, flip every bit of negative ones.
pub open spec fn f32_sort_bits(bits: u32) -> u32 {
    if bits >= 0x8000_0000 {
        !bits
    } else {
        bits ^ 0x8000_0000
    }
}

/// What `encode_f32_bits` returns.
pub open spec fn spec_encode_f32_bits(bits: u32) -> Seq<char> {
    spec_digits(f32_sort_bits(bits) as nat, 10)
}

/// The raw IEEE-754 bits of an `f32`, made sortable, as ten decimal
/// digits.  The caller supplies `value.to_bits()`.
pub fn encode_f32_bits(bits: u32) -> (r: String)
    ensures
        r@ == spec_encode_f32_bits(bits),
{
    let sortable: u32 = if bits >= 0x8000_0000 {
        !bits
    } else {
        bits ^ 0x8000_0000
    };
    encode_decimal(sortable as u128, 10)
}

/// The sortable transform of `f64` bits.
pub open spec fn f64_sort_bits(bits: u64) -> u64 {
    if bits >= 0x8000_0000_0000_0000 {
        !bits
    } else {
        bits ^ 0x8000_0000_0000_0000
    }
}

/// What `encode_f64_bits` returns.
pub open spec fn spec_encode_f64_bits(bits: u64) -> Seq<char> {
    spec_digits(f64_sort_bits(bits) as nat, 20)
}

/// The raw IEEE-754 bits of an `f64`, made sortable, as twenty decimal
/// digits.  The caller supplies `value.to_bits()`.
pub fn encode_f64_bits(bits: u64) -> (r: String)
    ensures
        r@ == spec_encode_f64_bits(bits),
{
    let sortable: u64 = if bits >= 0x8000_0000_0000_0000 {
        !bits
    } else {
        bits ^ 0x8000_0000_0000_0000
    };
    encode_decimal(sortable as u128, 20)
}

/// Two values compare as their renderings do, given both fit the width:
/// the order-preservation of fixed-width decimal, stated as an
/// equivalence.
pub proof fn lemma_encode_order(a: nat, b: nat, width: nat)
    requires
        a < pow10(width),
        b < pow10(width),
    ensures
        a < b <==> lex_lt(spec_digits(a, width), spec_digits(b, width)),
{
    if a < b {
        lemma_digits_order(a, b, width);
    } else if b < a {
        lemma_digits_order(b, a, width);
        lemma_lex_trichotomy(spec_digits(a, width), spec_digits(b, width));
    } else {
        lemma_lex_trichotomy(spec_digits(a, width), spec_digits(b, width));
    }
}

/// `u8` order is preserved.
pub proof fn lemma_encode_u8_order(a: u8, b: u8)
    ensures
        a < b <==> lex_lt(spec_encode_u8(a), spec_encode_u8(b)),
{
    lemma_pow10_widths();
    lemma_encode_order(a as nat, b as nat, 3);
}

/// `u16` order is preserved.
pub proof fn lemma_encode_u16_order(a: u16, b: u16)
    ensures
        a < b <==> lex_lt(spec_encode_u16(a), spec_encode_u16(b)),
{
    lemma_pow10_widths();
    lemma_encode_order(a as nat, b as nat, 5);
}

/// `u32` order is preserved.
pub proof fn lemma_encode_u32_order(a: u32, b: u32)
    ensures
        a < b <==> lex_lt(spec_encode_u32(a), spec_encode_u32(b)),
{
    lemma_pow10_widths();
    lemma_encode_order(a as nat, b as nat, 10);
}

/// `u64` order is preserved.
pub proof fn lemma_encode_u64_order(a: u64, b: u64)
    ensures
        a < b <==> lex_lt(spec_encode_u64(a), spec_encode_u64(b)),
{
    lemma_pow10_widths();
    lemma_encode_order(a as nat, b as nat, 20);
}

/// `usize` order is preserved.
pub proof fn lemma_encode_usize_order(a: usize, b: usize)
    ensures
        a < b <==> lex_lt(spec_encode_usize(a), spec_encode_usize(b)),
{
    lemma_pow10_widths();
    lemma_encode_order(a as nat, b as nat, 20);
}

/// `u128` order is preserved.
pub proof fn lemma_encode_u128_order(a: u128, b: u128)
    ensures
        a < b <==> lex_lt(spec_encode_u128(a), spec_encode_u128(b)),
{
    lemma_pow10_widths();
    lemma_encode_order(a as nat, b as nat, 39);
}

/// `i8` order is preserved.
pub proof fn lemma_encode_i8_order(a: i8, b: i8)
    ensures
        a < b <==> lex_lt(spec_encode_i8(a), spec_encode_i8(b)),
{
    lemma_pow10_widths();
    lemma_encode_order(bias_i8(a), bias_i8(b), 3);
}

/// `i16` order is preserved.
pub proof fn lemma_encode_i16_order(a: i16, b: i16)
    ensures
        a < b <==> lex_lt(spec_encode_i16(a), spec_encode_i16(b)),
{
    lemma_pow10_widths();
    lemma_encode_order(bias_i16(a), bias_i16(b), 5);
}

/// `i32` order is preserved.
pub proof fn lemma_encode_i32_order(a: i32, b: i32)
    ensures
        a < b <==> lex_lt(spec_encode_i32(a), spec_encode_i32(b)),
{
    lemma_pow10_widths();
    lemma_encode_order(bias_i32(a), bias_i32(b), 10);
}

/// `i64` order is preserved.
pub proof fn lemma_encode_i64_order(a: i64, b: i64)
    ensures
        a < b <==> lex_lt(spec_encode_i64(a), spec_encode_i64(b)),
{
    lemma_pow10_widths();
    lemma_encode_order(bias_i64(a), bias_i64(b), 20);
}

/// `isize` order is preserved.
pub proof fn lemma_encode_isize_order(a: isize, b: isize)
    ensures
        a < b <==> lex_lt(spec_encode_isize(a), spec_encode_isize(b)),
{
    lemma_pow10_widths();
    lemma_encode_order(bias_isize(a), bias_isize(b), 20);
}

/// `i128` order is preserved.
pub proof fn lemma_encode_i128_order(a: i128, b: i128)
    ensures
        a < b <==> lex_lt(spec_encode_i128(a), spec_encode_i128(b)),
{
    lemma_pow10_widths();
    lemma_encode_order(bias_i128(a), bias_i128(b), 39);
}

/// The sortable bit transform of `f32` preserves the order of the
/// transformed words, so the rendered encoding follows `f32_sort_bits`.
pub proof fn lemma_encode_f32_bits_order(a: u32, b: u32)
    ensures
        f32_sort_bits(a) < f32_sort_bits(b) <==> lex_lt(
            spec_encode_f32_bits(a),
            spec_encode_f32_bits(b),
        ),
{
    lemma_pow10_widths();
    lemma_encode_order(f32_sort_bits(a) as nat, f32_sort_bits(b) as nat, 10);
}

/// The sortable bit transform of `f64` preserves the order of the
/// transformed words, so the rendered encoding follows `f64_sort_bits`.
pub proof fn lemma_encode_f64_bits_order(a: u64, b: u64)
    ensures
        f64_sort_bits(a) < f64_sort_bits(b) <==> lex_lt(
            spec_encode_f64_bits(a),
            spec_encode_f64_bits(b),
        ),
{
    lemma_pow10_widths();
    lemma_encode_order(f64_sort_bits(a) as nat, f64_sort_bits(b) as nat, 20);
}

} // verus!
