//! The wire format of a decimal column value.
//!
//! A value is a scale of four bytes, big-endian and unsigned, followed by the
//! mantissa, a big-endian two's-complement integer. The mantissa is written
//! with sixteen bytes; on reading, a mantissa field of any length is brought
//! to sixteen bytes by dropping what follows the sixteenth byte or by
//! prepending zero bytes.
//!
//! A short mantissa field is not sign-extended: zero bytes are prepended
//! whatever its first byte, so a field of fewer than sixteen bytes always
//! reads as a non-negative number. The single byte `0xFF` reads as 255, not
//! as -1. What this codec writes always has sixteen mantissa bytes and is
//! not affected; `lemma_short_field_is_unsigned` states the rule.

use crate::error::DecimalCqlError;
use vstd::prelude::*;
use vstd::slice::slice_subrange;

verus! {

/// How many bytes the scale takes.
pub const SCALE_BYTES: usize = 4;

/// How many bytes the mantissa is brought to.
pub const PADDING_BYTES: usize = 16;

/// The number that `bytes` spell in base 256, most significant byte first.
pub open spec fn be_value(bytes: Seq<u8>) -> nat
    decreases bytes.len(),
{
    if bytes.len() == 0 {
        0
    } else {
        be_value(bytes.drop_last()) * 256 + bytes.last() as nat
    }
}

/// The last `len` base-256 digits of `value`, most significant first.
pub open spec fn be_bytes(value: nat, len: nat) -> Seq<u8>
    decreases len,
{
    if len == 0 {
        Seq::empty()
    } else {
        be_bytes(value / 256, (len - 1) as nat).push((value % 256) as u8)
    }
}

/// 256 to the power `len`: how many numbers `len` bytes can spell.
pub open spec fn radix_pow(len: nat) -> nat
    decreases len,
{
    if len == 0 {
        1
    } else {
        256 * radix_pow((len - 1) as nat)
    }
}

/// `n` zero bytes.
pub open spec fn zero_bytes(n: nat) -> Seq<u8> {
    Seq::new(n, |i: int| 0u8)
}

/// The integer that a pattern of 128 bits stands for in two's complement.
pub open spec fn signed_128(pattern: nat) -> int {
    if pattern < 0x8000_0000_0000_0000_0000_0000_0000_0000 {
        pattern as int
    } else {
        pattern - 0x1_0000_0000_0000_0000_0000_0000_0000_0000
    }
}

/// The pattern of 128 bits that stands for `value` in two's complement.
pub open spec fn pattern_128(value: int) -> nat {
    if value >= 0 {
        value as nat
    } else {
        (value + 0x1_0000_0000_0000_0000_0000_0000_0000_0000) as nat
    }
}

/// The mantissa field brought to sixteen bytes: its first sixteen bytes, or
/// the whole field behind as many zero bytes as it lacks.
pub open spec fn mantissa_field(field: Seq<u8>) -> Seq<u8> {
    if field.len() >= 16 {
        field.take(16)
    } else {
        zero_bytes((16 - field.len()) as nat) + field
    }
}

/// The scale that a value of at least four bytes carries.
pub open spec fn wire_scale(bytes: Seq<u8>) -> nat {
    be_value(bytes.take(4))
}

/// The mantissa that a value of at least four bytes carries.
pub open spec fn wire_mantissa(bytes: Seq<u8>) -> int {
    signed_128(be_value(mantissa_field(bytes.skip(4))))
}

/// The bytes written for a scale and a mantissa: twenty in all.
pub open spec fn wire_bytes(scale: u32, mantissa: i128) -> Seq<u8> {
    be_bytes(scale as nat, 4) + be_bytes(pattern_128(mantissa as int), 16)
}

/// What reading `bytes` as one column value gives: the scale and the
/// mantissa, or the failure for a value too short to hold a scale.
pub open spec fn decoded(bytes: Seq<u8>) -> Result<(u32, i128), DecimalCqlError> {
    if bytes.len() < 4 {
        Err(DecimalCqlError::ByteArrayTooShort(bytes.len() as usize))
    } else {
        Ok((wire_scale(bytes) as u32, wire_mantissa(bytes) as i128))
    }
}

/// `radix_pow` at the two widths of the format, and at fifteen bytes.
pub proof fn lemma_radix_pow_values()
    ensures
        radix_pow(4) == 0x1_0000_0000,
        radix_pow(15) == 0x100_0000_0000_0000_0000_0000_0000_0000,
        radix_pow(16) == 0x1_0000_0000_0000_0000_0000_0000_0000_0000,
{
    reveal_with_fuel(radix_pow, 17);
}

/// More bytes spell more numbers.
pub proof fn lemma_radix_pow_monotonic(shorter: nat, longer: nat)
    requires
        shorter <= longer,
    ensures
        1 <= radix_pow(shorter) <= radix_pow(longer),
    decreases longer,
{
    if longer == 0 {
    } else if shorter == longer {
        lemma_radix_pow_monotonic((shorter - 1) as nat, (longer - 1) as nat);
    } else {
        lemma_radix_pow_monotonic(shorter, (longer - 1) as nat);
    }
}

/// What `bytes` spell is below 256 to the power of their number.
pub proof fn lemma_be_value_bound(bytes: Seq<u8>)
    ensures
        be_value(bytes) < radix_pow(bytes.len()),
    decreases bytes.len(),
{
    if bytes.len() > 0 {
        lemma_be_value_bound(bytes.drop_last());
    }
}

/// `be_bytes` gives as many bytes as asked for.
pub proof fn lemma_be_bytes_len(value: nat, len: nat)
    ensures
        be_bytes(value, len).len() == len,
    decreases len,
{
    if len > 0 {
        lemma_be_bytes_len(value / 256, (len - 1) as nat);
    }
}

/// The bytes written for a number that fits spell that number.
pub proof fn lemma_be_value_of_be_bytes(value: nat, len: nat)
    requires
        value < radix_pow(len),
    ensures
        be_value(be_bytes(value, len)) == value,
    decreases len,
{
    if len > 0 {
        let shorter = be_bytes(value / 256, (len - 1) as nat);
        lemma_be_value_of_be_bytes(value / 256, (len - 1) as nat);
        lemma_be_bytes_len(value / 256, (len - 1) as nat);
        assert(be_bytes(value, len).drop_last() =~= shorter);
    }
}

/// The bytes that spell a number are the ones written for it.
pub proof fn lemma_be_bytes_of_be_value(bytes: Seq<u8>)
    ensures
        be_bytes(be_value(bytes), bytes.len()) == bytes,
    decreases bytes.len(),
{
    if bytes.len() > 0 {
        lemma_be_bytes_of_be_value(bytes.drop_last());
        assert(bytes.drop_last().push(bytes.last()) =~= bytes);
    }
}

/// Zero bytes in front do not change what bytes spell.
pub proof fn lemma_be_value_zero_prefix(n: nat, bytes: Seq<u8>)
    ensures
        be_value(zero_bytes(n) + bytes) == be_value(bytes),
    decreases bytes.len(), n,
{
    let padded = zero_bytes(n) + bytes;
    if bytes.len() > 0 {
        lemma_be_value_zero_prefix(n, bytes.drop_last());
        assert(padded.drop_last() =~= zero_bytes(n) + bytes.drop_last());
    } else if n > 0 {
        lemma_be_value_zero_prefix((n - 1) as nat, bytes);
        assert(padded.drop_last() =~= zero_bytes((n - 1) as nat) + bytes);
    } else {
        assert(padded =~= bytes);
    }
}

/// The pattern of a signed number fits 128 bits and stands for that number.
pub proof fn lemma_signed_128_of_pattern(value: i128)
    ensures
        pattern_128(value as int) < radix_pow(16),
        signed_128(pattern_128(value as int)) == value,
{
    lemma_radix_pow_values();
}

/// The number that a pattern of 128 bits stands for has that pattern.
pub proof fn lemma_pattern_128_of_signed(pattern: nat)
    requires
        pattern < radix_pow(16),
    ensures
        i128::MIN <= signed_128(pattern) <= i128::MAX,
        pattern_128(signed_128(pattern)) == pattern,
{
    lemma_radix_pow_values();
}

/// What a value of at least four bytes carries fits the types it is read
/// into: the casts in `decoded` lose nothing.
pub proof fn lemma_wire_ranges(bytes: Seq<u8>)
    requires
        bytes.len() >= 4,
    ensures
        wire_scale(bytes) <= u32::MAX,
        i128::MIN <= wire_mantissa(bytes) <= i128::MAX,
        mantissa_field(bytes.skip(4)).len() == 16,
{
    lemma_radix_pow_values();
    lemma_be_value_bound(bytes.take(4));
    lemma_be_value_bound(mantissa_field(bytes.skip(4)));
}

/// Reading what was written gives back the scale and the mantissa, for
/// every scale and every mantissa.
pub proof fn lemma_round_trip(scale: u32, mantissa: i128)
    ensures
        wire_bytes(scale, mantissa).len() == 20,
        decoded(wire_bytes(scale, mantissa)) == Ok::<(u32, i128), DecimalCqlError>(
            (scale, mantissa),
        ),
{
    let scale_bytes = be_bytes(scale as nat, 4);
    let pattern = pattern_128(mantissa as int);
    let mantissa_bytes = be_bytes(pattern, 16);
    let bytes = wire_bytes(scale, mantissa);
    lemma_radix_pow_values();
    lemma_signed_128_of_pattern(mantissa);
    lemma_be_bytes_len(scale as nat, 4);
    lemma_be_bytes_len(pattern, 16);
    lemma_be_value_of_be_bytes(scale as nat, 4);
    lemma_be_value_of_be_bytes(pattern, 16);
    assert(bytes.take(4) =~= scale_bytes);
    assert(bytes.skip(4) =~= mantissa_bytes);
    assert(mantissa_bytes.take(16) =~= mantissa_bytes);
}

/// A value of exactly twenty bytes is what is written for the scale and the
/// mantissa that it reads as: no two such values read alike.
pub proof fn lemma_written_form_is_unique(bytes: Seq<u8>)
    requires
        bytes.len() == 20,
    ensures
        decoded(bytes) matches Ok((scale, mantissa)) && wire_bytes(scale, mantissa) == bytes,
{
    let scale_bytes = bytes.take(4);
    let mantissa_bytes = bytes.skip(4);
    lemma_wire_ranges(bytes);
    lemma_be_value_bound(mantissa_bytes);
    lemma_pattern_128_of_signed(be_value(mantissa_bytes));
    lemma_be_bytes_of_be_value(scale_bytes);
    lemma_be_bytes_of_be_value(mantissa_bytes);
    assert(mantissa_bytes.take(16) =~= mantissa_bytes);
    assert(scale_bytes + mantissa_bytes =~= bytes);
}

/// A value shorter than the scale field is refused, and the failure holds
/// its length.
pub proof fn lemma_short_value_refused(bytes: Seq<u8>)
    requires
        bytes.len() < 4,
    ensures
        decoded(bytes) == Err::<(u32, i128), DecimalCqlError>(
            DecimalCqlError::ByteArrayTooShort(bytes.len() as usize),
        ),
{
}

/// A value of exactly four bytes is a scale with the mantissa zero.
pub proof fn lemma_scale_only(bytes: Seq<u8>)
    requires
        bytes.len() == 4,
    ensures
        be_value(bytes) <= u32::MAX,
        decoded(bytes) == Ok::<(u32, i128), DecimalCqlError>((be_value(bytes) as u32, 0)),
{
    lemma_wire_ranges(bytes);
    assert(bytes.take(4) =~= bytes);
    assert(bytes.skip(4) =~= Seq::<u8>::empty());
    lemma_be_value_zero_prefix(16, Seq::<u8>::empty());
    assert(zero_bytes(16) + Seq::<u8>::empty() =~= mantissa_field(bytes.skip(4)));
}

/// The four bytes written for a scale read as that scale with the mantissa
/// zero.
pub proof fn lemma_scale_only_written(scale: u32)
    ensures
        decoded(be_bytes(scale as nat, 4)) == Ok::<(u32, i128), DecimalCqlError>((scale, 0)),
{
    lemma_radix_pow_values();
    lemma_be_bytes_len(scale as nat, 4);
    lemma_be_value_of_be_bytes(scale as nat, 4);
    lemma_scale_only(be_bytes(scale as nat, 4));
}

/// What follows the sixteenth byte of the mantissa field is ignored.
pub proof fn lemma_truncation(scale_bytes: Seq<u8>, field: Seq<u8>)
    requires
        scale_bytes.len() == 4,
        field.len() > 16,
    ensures
        decoded(scale_bytes + field) == decoded(scale_bytes + field.take(16)),
{
    let long = scale_bytes + field;
    let cut = scale_bytes + field.take(16);
    assert(long.take(4) =~= cut.take(4));
    assert(long.skip(4) =~= field);
    assert(cut.skip(4) =~= field.take(16));
    assert(field.take(16).take(16) =~= field.take(16));
}

/// A mantissa field of fewer than sixteen bytes is read as the sixteen
/// bytes that zero bytes in front make of it.
pub proof fn lemma_left_padding(scale_bytes: Seq<u8>, field: Seq<u8>)
    requires
        scale_bytes.len() == 4,
        field.len() < 16,
    ensures
        (zero_bytes((16 - field.len()) as nat) + field).len() == 16,
        wire_scale(scale_bytes + field) == be_value(scale_bytes),
        wire_mantissa(scale_bytes + field) == signed_128(
            be_value(zero_bytes((16 - field.len()) as nat) + field),
        ),
        decoded(scale_bytes + field) is Ok,
{
    let bytes = scale_bytes + field;
    assert(bytes.take(4) =~= scale_bytes);
    assert(bytes.skip(4) =~= field);
}

/// A mantissa field of fewer than sixteen bytes is read as the unsigned
/// number that its bytes spell: never as a negative one.
pub proof fn lemma_short_field_is_unsigned(scale_bytes: Seq<u8>, field: Seq<u8>)
    requires
        scale_bytes.len() == 4,
        field.len() < 16,
    ensures
        wire_mantissa(scale_bytes + field) == be_value(field),
        wire_mantissa(scale_bytes + field) >= 0,
{
    lemma_left_padding(scale_bytes, field);
    lemma_be_value_zero_prefix((16 - field.len()) as nat, field);
    lemma_be_value_bound(field);
    lemma_radix_pow_monotonic(field.len(), 15);
    lemma_radix_pow_values();
}

/// Reads up to sixteen bytes as one unsigned number, most significant byte
/// first.
fn be_accumulate(bytes: &[u8]) -> (value: u128)
    requires
        bytes@.len() <= 16,
    ensures
        value == be_value(bytes@),
{
    let mut value: u128 = 0;
    let mut i: usize = 0;
    while i < bytes.len()
        invariant
            i <= bytes@.len() <= 16,
            value == be_value(bytes@.take(i as int)),
        decreases bytes@.len() - i,
    {
        proof {
            lemma_be_value_bound(bytes@.take(i as int));
            lemma_radix_pow_monotonic(i as nat, 15);
            lemma_radix_pow_values();
            assert(bytes@.take(i + 1).drop_last() =~= bytes@.take(i as int));
        }
        value = value * 256 + bytes[i] as u128;
        i += 1;
    }
    proof {
        assert(bytes@.take(i as int) =~= bytes@);
    }
    value
}

/// Reads a pattern of 128 bits as a signed number.
fn to_signed(pattern: u128) -> (value: i128)
    ensures
        value == signed_128(pattern as nat),
{
    if pattern < 0x8000_0000_0000_0000_0000_0000_0000_0000 {
        pattern as i128
    } else {
        (pattern - 0x8000_0000_0000_0000_0000_0000_0000_0000) as i128 + i128::MIN
    }
}

/// Splits one column value into its scale and its mantissa.
///
/// The first four bytes are the scale. The rest is the mantissa: its first
/// sixteen bytes where there are that many, else all of it behind zero
/// bytes. A value of fewer than four bytes is refused with its length; no
/// other input is refused.
pub fn extract_scale_and_mantissa_from_slice(bytes: &[u8]) -> (r: Result<
    (u32, i128),
    DecimalCqlError,
>)
    ensures
        r == decoded(bytes@),
        bytes@.len() < 4 ==> r == Err::<(u32, i128), DecimalCqlError>(
            DecimalCqlError::ByteArrayTooShort(bytes@.len() as usize),
        ),
        bytes@.len() >= 4 ==> r is Ok,
{
    if bytes.len() < SCALE_BYTES {
        return Err(DecimalCqlError::ByteArrayTooShort(bytes.len()));
    }
    let scale_bytes = slice_subrange(bytes, 0, SCALE_BYTES);
    proof {
        lemma_be_value_bound(scale_bytes@);
        lemma_radix_pow_values();
    }
    let scale: u32 = be_accumulate(scale_bytes) as u32;
    let mantissa_bytes = slice_subrange(bytes, SCALE_BYTES, bytes.len());
    assert(mantissa_bytes@ =~= bytes@.skip(4));
    let mantissa: i128 = if mantissa_bytes.len() >= PADDING_BYTES {
        to_signed(be_accumulate(slice_subrange(mantissa_bytes, 0, PADDING_BYTES)))
    } else {
        let padding_length: usize = PADDING_BYTES - mantissa_bytes.len();
        let mut padded_bytes: Vec<u8> = vec![0; padding_length];
        padded_bytes.extend_from_slice(mantissa_bytes);
        assert(padded_bytes@ =~= mantissa_field(mantissa_bytes@));
        to_signed(be_accumulate(padded_bytes.as_slice()))
    };
    Ok((scale, mantissa))
}

/// Forms the pattern of 128 bits that stands for a signed number.
fn to_pattern(value: i128) -> (pattern: u128)
    ensures
        pattern == pattern_128(value as int),
{
    if value >= 0 {
        value as u128
    } else {
        (value - i128::MIN) as u128 + 0x8000_0000_0000_0000_0000_0000_0000_0000
    }
}

/// Appends the last `len` base-256 digits of `value` to `out`, most
/// significant first.
fn push_be_bytes(out: &mut Vec<u8>, value: u128, len: usize)
    ensures
        final(out)@ == old(out)@ + be_bytes(value as nat, len as nat),
    decreases len,
{
    if len > 0 {
        push_be_bytes(out, value / 256, len - 1);
        out.push((value % 256) as u8);
        assert(out@ =~= old(out)@ + be_bytes(value as nat, len as nat));
    } else {
        assert(out@ =~= old(out)@ + be_bytes(value as nat, len as nat));
    }
}

/// Writes a mantissa as the sixteen bytes of its two's-complement form,
/// most significant first.
pub fn mantissa_to_be_bytes(mantissa: i128) -> (bytes: Vec<u8>)
    ensures
        bytes@ == be_bytes(pattern_128(mantissa as int), 16),
        bytes@.len() == 16,
{
    let mut bytes: Vec<u8> = Vec::new();
    push_be_bytes(&mut bytes, to_pattern(mantissa), PADDING_BYTES);
    proof {
        lemma_be_bytes_len(pattern_128(mantissa as int), 16);
    }
    bytes
}

} // verus!
