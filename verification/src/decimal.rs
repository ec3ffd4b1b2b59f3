//! Decimal values as a decimal column carries them: a mantissa and a scale,
//! standing for the mantissa divided by ten to the power of the scale.

use crate::cell::{cell_bytes, write_decimal_cell};
use crate::column::{mismatch_detail, ColumnKind};
use crate::error::DecimalCqlError;
use crate::wire::{
    decoded, extract_scale_and_mantissa_from_slice, lemma_be_bytes_len, lemma_round_trip,
    mantissa_to_be_bytes, wire_bytes,
};
use rust_decimal::Decimal;
use vstd::prelude::*;
use vstd::string::StringExecFns;

verus! {

/// The decimal number of `rust_decimal`. Nothing is known of what it holds.
#[verifier::external_type_specification]
#[verifier::external_body]
pub struct ExDecimal(Decimal);

/// The largest scale that a `Decimal` can have.
pub const MAX_DECIMAL_SCALE: u32 = 28;

/// The largest mantissa that a `Decimal` can have: 96 bits, all set.
pub const MAX_DECIMAL_MANTISSA: i128 = 0xffff_ffff_ffff_ffff_ffff_ffff;

/// A decimal value of a column: `mantissa` divided by ten to the power
/// `scale`. Every mantissa goes with every scale.
#[derive(Debug, Clone, Copy, PartialEq, Eq, Structural)]
pub struct DecimalCql {
    /// The digits of the number, as a signed integer.
    pub mantissa: i128,
    /// How many of the digits stand behind the decimal point.
    pub scale: u32,
}

/// What reading `bytes` as the value of a decimal column gives.
pub open spec fn decoded_value(bytes: Seq<u8>) -> Result<DecimalCql, DecimalCqlError> {
    match decoded(bytes) {
        Ok((scale, mantissa)) => Ok(DecimalCql { mantissa, scale }),
        Err(e) => Err(e),
    }
}

/// Whether a `Decimal` can hold a mantissa with a scale.
pub open spec fn decimal_holds(mantissa: i128, scale: u32) -> bool {
    &&& scale <= MAX_DECIMAL_SCALE
    &&& -MAX_DECIMAL_MANTISSA <= mantissa <= MAX_DECIMAL_MANTISSA
}

/// The `Decimal` that `Decimal::from_i128_with_scale` makes of a mantissa
/// and a scale.
pub uninterp spec fn decimal_of(mantissa: i128, scale: u32) -> Decimal;

/// The mantissa of a `Decimal`.
///
/// Trusted: calls `Decimal::mantissa`. The contract claims that the result
/// is within 96 bits either side of zero, as it is put together from three
/// fields of 32 bits and a sign, and that a `Decimal` made of a mantissa
/// and a scale gives that mantissa back.
#[verifier::external_body]
fn decimal_mantissa(value: &Decimal) -> (r: i128)
    ensures
        -MAX_DECIMAL_MANTISSA <= r <= MAX_DECIMAL_MANTISSA,
        forall|mantissa: i128, scale: u32|
            decimal_holds(mantissa, scale) && *value == #[trigger] decimal_of(mantissa, scale)
                ==> r == mantissa,
{
    value.mantissa()
}

/// The scale of a `Decimal`.
///
/// Trusted: calls `Decimal::scale`. The contract claims that the result is
/// at most 28, the range that the type documents for its values, and that a
/// `Decimal` made of a mantissa and a scale gives that scale back.
#[verifier::external_body]
fn decimal_scale(value: &Decimal) -> (r: u32)
    ensures
        r <= MAX_DECIMAL_SCALE,
        forall|mantissa: i128, scale: u32|
            decimal_holds(mantissa, scale) && *value == #[trigger] decimal_of(mantissa, scale)
                ==> r == scale,
{
    value.scale()
}

/// The `Decimal` with a given mantissa and scale.
///
/// Trusted: calls `Decimal::from_i128_with_scale`, which panics on a scale
/// above 28 and on a mantissa beyond 96 bits; `requires` leaves both out.
/// The contract gives the result its name and claims nothing more.
#[verifier::external_body]
fn decimal_from_parts(mantissa: i128, scale: u32) -> (r: Decimal)
    requires
        decimal_holds(mantissa, scale),
    ensures
        r == decimal_of(mantissa, scale),
{
    Decimal::from_i128_with_scale(mantissa, scale)
}

impl From<Decimal> for DecimalCql {
    /// Takes the mantissa and the scale of a `Decimal`. The result is one
    /// that a `Decimal` can hold, and a `Decimal` that `to_decimal` made
    /// comes back as the value it was made of.
    fn from(decimal: Decimal) -> (r: DecimalCql)
        ensures
            r.fits_decimal(),
            forall|mantissa: i128, scale: u32|
                decimal_holds(mantissa, scale) && decimal == #[trigger] decimal_of(mantissa, scale)
                    ==> r == (DecimalCql { mantissa, scale }),
    {
        DecimalCql { mantissa: decimal_mantissa(&decimal), scale: decimal_scale(&decimal) }
    }
}

/// Of a `Decimal` that was not made here, a contract cannot say what it
/// holds, so the conversion has no definition that one could state; `from`
/// says what is known of its result.
impl vstd::std_specs::convert::FromSpecImpl<Decimal> for DecimalCql {
    open spec fn obeys_from_spec() -> bool {
        false
    }

    open spec fn from_spec(decimal: Decimal) -> DecimalCql {
        arbitrary()
    }
}

impl DecimalCql {
    /// Whether a `Decimal` can hold this value.
    pub open spec fn fits_decimal(self) -> bool {
        decimal_holds(self.mantissa, self.scale)
    }

    /// The bytes of this value on the wire: the scale, then the mantissa.
    pub open spec fn wire(self) -> Seq<u8> {
        wire_bytes(self.scale, self.mantissa)
    }

    /// This value as a `Decimal`, for arithmetic; `None` where a `Decimal`
    /// cannot hold it.
    pub fn to_decimal(&self) -> (r: Option<Decimal>)
        ensures
            self.fits_decimal() ==> r == Some(decimal_of(self.mantissa, self.scale)),
            !self.fits_decimal() ==> r is None,
    {
        if self.scale <= MAX_DECIMAL_SCALE && -MAX_DECIMAL_MANTISSA <= self.mantissa
            && self.mantissa <= MAX_DECIMAL_MANTISSA {
            Some(decimal_from_parts(self.mantissa, self.scale))
        } else {
            None
        }
    }

    /// Appends this value to `buffer` as one cell: the length of the value,
    /// then its scale in four bytes and its mantissa in sixteen. Never
    /// fails: the driver refuses only a value too long for a cell, and
    /// twenty bytes are not.
    pub fn serialize(&self, buffer: &mut Vec<u8>) -> (r: Result<(), DecimalCqlError>)
        ensures
            r is Ok,
            final(buffer)@ == old(buffer)@ + cell_bytes(self.wire()),
            final(buffer)@.len() == old(buffer)@.len() + 24,
    {
        let mantissa_bytes = mantissa_to_be_bytes(self.mantissa);
        proof {
            lemma_round_trip(self.scale, self.mantissa);
            lemma_be_bytes_len(self.wire().len(), 4);
        }
        match write_decimal_cell(buffer, mantissa_bytes, self.scale) {
            Ok(()) => Ok(()),
            Err(_) => Err(DecimalCqlError::InvalidMantissaConversion()),
        }
    }

    /// The bytes of this value on the wire, with no length in front: what
    /// `serialize` writes behind the length. Never fails.
    pub fn encode(&self) -> (r: Result<Vec<u8>, DecimalCqlError>)
        ensures
            r matches Ok(bytes) && bytes@ == self.wire() && bytes@.len() == 20,
    {
        let mut cell: Vec<u8> = Vec::new();
        match self.serialize(&mut cell) {
            Ok(()) => {
                let content = cell.split_off(4);
                proof {
                    lemma_value_round_trip(*self);
                    assert(content@ =~= cell_bytes(self.wire()).skip(4));
                }
                Ok(content)
            },
            Err(e) => Err(e),
        }
    }

    /// Accepts a decimal column and refuses every other, naming the type
    /// that was found.
    pub fn type_check(typ: &ColumnKind) -> (r: Result<(), DecimalCqlError>)
        ensures
            typ is Decimal ==> r is Ok,
            typ matches ColumnKind::Other(found) ==> (r matches Err(
                DecimalCqlError::MismatchedType(detail),
            ) && detail@ == mismatch_detail(found@)),
    {
        match typ {
            ColumnKind::Decimal => Ok(()),
            ColumnKind::Other(found) => {
                let detail = String::from_str("Expected Decimal, got ").concat(found.as_str());
                Err(DecimalCqlError::MismatchedType(detail))
            },
        }
    }

    /// Reads the value of a decimal column from its bytes. Fails where there
    /// are no bytes at all, and where there are fewer than the scale takes.
    pub fn deserialize(frame: Option<&[u8]>) -> (r: Result<DecimalCql, DecimalCqlError>)
        ensures
            frame is None ==> r == Err::<DecimalCql, DecimalCqlError>(
                DecimalCqlError::FrameHasNoSlice(),
            ),
            frame matches Some(bytes) ==> r == decoded_value(bytes@),
    {
        match frame {
            None => Err(DecimalCqlError::FrameHasNoSlice()),
            Some(bytes) => {
                match extract_scale_and_mantissa_from_slice(bytes) {
                    Ok((scale, mantissa)) => Ok(DecimalCql { mantissa, scale }),
                    Err(e) => Err(e),
                }
            },
        }
    }
}

/// A value that was written reads as itself: the content of its cell, which
/// follows the four bytes of the length, decodes to the value.
pub proof fn lemma_value_round_trip(value: DecimalCql)
    ensures
        cell_bytes(value.wire()).skip(4) == value.wire(),
        decoded_value(value.wire()) == Ok::<DecimalCql, DecimalCqlError>(value),
{
    lemma_round_trip(value.scale, value.mantissa);
    lemma_be_bytes_len(value.wire().len(), 4);
    assert(cell_bytes(value.wire()).skip(4) =~= value.wire());
}

} // verus!
