//! Cells: a column value as it stands in a request, with its length in
//! front. The driver's own serializer for decimal values writes them.

use crate::wire::be_bytes;
use scylla::cluster::metadata::{ColumnType, NativeType};
use scylla::serialize::value::SerializeValue;
use scylla::serialize::writers::CellWriter;
use scylla::serialize::SerializationError;
use scylla::value::CqlDecimal;
use vstd::prelude::*;

verus! {

/// The driver's serialization failure. Nothing is known of what it holds.
#[verifier::external_type_specification]
#[verifier::external_body]
pub struct ExSerializationError(SerializationError);

/// The largest content that a cell can hold, in bytes.
pub const MAX_CELL_CONTENT: usize = 0x7fff_ffff;

/// A cell: the length of `content` in four big-endian bytes, then `content`.
pub open spec fn cell_bytes(content: Seq<u8>) -> Seq<u8> {
    be_bytes(content.len(), 4) + content
}

/// Appends to `buffer` the cell of a decimal value, given its scale and the
/// big-endian bytes of its mantissa.
///
/// Trusted. The body builds a `CqlDecimal` with
/// `CqlDecimal::from_signed_be_bytes_and_exponent`, which keeps the bytes as
/// they are, and writes it for a `decimal` column with its
/// `SerializeValue::serialize`, into a `CellWriter::new` on `buffer`. The
/// contract claims of that call: it appends the four big-endian bytes of the
/// scale and then the mantissa bytes, with the length of the two in front;
/// it fails if and only if that length is above `i32::MAX`, and then
/// `buffer` may hold anything.
#[verifier::external_body]
pub(crate) fn write_decimal_cell(
    buffer: &mut Vec<u8>,
    mantissa_bytes: Vec<u8>,
    scale: u32,
) -> (r: Result<(), SerializationError>)
    ensures
        r is Ok <==> 4 + mantissa_bytes@.len() <= MAX_CELL_CONTENT,
        r is Ok ==> final(buffer)@ == old(buffer)@ + cell_bytes(
            be_bytes(scale as nat, 4) + mantissa_bytes@,
        ),
{
    let value = CqlDecimal::from_signed_be_bytes_and_exponent(mantissa_bytes, scale as i32);
    let column = ColumnType::Native(NativeType::Decimal);
    match value.serialize(&column, CellWriter::new(buffer)) {
        Ok(_) => Ok(()),
        Err(e) => Err(e),
    }
}

} // verus!
