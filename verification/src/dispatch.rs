use vstd::prelude::*;

use crate::chardecode::{decode_text, decode_text_ok, decode_text_value, dim_lens};
use crate::error::Error;
use crate::reshape::reshape;
use crate::value::{
    elem_count, flatten_value, leaf_models, matches_shape, Dimension, Leaf, LeafModel, Value,
};

verus! {

/// The storage-type tag of a variable, as the file declares it.
///
/// The numeric tags and `Char` are the decodable set; every other tag is
/// `Other` and degrades to a null value instead of aborting the file.
pub enum StorageType {
    /// A signed 8-bit integer.
    Byte,
    /// An unsigned 8-bit integer.
    UByte,
    /// A signed 16-bit integer.
    Short,
    /// An unsigned 16-bit integer.
    UShort,
    /// A signed 32-bit integer.
    Int,
    /// An unsigned 32-bit integer.
    UInt,
    /// A signed 64-bit integer.
    Int64,
    /// An unsigned 64-bit integer.
    UInt64,
    /// An IEEE 754 single-precision number.
    Float,
    /// An IEEE 754 double-precision number.
    Double,
    /// Packed fixed-width text.
    Char,
    /// Any unsupported or compound storage type.
    Other,
}

/// How many raw bytes one cell of a numeric storage type occupies.
pub open spec fn width_of(ty: StorageType) -> int {
    match ty {
        StorageType::Byte => 1,
        StorageType::UByte => 1,
        StorageType::Short => 2,
        StorageType::UShort => 2,
        StorageType::Int => 4,
        StorageType::UInt => 4,
        StorageType::Int64 => 8,
        StorageType::UInt64 => 8,
        StorageType::Float => 4,
        StorageType::Double => 8,
        StorageType::Char => 1,
        StorageType::Other => 1,
    }
}

/// The 16-bit value stored in two bytes, least significant byte first.
pub open spec fn le16(b: Seq<u8>) -> u16
    recommends
        b.len() == 2,
{
    (b[0] as u16) | ((b[1] as u16) << 8)
}

/// The 32-bit value stored in four bytes, least significant byte first.
pub open spec fn le32(b: Seq<u8>) -> u32
    recommends
        b.len() == 4,
{
    (b[0] as u32) | ((b[1] as u32) << 8) | ((b[2] as u32) << 16) | ((b[3] as u32) << 24)
}

/// The 64-bit value stored in eight bytes, least significant byte first.
pub open spec fn le64(b: Seq<u8>) -> u64
    recommends
        b.len() == 8,
{
    (b[0] as u64) | ((b[1] as u64) << 8) | ((b[2] as u64) << 16) | ((b[3] as u64) << 24) | (
    (b[4] as u64) << 32) | ((b[5] as u64) << 40) | ((b[6] as u64) << 48) | ((b[7] as u64) << 56)
}

fn le_u16_at(raw: &[u8], off: usize) -> (r: u16)
    requires
        off + 2 <= raw@.len(),
    ensures
        r == le16(raw@.subrange(off as int, off + 2)),
{
    let ghost c = raw@.subrange(off as int, off + 2);
    proof {
        assert(c[0] == raw@[off as int] && c[1] == raw@[off + 1]);
    }
    (raw[off] as u16) | ((raw[off + 1] as u16) << 8u16)
}

fn le_u32_at(raw: &[u8], off: usize) -> (r: u32)
    requires
        off + 4 <= raw@.len(),
    ensures
        r == le32(raw@.subrange(off as int, off + 4)),
{
    let ghost c = raw@.subrange(off as int, off + 4);
    proof {
        assert(c[0] == raw@[off as int] && c[1] == raw@[off + 1] && c[2] == raw@[off + 2] && c[3]
            == raw@[off + 3]);
    }
    (raw[off] as u32) | ((raw[off + 1] as u32) << 8u32) | ((raw[off + 2] as u32) << 16u32) | ((raw[off
        + 3] as u32) << 24u32)
}

fn le_u64_at(raw: &[u8], off: usize) -> (r: u64)
    requires
        off + 8 <= raw@.len(),
    ensures
        r == le64(raw@.subrange(off as int, off + 8)),
{
    let ghost c = raw@.subrange(off as int, off + 8);
    proof {
        assert(c[0] == raw@[off as int] && c[1] == raw@[off + 1] && c[2] == raw@[off + 2] && c[3]
            == raw@[off + 3] && c[4] == raw@[off + 4] && c[5] == raw@[off + 5] && c[6] == raw@[off
            + 6] && c[7] == raw@[off + 7]);
    }
    (raw[off] as u64) | ((raw[off + 1] as u64) << 8u64) | ((raw[off + 2] as u64) << 16u64) | ((raw[off
        + 3] as u64) << 24u64) | ((raw[off + 4] as u64) << 32u64) | ((raw[off + 5] as u64)
        << 40u64) | ((raw[off + 6] as u64) << 48u64) | ((raw[off + 7] as u64) << 56u64)
}

/// Whether a tag takes the numeric decode path.
pub open spec fn is_numeric(ty: StorageType) -> bool {
    !(ty is Char || ty is Other)
}

/// The model of the `k`-th cell of a numeric variable: the fixed-width
/// little-endian read of its chunk, widened (signed tags keep their sign,
/// float tags keep their bit patterns).
pub open spec fn numeric_leaf(ty: StorageType, raw: Seq<u8>, k: int) -> LeafModel {
    let w = width_of(ty);
    let c = raw.subrange(k * w, (k + 1) * w);
    match ty {
        StorageType::Byte => LeafModel::Int(c[0] as i8 as int),
        StorageType::UByte => LeafModel::UInt(c[0] as int),
        StorageType::Short => LeafModel::Int(le16(c) as i16 as int),
        StorageType::UShort => LeafModel::UInt(le16(c) as int),
        StorageType::Int => LeafModel::Int(le32(c) as i32 as int),
        StorageType::UInt => LeafModel::UInt(le32(c) as int),
        StorageType::Int64 => LeafModel::Int(le64(c) as i64 as int),
        StorageType::UInt64 => LeafModel::UInt(le64(c) as int),
        StorageType::Float => LeafModel::SingleBits(le32(c)),
        StorageType::Double => LeafModel::DoubleBits(le64(c)),
        StorageType::Char => LeafModel::Null,
        StorageType::Other => LeafModel::Null,
    }
}

/// When decoding a variable succeeds: text under its own rules, an
/// unsupported tag always (it degrades to null), and a numeric tag exactly
/// when the raw buffer holds one fixed-width cell per declared element.
pub open spec fn decode_ok(ty: StorageType, raw: Seq<u8>, dims: Seq<Dimension>) -> bool {
    match ty {
        StorageType::Char => decode_text_ok(raw, dims),
        StorageType::Other => true,
        _ => raw.len() == width_of(ty) * elem_count(dim_lens(dims)),
    }
}

/// What decoding a variable returns on success.
pub open spec fn decode_value(ty: StorageType, raw: Seq<u8>, dims: Seq<Dimension>, v: Value) -> bool {
    match ty {
        StorageType::Char => decode_text_value(raw, dims, v),
        StorageType::Other => v matches Value::Scalar(l) && l is Null,
        _ => {
            &&& matches_shape(v, dim_lens(dims))
            &&& flatten_value(v) == Seq::new(
                elem_count(dim_lens(dims)),
                |k: int| numeric_leaf(ty, raw, k),
            )
        },
    }
}

/// Decodes a variable's raw bytes under its storage-type tag and dimension
/// list into a value tree.
///
/// Numeric cells are read fixed-width, least significant byte first, as the
/// reader's raw region read delivers them on a little-endian host; text
/// goes through the character buffer decoder; an unsupported tag yields a
/// null scalar rather than failing the file.
pub fn decode_variable(ty: &StorageType, raw: &Vec<u8>, dims: &Vec<Dimension>) -> (r: Result<
    Value,
    Error,
>)
    ensures
        r is Ok <==> decode_ok(*ty, raw@, dims@),
        r matches Ok(v) ==> decode_value(*ty, raw@, dims@, v),
{
    match ty {
        StorageType::Char => decode_text(raw, dims),
        StorageType::Other => Ok(Value::Scalar(Leaf::Null)),
        _ => {
            let w: usize = match ty {
                StorageType::Byte => 1,
                StorageType::UByte => 1,
                StorageType::Short => 2,
                StorageType::UShort => 2,
                StorageType::Int => 4,
                StorageType::UInt => 4,
                StorageType::Int64 => 8,
                StorageType::UInt64 => 8,
                StorageType::Float => 4,
                StorageType::Double => 8,
                StorageType::Char => 1,
                StorageType::Other => 1,
            };
            let n = raw.len();
            let ghost lens = dim_lens(dims@);
            let ghost ec = elem_count(lens);
            if n % w != 0 {
                proof {
                    assert((width_of(*ty) * ec) % (w as int) == 0) by (nonlinear_arith)
                        requires
                            w >= 1,
                            width_of(*ty) == w,
                    ;
                }
                return Err(Error::DimensionMismatch);
            }
            let count = n / w;
            proof {
                assert(count * w == n) by (nonlinear_arith)
                    requires
                        w >= 1,
                        count == n as int / w as int,
                        n as int % (w as int) == 0,
                ;
                assert((count == ec) <==> (n == w * ec)) by (nonlinear_arith)
                    requires
                        w >= 1,
                        count * w == n,
                ;
            }
            let mut leaves: Vec<Leaf> = Vec::new();
            let mut k: usize = 0;
            while k < count
                invariant
                    0 <= k <= count,
                    w == width_of(*ty),
                    w >= 1,
                    is_numeric(*ty),
                    n == raw@.len(),
                    count * w == n,
                    leaves@.len() == k,
                    forall|j: int|
                        0 <= j < k ==> (#[trigger] leaves@[j]).model() == numeric_leaf(
                            *ty,
                            raw@,
                            j,
                        ),
                decreases count - k,
            {
                proof {
                    assert(k * w + w <= count * w && (k + 1) * w == k * w + w) by (nonlinear_arith)
                        requires
                            k + 1 <= count,
                            w >= 1,
                    ;
                }
                let off = k * w;
                let leaf = match ty {
                    StorageType::Byte => Leaf::Int((raw[off] as i8) as i64),
                    StorageType::UByte => Leaf::UInt(raw[off] as u64),
                    StorageType::Short => Leaf::Int((le_u16_at(raw.as_slice(), off) as i16) as i64),
                    StorageType::UShort => Leaf::UInt(le_u16_at(raw.as_slice(), off) as u64),
                    StorageType::Int => Leaf::Int((le_u32_at(raw.as_slice(), off) as i32) as i64),
                    StorageType::UInt => Leaf::UInt(le_u32_at(raw.as_slice(), off) as u64),
                    StorageType::Int64 => Leaf::Int(le_u64_at(raw.as_slice(), off) as i64),
                    StorageType::UInt64 => Leaf::UInt(le_u64_at(raw.as_slice(), off)),
                    StorageType::Float => Leaf::SingleBits(le_u32_at(raw.as_slice(), off)),
                    StorageType::Double => Leaf::DoubleBits(le_u64_at(raw.as_slice(), off)),
                    StorageType::Char => Leaf::Null,
                    StorageType::Other => Leaf::Null,
                };
                proof {
                    let ki = k as int;
                    let wi = w as int;
                    let c = raw@.subrange(ki * wi, (ki + 1) * wi);
                    assert((ki + 1) * wi == ki * wi + wi) by (nonlinear_arith);
                    assert(c =~= raw@.subrange(off as int, off + w));
                    if w == 1 {
                        assert(c[0] == raw@[off as int]);
                    }
                    assert(leaf.model() == numeric_leaf(*ty, raw@, ki));
                }
                leaves.push(leaf);
                k = k + 1;
            }
            let shape = crate::chardecode::collect_lens_all(dims);
            proof {
                assert(leaf_models(leaves@) =~= Seq::new(
                    leaves@.len(),
                    |j: int| numeric_leaf(*ty, raw@, j),
                ));
            }
            match reshape(leaves, &shape) {
                Ok(v) => {
                    proof {
                        assert(flatten_value(v) =~= Seq::new(ec, |j: int| numeric_leaf(*ty, raw@, j)));
                    }
                    Ok(v)
                },
                Err(_) => Err(Error::DimensionMismatch),
            }
        },
    }
}

} // verus!
