use vstd::prelude::*;
use vstd::string::StringExecFns;

use crate::error::Error;
use crate::reshape::reshape;
use crate::text::{bytes_to_text, clean_bytes, decode_text_item, utf8_lossy_of};
use crate::value::{
    elem_count, flatten_value, leaf_models, lemma_product_drop_last, matches_shape, shape_product,
    Dimension, Leaf, LeafModel, Value,
};

verus! {

/// The recognized vocabulary of "label" dimension names: the reserved
/// fixed-width text-length markers and the date/time marker. A text axis
/// named after one of these collapses into whole strings; any other trailing
/// axis stays a true character axis.
pub open spec fn is_label_name(s: Seq<char>) -> bool {
    ||| s == "STRING1"@
    ||| s == "STRING2"@
    ||| s == "STRING4"@
    ||| s == "STRING8"@
    ||| s == "STRING16"@
    ||| s == "STRING32"@
    ||| s == "STRING64"@
    ||| s == "STRING256"@
    ||| s == "DATE_TIME"@
}

/// Whether a dimension name belongs to the recognized "label" vocabulary.
pub fn is_label_dimension(name: &String) -> (r: bool)
    ensures
        r == is_label_name(name@),
{
    ||| name.eq(&String::from_str("STRING1"))
    ||| name.eq(&String::from_str("STRING2"))
    ||| name.eq(&String::from_str("STRING4"))
    ||| name.eq(&String::from_str("STRING8"))
    ||| name.eq(&String::from_str("STRING16"))
    ||| name.eq(&String::from_str("STRING32"))
    ||| name.eq(&String::from_str("STRING64"))
    ||| name.eq(&String::from_str("STRING256"))
    ||| name.eq(&String::from_str("DATE_TIME"))
}

/// The supported fixed text widths: the widths the label vocabulary declares.
pub open spec fn supported_width(w: usize) -> bool {
    w == 1 || w == 2 || w == 4 || w == 8 || w == 14 || w == 16 || w == 32 || w == 64 || w == 256
}

pub(crate) fn is_supported_width(w: usize) -> (r: bool)
    ensures
        r == supported_width(w),
{
    w == 1 || w == 2 || w == 4 || w == 8 || w == 14 || w == 16 || w == 32 || w == 64 || w == 256
}

/// The lengths of an ordered dimension list.
pub open spec fn dim_lens(dims: Seq<Dimension>) -> Seq<usize> {
    dims.map_values(|d: Dimension| d.len)
}

/// Whether the trailing axis of a text variable collapses into whole strings.
pub open spec fn collapses(dims: Seq<Dimension>) -> bool {
    dims.len() > 0 && is_label_name(dims.last().name@)
}

/// The model of the `k`-th cleaned text chunk of width `w`.
pub open spec fn text_leaf(buf: Seq<u8>, w: int, k: int) -> LeafModel {
    LeafModel::Text(utf8_lossy_of(clean_bytes(buf.subrange(k * w, (k + 1) * w))))
}

/// The model of the `k`-th byte decoded as a one-character text leaf.
pub open spec fn byte_leaf(buf: Seq<u8>, k: int) -> LeafModel {
    LeafModel::Text(utf8_lossy_of(seq![buf[k]]))
}

/// When text decoding succeeds: the buffer must hold exactly one byte per
/// declared cell, and a collapsing axis must have a supported width.
pub open spec fn decode_text_ok(buf: Seq<u8>, dims: Seq<Dimension>) -> bool {
    if dims.len() == 0 {
        buf.len() == 0
    } else if collapses(dims) {
        supported_width(dims.last().len) && buf.len() == elem_count(dim_lens(dims))
    } else {
        buf.len() == elem_count(dim_lens(dims))
    }
}

/// What text decoding returns: with a collapsing axis, one cleaned string per
/// chunk of the trailing width, reshaped under the remaining axes (a single
/// chunk with no outer axes promotes to a bare scalar); otherwise one
/// one-character string per byte, reshaped under the full shape.
pub open spec fn decode_text_value(buf: Seq<u8>, dims: Seq<Dimension>, v: Value) -> bool {
    if dims.len() == 0 {
        v matches Value::Array(vs) && vs@.len() == 0
    } else if collapses(dims) {
        if dims.len() == 1 {
            v matches Value::Scalar(l) && l.model() == text_leaf(buf, dims.last().len as int, 0)
        } else {
            &&& matches_shape(v, dim_lens(dims).drop_last())
            &&& flatten_value(v) == Seq::new(
                elem_count(dim_lens(dims).drop_last()),
                |k: int| text_leaf(buf, dims.last().len as int, k),
            )
        }
    } else {
        &&& matches_shape(v, dim_lens(dims))
        &&& flatten_value(v) == Seq::new(buf.len(), |k: int| byte_leaf(buf, k))
    }
}

/// Collects the dimension lengths.
fn collect_lens(dims: &Vec<Dimension>, upto: usize) -> (r: Vec<usize>)
    requires
        upto <= dims@.len(),
    ensures
        r@ == dim_lens(dims@).take(upto as int),
{
    let mut out: Vec<usize> = Vec::new();
    let mut i: usize = 0;
    while i < upto
        invariant
            0 <= i <= upto <= dims@.len(),
            out@ == dim_lens(dims@).take(i as int),
        decreases upto - i,
    {
        out.push(dims[i].len);
        proof {
            assert(dim_lens(dims@).take(i + 1 as int) =~= dim_lens(dims@).take(i as int).push(
                dims@[i as int].len,
            ));
        }
        i = i + 1;
    }
    out
}

/// Collects every dimension length.
pub(crate) fn collect_lens_all(dims: &Vec<Dimension>) -> (r: Vec<usize>)
    ensures
        r@ == dim_lens(dims@),
{
    let r = collect_lens(dims, dims.len());
    proof {
        assert(dim_lens(dims@).take(dims@.len() as int) =~= dim_lens(dims@));
    }
    r
}

/// Decodes a packed fixed-width text buffer under its dimension list.
///
/// The width of one text item is the length of the trailing axis. When the
/// trailing axis is named in the label vocabulary, each width-sized chunk
/// becomes one cleaned string and the axis is dropped from the shape; a
/// single string with no outer axes becomes a bare scalar. Otherwise every
/// byte becomes its own one-character string and the shape is kept. A buffer
/// whose length does not match the shape is a fatal error for the variable.
pub fn decode_text(buf: &Vec<u8>, dims: &Vec<Dimension>) -> (r: Result<Value, Error>)
    ensures
        r is Ok <==> decode_text_ok(buf@, dims@),
        r matches Ok(v) ==> decode_text_value(buf@, dims@, v),
{
    let nd = dims.len();
    if nd == 0 {
        if buf.len() == 0 {
            return Ok(Value::Array(Vec::new()));
        } else {
            return Err(Error::DimensionMismatch);
        }
    }
    let last = &dims[nd - 1];
    let ghost lens = dim_lens(dims@);
    proof {
        assert(lens.last() == dims@.last().len);
    }
    if is_label_dimension(&last.name) {
        let w = last.len;
        if !is_supported_width(w) {
            return Err(Error::DimensionMismatch);
        }
        if nd == 1 {
            proof {
                assert(lens[0] == dims@[0].len);
                assert(lens.drop_first() =~= Seq::<usize>::empty());
                assert(shape_product(lens.drop_first()) == 1);
                assert(shape_product(lens) == (lens[0] * shape_product(lens.drop_first())) as nat);
                assert(elem_count(lens) == w);
            }
            if buf.len() != w {
                return Err(Error::DimensionMismatch);
            }
            let item = decode_text_item(buf.as_slice(), 0, w);
            proof {
                let wi = w as int;
                assert(0 * wi == 0 && (0 + 1) * wi == wi) by (nonlinear_arith);
                assert(buf@.subrange(0 * wi, (0 + 1) * wi) =~= buf@);
            }
            return Ok(Value::Scalar(Leaf::Text(item)));
        }
        // The trailing width divides the declared cell count, so a buffer of
        // any other residue cannot match the shape.
        proof {
            lemma_product_drop_last(lens);
            assert(elem_count(lens) == shape_product(lens.drop_last()) * w);
            assert(lens.drop_last().len() >= 1);
            assert(elem_count(lens.drop_last()) == shape_product(lens.drop_last()));
        }
        let ghost ec2 = elem_count(lens.drop_last());
        if buf.len() % w != 0 {
            proof {
                assert((ec2 * w) % (w as int) == 0) by (nonlinear_arith)
                    requires
                        w >= 1,
                ;
            }
            return Err(Error::DimensionMismatch);
        }
        let chunks = buf.len() / w;
        proof {
            assert(chunks * w == buf@.len()) by (nonlinear_arith)
                requires
                    w >= 1,
                    chunks == buf@.len() as int / w as int,
                    buf@.len() as int % (w as int) == 0,
            ;
            assert((chunks == ec2) <==> (buf@.len() == ec2 * w)) by (nonlinear_arith)
                requires
                    w >= 1,
                    chunks * w == buf@.len(),
            ;
        }
        let n = buf.len();
        let mut leaves: Vec<Leaf> = Vec::new();
        let mut k: usize = 0;
        while k < chunks
            invariant
                0 <= k <= chunks,
                w >= 1,
                n == buf@.len(),
                chunks * w == buf@.len(),
                leaves@.len() == k,
                forall|j: int|
                    0 <= j < k ==> (#[trigger] leaves@[j]).model() == text_leaf(
                        buf@,
                        w as int,
                        j,
                    ),
            decreases chunks - k,
        {
            proof {
                assert(k * w + w <= chunks * w) by (nonlinear_arith)
                    requires
                        k + 1 <= chunks,
                        w >= 1,
                ;
                assert((k + 1) * w == k * w + w) by (nonlinear_arith);
            }
            let lo = k * w;
            let item = decode_text_item(buf.as_slice(), lo, lo + w);
            leaves.push(Leaf::Text(item));
            k = k + 1;
        }
        let shape2 = collect_lens(dims, nd - 1);
        proof {
            assert(shape2@ =~= lens.drop_last());
            assert(leaf_models(leaves@) =~= Seq::new(
                leaves@.len(),
                |j: int| text_leaf(buf@, w as int, j),
            ));
        }
        match reshape(leaves, &shape2) {
            Ok(v) => {
                proof {
                    assert(flatten_value(v) =~= Seq::new(ec2, |j: int| text_leaf(buf@, w as int, j)));
                }
                Ok(v)
            },
            Err(_) => Err(Error::DimensionMismatch),
        }
    } else {
        let mut leaves: Vec<Leaf> = Vec::new();
        let mut k: usize = 0;
        let n = buf.len();
        while k < n
            invariant
                0 <= k <= n,
                n == buf@.len(),
                leaves@.len() == k,
                forall|j: int|
                    0 <= j < k ==> (#[trigger] leaves@[j]).model() == byte_leaf(buf@, j),
            decreases n - k,
        {
            let mut one: Vec<u8> = Vec::new();
            one.push(buf[k]);
            proof {
                assert(one@ =~= seq![buf@[k as int]]);
            }
            let item = bytes_to_text(&one);
            leaves.push(Leaf::Text(item));
            k = k + 1;
        }
        let shape = collect_lens(dims, nd);
        proof {
            assert(shape@ =~= lens);
            assert(leaf_models(leaves@) =~= Seq::new(buf@.len(), |j: int| byte_leaf(buf@, j)));
        }
        match reshape(leaves, &shape) {
            Ok(v) => Ok(v),
            Err(_) => Err(Error::DimensionMismatch),
        }
    }
}

} // verus!


