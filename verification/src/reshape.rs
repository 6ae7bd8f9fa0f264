use vstd::prelude::*;

use crate::error::Error;
use crate::value::{
    elem_count, flatten_list, flatten_value, leaf_models, matches_shape, shape_product, depth,
    max_child_depth, Leaf, Value,
};

verus! {

/// Appending a value to a list appends its flattening.
proof fn lemma_flatten_list_push(vs: Seq<Value>, v: Value, i: int)
    requires
        0 <= i <= vs.len(),
    ensures
        flatten_list(vs.push(v), i) == flatten_list(vs, i) + flatten_value(v),
    decreases vs.len() - i,
{
    if i == vs.len() {
        assert(flatten_list(vs.push(v), i + 1) =~= Seq::empty());
        assert(flatten_list(vs.push(v), i) =~= flatten_value(v));
        assert(flatten_list(vs, i) + flatten_value(v) =~= flatten_value(v));
    } else {
        lemma_flatten_list_push(vs, v, i + 1);
        assert(vs.push(v)[i] == vs[i]);
        assert(flatten_list(vs.push(v), i) =~= flatten_list(vs, i) + flatten_value(v));
    }
}

/// A shape with a zero dimension holds no leaves.
proof fn lemma_product_zero(shape: Seq<usize>, i: int)
    requires
        0 <= i < shape.len(),
        shape[i] == 0,
    ensures
        shape_product(shape) == 0,
    decreases i,
{
    if i == 0 {
    } else {
        lemma_product_zero(shape.drop_first(), i - 1);
    }
}

/// With no zero dimension, dropping leading dimensions cannot increase the
/// product.
proof fn lemma_product_skip_le(shape: Seq<usize>, i: int)
    requires
        0 <= i <= shape.len(),
        forall|j: int| 0 <= j < shape.len() ==> shape[j] >= 1,
    ensures
        shape_product(shape.skip(i)) <= shape_product(shape),
    decreases i,
{
    if i == 0 {
        assert(shape.skip(0) =~= shape);
    } else {
        lemma_product_skip_le(shape, i - 1);
        let s = shape.skip(i - 1);
        assert(s.drop_first() =~= shape.skip(i));
        assert(shape_product(s) == s[0] * shape_product(s.drop_first()));
        assert(s[0] * shape_product(shape.skip(i)) >= shape_product(shape.skip(i)))
            by (nonlinear_arith)
            requires
                s[0] >= 1,
        ;
    }
}

/// Computes how many leaves a value of this shape holds, or `None` when the
/// count does not fit the machine.
fn checked_elem_count(shape: &Vec<usize>) -> (r: Option<usize>)
    ensures
        r matches Some(n) ==> n == elem_count(shape@),
        r is None ==> elem_count(shape@) > usize::MAX,
{
    if shape.len() == 0 {
        return Some(0);
    }
    let n = shape.len();
    let mut k: usize = 0;
    while k < n
        invariant
            0 <= k <= n,
            n == shape@.len(),
            forall|j: int| 0 <= j < k ==> shape@[j] >= 1,
        decreases n - k,
    {
        if shape[k] == 0 {
            proof {
                lemma_product_zero(shape@, k as int);
            }
            return Some(0);
        }
        k = k + 1;
    }
    let mut acc: usize = 1;
    let mut i: usize = n;
    while i > 0
        invariant
            0 <= i <= n,
            n == shape@.len(),
            forall|j: int| 0 <= j < n ==> shape@[j] >= 1,
            acc == shape_product(shape@.skip(i as int)),
        decreases i,
    {
        proof {
            assert(shape@.skip(i - 1 as int).drop_first() =~= shape@.skip(i as int));
        }
        match shape[i - 1].checked_mul(acc) {
            Some(a) => {
                acc = a;
            },
            None => {
                proof {
                    lemma_product_skip_le(shape@, i - 1 as int);
                }
                return None;
            },
        }
        i = i - 1;
    }
    proof {
        assert(shape@.skip(0) =~= shape@);
    }
    Some(acc)
}

/// Builds the subtree for the shape suffix `shape[d..]` out of exactly the
/// right number of leaves.
fn reshape_rec(flat: Vec<Leaf>, shape: &Vec<usize>, d: usize) -> (v: Value)
    requires
        d <= shape@.len(),
        flat@.len() == elem_count(shape@.skip(d as int)),
    ensures
        matches_shape(v, shape@.skip(d as int)),
        flatten_value(v) == leaf_models(flat@),
    decreases shape@.len() - d,
{
    let ghost orig = flat@;
    if d == shape.len() {
        let out: Vec<Value> = Vec::new();
        proof {
            assert(flatten_value(Value::Array(out)) =~= leaf_models(orig));
        }
        Value::Array(out)
    } else if d + 1 == shape.len() {
        let n = shape[d];
        proof {
            assert(shape@.skip(d as int).drop_first() =~= shape@.skip(d + 1 as int));
            assert(elem_count(shape@.skip(d as int)) == n) by {
                assert(shape@.skip(d as int)[0] == shape@[d as int]);
                assert(shape_product(shape@.skip(d + 1 as int)) == 1);
            }
        }
        let mut rest = flat;
        let mut out: Vec<Value> = Vec::new();
        let mut j: usize = 0;
        while j < n
            invariant
                0 <= j <= n,
                n as int == orig.len(),
                out@.len() == j,
                rest@ == orig.skip(j as int),
                forall|k: int| 0 <= k < j ==> out@[k] is Scalar,
                flatten_list(out@, 0) == leaf_models(orig.take(j as int)),
            decreases n - j,
        {
            let l = rest.remove(0);
            proof {
                assert(orig.skip(j as int).remove(0) =~= orig.skip(j + 1 as int));
                assert(l == orig[j as int]);
            }
            let ghost out0 = out@;
            out.push(Value::Scalar(l));
            proof {
                lemma_flatten_list_push(out0, Value::Scalar(l), 0);
                assert(leaf_models(orig.take(j + 1 as int)) =~= leaf_models(
                    orig.take(j as int),
                ) + flatten_value(Value::Scalar(l)));
            }
            j = j + 1;
        }
        proof {
            assert(orig.take(n as int) =~= orig);
            assert(matches_shape(Value::Array(out), shape@.skip(d as int)));
        }
        Value::Array(out)
    } else {
        let n = shape[d];
        let ghost tail = shape@.skip(d + 1 as int);
        proof {
            assert(shape@.skip(d as int).drop_first() =~= tail);
            assert(shape@.skip(d as int)[0] == shape@[d as int]);
            assert(elem_count(shape@.skip(d as int)) == n * shape_product(tail));
        }
        if n == 0 {
            let out: Vec<Value> = Vec::new();
            proof {
                assert(orig.len() == 0) by (nonlinear_arith)
                    requires
                        n == 0,
                        orig.len() == n * shape_product(tail),
                ;
                assert(flatten_value(Value::Array(out)) =~= leaf_models(orig));
            }
            return Value::Array(out);
        }
        let sub = flat.len() / n;
        proof {
            assert(orig.len() == n * shape_product(tail));
            assert(orig.len() as int / n as int == shape_product(tail)) by (nonlinear_arith)
                requires
                    n >= 1,
                    orig.len() == n * shape_product(tail),
            ;
        }
        let d1 = d + 1;
        let mut rest = flat;
        let mut out: Vec<Value> = Vec::new();
        let mut j: usize = 0;
        while j < n
            invariant
                0 <= j <= n,
                d1 == d + 1,
                d + 1 < shape@.len(),
                n == shape@[d as int],
                sub == shape_product(tail),
                tail == shape@.skip(d + 1 as int),
                orig.len() == n * sub,
                out@.len() == j,
                rest@ == orig.skip(j * sub),
                forall|k: int| 0 <= k < j ==> matches_shape(#[trigger] out@[k], tail),
                flatten_list(out@, 0) == leaf_models(orig.take(j * sub)),
            decreases n - j,
        {
            proof {
                assert((j + 1) * sub == j * sub + sub) by (nonlinear_arith);
                assert(j * sub + sub <= n * sub) by (nonlinear_arith)
                    requires
                        j + 1 <= n,
                        sub >= 0,
                ;
            }
            let next = rest.split_off(sub);
            proof {
                assert(rest@ =~= orig.subrange(j * sub, j * sub + sub));
                assert(next@ =~= orig.skip(j * sub + sub));
                assert(rest@.len() == elem_count(tail));
            }
            let ghost chunk = rest@;
            let child = reshape_rec(rest, shape, d1);
            let ghost out0 = out@;
            out.push(child);
            proof {
                lemma_flatten_list_push(out0, child, 0);
                assert(leaf_models(orig.take(j * sub + sub)) =~= leaf_models(
                    orig.take(j * sub),
                ) + leaf_models(chunk));
            }
            rest = next;
            j = j + 1;
        }
        proof {
            assert(j * sub == orig.len()) by (nonlinear_arith)
                requires
                    j == n,
                    orig.len() == n * sub,
            ;
            assert(orig.take(orig.len() as int) =~= orig);
            assert(matches_shape(Value::Array(out), shape@.skip(d as int)));
        }
        Value::Array(out)
    }
}

/// Turns a flat leaf sequence and a shape into a nested value tree.
///
/// The result nests exactly as the shape declares, and its depth-first
/// flattening recovers the input leaves in order. A length that does not
/// match the shape's leaf count is a fatal error for the variable, never a
/// silent truncation.
pub fn reshape(flat: Vec<Leaf>, shape: &Vec<usize>) -> (r: Result<Value, Error>)
    ensures
        r is Ok <==> flat@.len() == elem_count(shape@),
        r matches Ok(v) ==> matches_shape(v, shape@) && flatten_value(v) == leaf_models(flat@),
{
    let flat_len = flat.len();
    match checked_elem_count(shape) {
        Some(n) => {
            if flat_len != n {
                Err(Error::DimensionMismatch)
            } else {
                proof {
                    assert(shape@.skip(0) =~= shape@);
                }
                Ok(reshape_rec(flat, shape, 0))
            }
        },
        None => Err(Error::DimensionMismatch),
    }
}

/// A value that nests as a shape of positive interior dimensions declares
/// has nesting depth equal to the shape's rank.
///
/// (A zero interior dimension cuts the tree off early, so nothing below it
/// can witness the remaining rank.)
pub proof fn lemma_matches_shape_depth(v: Value, shape: Seq<usize>)
    requires
        matches_shape(v, shape),
        forall|i: int| 0 <= i < shape.len() - 1 ==> shape[i] >= 1,
    ensures
        shape.len() == 0 ==> depth(v) == 1,
        shape.len() > 0 ==> depth(v) == shape.len(),
    decreases shape.len(),
{
    match v {
        Value::Scalar(_) => {
            assert(false);
        },
        Value::Array(vs) => {
            if shape.len() == 0 {
                assert(max_child_depth(vs@, 0) == 0);
            } else if shape.len() == 1 {
                lemma_max_child_depth_all(vs@, 0, 0);
            } else {
                assert(forall|i: int|
                    0 <= i < shape.drop_first().len() - 1 ==> shape.drop_first()[i] >= 1);
                assert forall|k: int| 0 <= k < vs@.len() implies depth(#[trigger] vs@[k])
                    == shape.len() - 1 by {
                    lemma_matches_shape_depth(vs@[k], shape.drop_first());
                }
                lemma_max_child_depth_all(vs@, 0, (shape.len() - 1) as nat);
            }
        },
    }
}

/// If every element of `vs[i..]` has depth `d`, the maximum is `d` (or 0 when
/// the range is empty).
proof fn lemma_max_child_depth_all(vs: Seq<Value>, i: int, d: nat)
    requires
        0 <= i <= vs.len(),
        forall|k: int| 0 <= k < vs.len() ==> depth(#[trigger] vs[k]) == d,
    ensures
        i < vs.len() ==> max_child_depth(vs, i) == d,
        i == vs.len() ==> max_child_depth(vs, i) == 0,
    decreases vs.len() - i,
{
    if i < vs.len() {
        lemma_max_child_depth_all(vs, i + 1, d);
    }
}

} // verus!
