use vstd::prelude::*;

verus! {

/// One dimension of a variable: a name and a length.
pub struct Dimension {
    pub name: String,
    pub len: usize,
}

/// A scalar leaf of a decoded value tree.
///
/// Floating-point payloads are carried as IEEE 754 bit patterns, so that
/// the decoder can be stated and verified without floating-point arithmetic;
/// the surrounding layer reinterprets the bits when it serialises a record.
pub enum Leaf {
    /// The degrade-gracefully value for unsupported storage types.
    Null,
    /// A signed integer of at most 64 bits, widened.
    Int(i64),
    /// An unsigned integer of at most 64 bits, widened.
    UInt(u64),
    /// The bit pattern of an IEEE 754 single-precision number.
    SingleBits(u32),
    /// The bit pattern of an IEEE 754 double-precision number.
    DoubleBits(u64),
    /// A decoded text item.
    Text(String),
}

/// The mathematical model of a leaf: text is a character sequence, integers
/// are unbounded.
pub enum LeafModel {
    Null,
    Int(int),
    UInt(int),
    SingleBits(u32),
    DoubleBits(u64),
    Text(Seq<char>),
}

impl Leaf {
    pub open spec fn model(self) -> LeafModel {
        match self {
            Leaf::Null => LeafModel::Null,
            Leaf::Int(x) => LeafModel::Int(x as int),
            Leaf::UInt(x) => LeafModel::UInt(x as int),
            Leaf::SingleBits(b) => LeafModel::SingleBits(b),
            Leaf::DoubleBits(b) => LeafModel::DoubleBits(b),
            Leaf::Text(s) => LeafModel::Text(s@),
        }
    }
}

/// The spec-level view of a leaf sequence.
pub open spec fn leaf_models(s: Seq<Leaf>) -> Seq<LeafModel> {
    s.map_values(|l: Leaf| l.model())
}

/// A decoded value tree: a scalar leaf or an ordered sequence of values.
pub enum Value {
    Scalar(Leaf),
    Array(Vec<Value>),
}

/// Depth-first, left-to-right sequence of the leaf models of a value tree.
pub open spec fn flatten_value(v: Value) -> Seq<LeafModel>
    decreases v, 0int,
{
    match v {
        Value::Scalar(l) => seq![l.model()],
        Value::Array(vs) => flatten_list(vs@, 0),
    }
}

/// Concatenation of the flattenings of `vs[i..]`.
pub open spec fn flatten_list(vs: Seq<Value>, i: int) -> Seq<LeafModel>
    decreases vs, vs.len() - i,
{
    if 0 <= i < vs.len() {
        flatten_value(vs[i]) + flatten_list(vs, i + 1)
    } else {
        Seq::empty()
    }
}

/// The product of the dimension lengths.
pub open spec fn shape_product(shape: Seq<usize>) -> nat
    decreases shape.len(),
{
    if shape.len() == 0 {
        1
    } else {
        (shape[0] * shape_product(shape.drop_first())) as nat
    }
}

/// The product can be peeled off the tail as well as the head.
pub proof fn lemma_product_drop_last(shape: Seq<usize>)
    requires
        shape.len() >= 1,
    ensures
        shape_product(shape) == shape_product(shape.drop_last()) * shape.last(),
    decreases shape.len(),
{
    if shape.len() == 1 {
        assert(shape.drop_last() =~= Seq::<usize>::empty());
        assert(shape.drop_first() =~= Seq::<usize>::empty());
        assert(shape_product(Seq::<usize>::empty()) == 1);
        assert(shape_product(shape) == (shape[0] * shape_product(shape.drop_first())) as nat);
        assert(shape_product(shape) == shape_product(shape.drop_last()) * shape.last())
            by (nonlinear_arith)
            requires
                shape_product(shape.drop_last()) == 1,
                shape_product(shape) == (shape[0] * 1) as nat,
                shape.last() == shape[0],
        ;
    } else {
        let df = shape.drop_first();
        let dl = shape.drop_last();
        lemma_product_drop_last(df);
        assert(df.drop_last() =~= dl.drop_first());
        assert(dl[0] == shape[0]);
        assert(shape.last() == df.last());
        assert(shape_product(dl) == dl[0] * shape_product(dl.drop_first()));
        assert(shape_product(shape) == shape[0] * shape_product(df));
        assert(shape_product(shape) == shape_product(dl) * shape.last()) by (nonlinear_arith)
            requires
                shape_product(shape) == shape[0] * shape_product(df),
                shape_product(df) == shape_product(df.drop_last()) * df.last(),
                shape_product(dl) == shape[0] * shape_product(df.drop_last()),
                shape.last() == df.last(),
        ;
    }
}

/// How many leaves a value of the given shape holds. A rank-0 shape decodes
/// to an empty array, so it holds no leaf at all.
pub open spec fn elem_count(shape: Seq<usize>) -> nat {
    if shape.len() == 0 {
        0
    } else {
        shape_product(shape)
    }
}

/// Whether the value tree has exactly the nesting that the shape declares:
/// rank 0 is an empty array, rank 1 an array of scalars of the declared
/// length, and a higher rank an array of `shape[0]` subtrees of the tail
/// shape.
pub open spec fn matches_shape(v: Value, shape: Seq<usize>) -> bool
    decreases shape.len(),
{
    if shape.len() == 0 {
        v matches Value::Array(vs) && vs@.len() == 0
    } else if shape.len() == 1 {
        v matches Value::Array(vs) && vs@.len() == shape[0] && (forall|i: int|
            0 <= i < vs@.len() ==> vs@[i] is Scalar)
    } else {
        v matches Value::Array(vs) && vs@.len() == shape[0] && (forall|i: int|
            0 <= i < vs@.len() ==> matches_shape(#[trigger] vs@[i], shape.drop_first()))
    }
}

/// Nesting depth of a value tree: a scalar has depth 0, an array one more
/// than its deepest child (an empty array has depth 1).
pub open spec fn depth(v: Value) -> nat
    decreases v, 0int,
{
    match v {
        Value::Scalar(_) => 0,
        Value::Array(vs) => 1 + max_child_depth(vs@, 0),
    }
}

/// The largest depth among `vs[i..]`, or 0 when the range is empty.
pub open spec fn max_child_depth(vs: Seq<Value>, i: int) -> nat
    decreases vs, vs.len() - i,
{
    if 0 <= i < vs.len() {
        let d = depth(vs[i]);
        let rest = max_child_depth(vs, i + 1);
        if d >= rest {
            d
        } else {
            rest
        }
    } else {
        0
    }
}

} // verus!
