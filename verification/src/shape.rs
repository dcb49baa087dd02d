use vstd::prelude::*;

verus! {

/// The number of positions a shape addresses: the product of its sizes.
///
/// The empty shape addresses one position, the single element that a
/// broadcast or a selection reads for an array without axes.
pub open spec fn shape_product(shape: Seq<u32>) -> nat
    decreases shape.len(),
{
    if shape.len() == 0 {
        1
    } else {
        (shape[0] as nat) * shape_product(shape.drop_first())
    }
}

/// No axis of the shape is empty.
pub open spec fn all_positive(shape: Seq<u32>) -> bool {
    forall|axis: int| 0 <= axis < shape.len() ==> shape[axis] >= 1
}

/// The product over a concatenation is the product of the products.
pub proof fn lemma_product_concat(a: Seq<u32>, b: Seq<u32>)
    ensures
        shape_product(a + b) == shape_product(a) * shape_product(b),
    decreases a.len(),
{
    if a.len() == 0 {
        assert(a + b =~= b);
        assert(shape_product(a) == 1);
        assert(1 * shape_product(b) == shape_product(b)) by (nonlinear_arith);
    } else {
        let whole = a + b;
        assert(whole.drop_first() =~= a.drop_first() + b);
        assert(whole[0] == a[0]);
        lemma_product_concat(a.drop_first(), b);
        let head = a[0] as nat;
        let left = shape_product(a.drop_first());
        let right = shape_product(b);
        assert(shape_product(whole) == head * shape_product(whole.drop_first()));
        assert(shape_product(a) == head * left);
        assert(head * (left * right) == (head * left) * right) by (nonlinear_arith);
    }
}

/// The product, taken from the trailing axis: the product of the leading
/// axes times the last size.
pub proof fn lemma_product_last(shape: Seq<u32>)
    requires
        shape.len() > 0,
    ensures
        shape_product(shape) == shape_product(shape.drop_last()) * (shape.last() as nat),
{
    let tail = seq![shape.last()];
    assert(shape =~= shape.drop_last() + tail);
    lemma_product_concat(shape.drop_last(), tail);
    assert(tail.drop_first() =~= Seq::<u32>::empty());
    assert(tail[0] == shape.last());
    assert(shape_product(tail) == (shape.last() as nat) * shape_product(tail.drop_first()));
    assert(shape_product(tail.drop_first()) == 1);
    assert((shape.last() as nat) * 1 == shape.last() as nat) by (nonlinear_arith);
}

/// A shape with an empty axis addresses nothing.
pub proof fn lemma_product_zero(shape: Seq<u32>, axis: int)
    requires
        0 <= axis < shape.len(),
        shape[axis] == 0,
    ensures
        shape_product(shape) == 0,
    decreases shape.len(),
{
    if axis == 0 {
        assert(0 * shape_product(shape.drop_first()) == 0) by (nonlinear_arith);
    } else {
        lemma_product_zero(shape.drop_first(), axis - 1);
        assert((shape[0] as nat) * 0 == 0) by (nonlinear_arith);
    }
}

/// A shape without an empty axis addresses at least one position, and at
/// least as many as any run of its trailing axes.
pub proof fn lemma_product_positive(shape: Seq<u32>)
    requires
        all_positive(shape),
    ensures
        shape_product(shape) >= 1,
        shape.len() > 0 ==> shape_product(shape.drop_first()) <= shape_product(shape),
    decreases shape.len(),
{
    if shape.len() > 0 {
        let rest = shape.drop_first();
        assert(all_positive(rest)) by {
            assert forall|axis: int| 0 <= axis < rest.len() implies rest[axis] >= 1 by {
                assert(rest[axis] == shape[axis + 1]);
            }
        }
        lemma_product_positive(rest);
        let head = shape[0] as nat;
        let inner = shape_product(rest);
        assert(head * inner >= inner && head * inner >= 1) by (nonlinear_arith)
            requires
                head >= 1,
                inner >= 1,
        ;
    }
}

/// The number of positions `shape` addresses, or `None` when that number does
/// not fit the index type.
pub fn shape_count(shape: &[u32]) -> (count: Option<u32>)
    ensures
        match count {
            Some(n) => n == shape_product(shape@),
            None => shape_product(shape@) > u32::MAX,
        },
{
    let mut axis: usize = 0;
    while axis < shape.len()
        invariant
            axis <= shape.len(),
            forall|a: int| 0 <= a < axis ==> shape@[a] >= 1,
        decreases shape.len() - axis,
    {
        if shape[axis] == 0 {
            proof {
                lemma_product_zero(shape@, axis as int);
            }
            return Some(0);
        }
        axis += 1;
    }
    assert(all_positive(shape@));
    let mut product: u64 = 1;
    let mut axis: usize = shape.len();
    assert(shape@.skip(axis as int) =~= Seq::<u32>::empty());
    while axis > 0
        invariant
            axis <= shape.len(),
            all_positive(shape@),
            product == shape_product(shape@.skip(axis as int)),
            1 <= product <= u32::MAX,
        decreases axis,
    {
        axis -= 1;
        let ghost suffix = shape@.skip(axis as int);
        proof {
            assert(suffix.drop_first() =~= shape@.skip(axis as int + 1));
            assert(suffix[0] == shape@[axis as int]);
            assert(all_positive(suffix));
            lemma_product_positive(suffix);
            assert((shape@[axis as int] as nat) * (product as nat) <= 0xffff_ffff * 0xffff_ffff)
                by (nonlinear_arith)
                requires
                    shape@[axis as int] <= 0xffff_ffff,
                    product <= 0xffff_ffff,
            ;
        }
        product = (shape[axis] as u64) * product;
        if product > u32::MAX as u64 {
            proof {
                lemma_suffix_product_le(shape@, axis as int);
            }
            return None;
        }
    }
    assert(shape@.skip(0) =~= shape@);
    Some(product as u32)
}

/// In a shape without an empty axis, a run of trailing axes addresses no more
/// positions than the whole shape.
pub proof fn lemma_suffix_product_le(shape: Seq<u32>, from: int)
    requires
        all_positive(shape),
        0 <= from <= shape.len(),
    ensures
        1 <= shape_product(shape.skip(from)) <= shape_product(shape),
        all_positive(shape.skip(from)),
    decreases from,
{
    let suffix = shape.skip(from);
    assert(all_positive(suffix)) by {
        assert forall|axis: int| 0 <= axis < suffix.len() implies suffix[axis] >= 1 by {
            assert(suffix[axis] == shape[axis + from]);
        }
    }
    lemma_product_positive(suffix);
    if from == 0 {
        assert(suffix =~= shape);
    } else {
        lemma_suffix_product_le(shape, from - 1);
        let wider = shape.skip(from - 1);
        assert(wider.drop_first() =~= suffix);
        lemma_product_positive(wider);
    }
}

} // verus!
