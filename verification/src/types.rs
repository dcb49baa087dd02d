use vstd::prelude::*;
use std::ops::{Range, RangeFrom, RangeTo};

verus! {

/// The closed set of element kinds an array or a scalar can have.
#[derive(Debug, Clone, Copy, PartialEq, Eq, Structural)]
pub enum Dtype {
    Int8,
    Int16,
    Int32,
    UInt8,
    UInt16,
    UInt32,
    Float32,
    Bool,
}

/// Whether two strings hold the same text.
pub fn same_text(a: &str, b: &str) -> (same: bool)
    ensures
        same == (a@ == b@),
{
    let left = a.to_owned();
    let right = b.to_owned();
    left == right
}

impl Dtype {
    /// The name of the element kind, as it is shown in messages.
    pub open spec fn spec_name(&self) -> Seq<char> {
        match *self {
            Dtype::Int8 => "Int8"@,
            Dtype::Int16 => "Int16"@,
            Dtype::Int32 => "Int32"@,
            Dtype::UInt8 => "UInt8"@,
            Dtype::UInt16 => "UInt16"@,
            Dtype::UInt32 => "UInt32"@,
            Dtype::Float32 => "Float32"@,
            Dtype::Bool => "Bool"@,
        }
    }

    /// The name of the element kind, as it is shown in messages.
    pub fn name(&self) -> (name: &'static str)
        ensures
            name@ == self.spec_name(),
    {
        match self {
            Dtype::Int8 => "Int8",
            Dtype::Int16 => "Int16",
            Dtype::Int32 => "Int32",
            Dtype::UInt8 => "UInt8",
            Dtype::UInt16 => "UInt16",
            Dtype::UInt32 => "UInt32",
            Dtype::Float32 => "Float32",
            Dtype::Bool => "Bool",
        }
    }

    /// The element kind that a caller names: `float` and `float32` name
    /// 32-bit floats, `uint32`, `uint16`, `uint8`, `int32`, `int16` and
    /// `int8` the integers, `bool` the booleans. Any other text names none.
    pub open spec fn spec_from_name(name: Seq<char>) -> Option<Dtype> {
        if name == "float"@ || name == "float32"@ {
            Some(Dtype::Float32)
        } else if name == "uint32"@ {
            Some(Dtype::UInt32)
        } else if name == "uint16"@ {
            Some(Dtype::UInt16)
        } else if name == "uint8"@ {
            Some(Dtype::UInt8)
        } else if name == "int32"@ {
            Some(Dtype::Int32)
        } else if name == "int16"@ {
            Some(Dtype::Int16)
        } else if name == "int8"@ {
            Some(Dtype::Int8)
        } else if name == "bool"@ {
            Some(Dtype::Bool)
        } else {
            None
        }
    }

    /// The element kind that a caller names, if the text names one.
    pub fn from_name(value: &str) -> (dtype: Option<Dtype>)
        ensures
            dtype == Self::spec_from_name(value@),
    {
        if same_text(value, "float") || same_text(value, "float32") {
            Some(Dtype::Float32)
        } else if same_text(value, "uint32") {
            Some(Dtype::UInt32)
        } else if same_text(value, "uint16") {
            Some(Dtype::UInt16)
        } else if same_text(value, "uint8") {
            Some(Dtype::UInt8)
        } else if same_text(value, "int32") {
            Some(Dtype::Int32)
        } else if same_text(value, "int16") {
            Some(Dtype::Int16)
        } else if same_text(value, "int8") {
            Some(Dtype::Int8)
        } else if same_text(value, "bool") {
            Some(Dtype::Bool)
        } else {
            None
        }
    }
}

/// A slice over one axis, already resolved against that axis's length:
/// absolute `start` and `stop` positions and a non-zero `step`.
///
/// The step is signed so that descending slices such as `[10:2:-1]` fit.
#[derive(Debug)]
pub struct IndexSlice {
    pub start: u32,
    pub stop: u32,
    pub step: i32,
}

/// An absolute position for a possibly negative one: negative positions count
/// back from `length`.
pub open spec fn resolved_position(position: i64, length: u32) -> int {
    if position < 0 {
        position + length
    } else {
        position as int
    }
}

/// The magnitude of a step.
pub open spec fn step_magnitude(step: i32) -> int {
    if step < 0 {
        -(step as int)
    } else {
        step as int
    }
}

/// `ceil(span / stride)` for a positive stride.
pub open spec fn ceil_div(span: int, stride: int) -> int {
    if span % stride == 0 {
        span / stride
    } else {
        span / stride + 1
    }
}

/// A slice or the text of the message it was refused with.
pub open spec fn slice_result_view(res: Result<IndexSlice, String>) -> Result<
    IndexSlice,
    Seq<char>,
> {
    match res {
        Ok(slice) => Ok(slice),
        Err(message) => Err(message@),
    }
}

fn abs_step(step: i32) -> (magnitude: u32)
    ensures
        magnitude == step_magnitude(step),
{
    if step < 0 {
        (-(step as i64)) as u32
    } else {
        step as u32
    }
}

/// `ceil_div(span, stride)` counts exactly the multiples of `stride` below `span`.
pub proof fn lemma_ceil_div_bounds(span: int, stride: int)
    requires
        0 <= span,
        0 < stride,
    ensures
        0 <= ceil_div(span, stride) <= span,
        span > 0 ==> ceil_div(span, stride) >= 1,
        forall|k: int| 0 <= k < ceil_div(span, stride) ==> #[trigger] (k * stride) < span,
        ceil_div(span, stride) * stride >= span,
{
    let q = span / stride;
    let r = span % stride;
    assert(span == stride * q + r) by {
        vstd::arithmetic::div_mod::lemma_fundamental_div_mod(span, stride);
    }
    assert(0 <= r < stride) by {
        vstd::arithmetic::div_mod::lemma_mod_bound(span, stride);
    }
    assert(0 <= q) by {
        vstd::arithmetic::div_mod::lemma_div_pos_is_pos(span, stride);
    }
    assert(q <= span) by (nonlinear_arith)
        requires
            span == stride * q + r,
            0 <= r,
            0 <= q,
            0 < stride,
    ;
    let c = ceil_div(span, stride);
    assert(c <= span) by (nonlinear_arith)
        requires
            span == stride * q + r,
            0 <= r < stride,
            0 <= q,
            0 < stride,
            c == if r == 0 { q } else { q + 1 },
    ;
    assert(span > 0 ==> c >= 1) by (nonlinear_arith)
        requires
            span == stride * q + r,
            0 <= r < stride,
            0 <= q,
            c == if r == 0 { q } else { q + 1 },
    ;
    assert(c * stride >= span) by (nonlinear_arith)
        requires
            span == stride * q + r,
            0 <= r < stride,
            c == if r == 0 { q } else { q + 1 },
    ;
    assert forall|k: int| 0 <= k < c implies #[trigger] (k * stride) < span by {
        assert(k * stride < span) by (nonlinear_arith)
            requires
                span == stride * q + r,
                0 <= r < stride,
                0 <= k < c,
                0 < stride,
                c == if r == 0 { q } else { q + 1 },
        ;
    }
}

impl IndexSlice {
    /// The step is non-zero.
    pub open spec fn wf(&self) -> bool {
        self.step != 0
    }

    /// The step points from `start` towards `stop`.
    pub open spec fn directed(&self) -> bool {
        if self.step > 0 {
            self.start <= self.stop
        } else {
            self.stop <= self.start
        }
    }

    /// Both ends lie within an axis of `length` positions.
    pub open spec fn within(&self, length: u32) -> bool {
        self.start <= length && self.stop <= length
    }

    /// The distance between `start` and `stop`.
    pub open spec fn spec_span(&self) -> int {
        if self.start <= self.stop {
            self.stop - self.start
        } else {
            self.start - self.stop
        }
    }

    /// `ceil(|start - stop| / |step|)`.
    pub open spec fn spec_element_count(&self) -> int {
        ceil_div(self.spec_span(), step_magnitude(self.step))
    }

    /// The `k`-th position the slice visits.
    pub open spec fn spec_position(&self, k: int) -> int {
        self.start + k * self.step
    }

    /// The positions the slice selects, in the order it visits them: from
    /// `start`, advancing by `step`, up to but excluding `stop`.
    pub open spec fn positions(&self) -> Seq<u32> {
        Seq::new(self.spec_element_count() as nat, |k: int| self.spec_position(k) as u32)
    }

    /// What `new` returns: the slice, or the message with which the inputs are
    /// turned down.
    pub open spec fn spec_new(start: i64, stop: i64, step: i64, length: u32) -> Result<
        IndexSlice,
        Seq<char>,
    > {
        let first = resolved_position(start, length);
        let last = resolved_position(stop, length);
        if start > length || stop > length {
            Err("Index greater than length"@)
        } else if first < 0 || last < 0 {
            Err("Index less than negative length"@)
        } else if step == 0 {
            Err("Step is zero"@)
        } else if step < i32::MIN || step > i32::MAX {
            Err("Step out of range"@)
        } else {
            Ok(IndexSlice { start: first as u32, stop: last as u32, step: step as i32 })
        }
    }

    /// Resolves negative `start` and `stop` against `length` and builds the
    /// slice. Fails when a resolved end lies outside `0..=length`, or when the
    /// step is zero or does not fit the slice's step type.
    pub fn new(start: i64, stop: i64, step: i64, length: u32) -> (res: Result<Self, String>)
        ensures
            slice_result_view(res) == Self::spec_new(start, stop, step, length),
            res matches Ok(slice) ==> slice.wf() && slice.within(length),
    {
        let len: i64 = length as i64;
        if start > len || stop > len {
            return Err("Index greater than length".to_string());
        }
        let start: i64 = if start < 0 { start + len } else { start };
        let stop: i64 = if stop < 0 { stop + len } else { stop };
        if start < 0 || stop < 0 {
            return Err("Index less than negative length".to_string());
        }
        if step == 0 {
            return Err("Step is zero".to_string());
        }
        if step < i32::MIN as i64 || step > i32::MAX as i64 {
            return Err("Step out of range".to_string());
        }
        Ok(Self { start: start as u32, stop: stop as u32, step: step as i32 })
    }

    /// The number of positions the slice selects.
    pub fn element_count(&self) -> (count: u32)
        requires
            self.wf(),
        ensures
            count == self.spec_element_count(),
    {
        let step: u32 = abs_step(self.step);
        let diff: u32 = if self.start <= self.stop {
            self.stop - self.start
        } else {
            self.start - self.stop
        };
        proof {
            lemma_ceil_div_bounds(diff as int, step as int);
        }
        let div_result: u32 = diff / step;
        if diff % step == 0 {
            div_result
        } else {
            div_result + 1
        }
    }
}

impl IndexSlice {
    /// The slice that is left once the first position has been visited.
    pub open spec fn spec_advanced(&self) -> IndexSlice {
        if self.spec_span() <= step_magnitude(self.step) {
            IndexSlice { start: self.stop, stop: self.stop, step: self.step }
        } else {
            IndexSlice { start: (self.start + self.step) as u32, stop: self.stop, step: self.step }
        }
    }

    /// Every selected position lies between `start` and `stop`: from `start`
    /// on, and strictly before `stop` in the direction of the step.
    pub proof fn lemma_positions_between(&self, k: int)
        requires
            self.wf(),
            self.directed(),
            0 <= k < self.spec_element_count(),
        ensures
            self.step > 0 ==> self.start <= self.spec_position(k) < self.stop,
            self.step < 0 ==> self.stop < self.spec_position(k) <= self.start,
            self.positions()[k] == self.spec_position(k),
    {
        let mag = step_magnitude(self.step);
        lemma_ceil_div_bounds(self.spec_span(), mag);
        assert(k * mag < self.spec_span());
        assert(0 <= k * mag) by (nonlinear_arith)
            requires
                0 <= k,
                0 < mag,
        ;
        if self.step > 0 {
            assert(k * self.step == k * mag);
        } else {
            assert(k * self.step == -(k * mag)) by (nonlinear_arith)
                requires
                    mag == -(self.step as int),
            ;
        }
    }

    /// A slice whose ends coincide selects nothing; any other slice selects
    /// `start` first and then what the advanced slice selects.
    pub proof fn lemma_positions_unfold(&self)
        requires
            self.wf(),
            self.directed(),
        ensures
            self.start == self.stop ==> self.positions().len() == 0,
            self.start != self.stop ==> {
                &&& self.positions().len() > 0
                &&& self.positions()[0] == self.start
                &&& self.spec_advanced().wf()
                &&& self.spec_advanced().directed()
                &&& self.spec_advanced().positions() == self.positions().skip(1)
                &&& self.spec_span() > step_magnitude(self.step) ==> 0 <= self.start + self.step
                    <= u32::MAX
            },
    {
        let mag = step_magnitude(self.step);
        let span = self.spec_span();
        lemma_ceil_div_bounds(span, mag);
        if self.start != self.stop {
            let count = self.spec_element_count();
            let next = self.spec_advanced();
            if span <= mag {
                assert(count == 1) by {
                    if span == mag {
                        vstd::arithmetic::div_mod::lemma_mod_self_0(mag);
                        vstd::arithmetic::div_mod::lemma_div_basics(mag);
                    } else {
                        vstd::arithmetic::div_mod::lemma_small_mod(span as nat, mag as nat);
                        vstd::arithmetic::div_mod::lemma_basic_div(span, mag);
                    }
                }
                assert(next.spec_span() == 0);
                lemma_ceil_div_bounds(0, mag);
                assert(next.positions() =~= self.positions().skip(1));
            } else {
                assert(next.spec_span() == span - mag);
                assert(ceil_div(span - mag, mag) == ceil_div(span, mag) - 1) by {
                    vstd::arithmetic::div_mod::lemma_mod_sub_multiples_vanish(span, mag);
                    vstd::arithmetic::div_mod::lemma_div_plus_one(span - mag, mag);
                }
                assert forall|k: int| 0 <= k < next.spec_element_count() implies next.positions()[k]
                    == self.positions().skip(1)[k] by {
                    assert(next.spec_position(k) == self.spec_position(k + 1)) by (nonlinear_arith)
                        requires
                            next.start == self.start + self.step,
                            next.step == self.step,
                            next.spec_position(k) == next.start + k * next.step,
                            self.spec_position(k + 1) == self.start + (k + 1) * self.step,
                    ;
                }
                assert(next.positions() =~= self.positions().skip(1));
            }
            assert(self.spec_position(0) == self.start);
        }
    }

    /// Whether the slice can be walked: its step is not zero and points
    /// from `start` towards `stop`.
    pub fn can_iterate(&self) -> (ok: bool)
        ensures
            ok == (self.wf() && self.directed()),
    {
        if self.step > 0 {
            self.start <= self.stop
        } else if self.step < 0 {
            self.stop <= self.start
        } else {
            false
        }
    }

    /// An iterator over the positions the slice selects.
    pub fn iterate(&self) -> (iter: IndexSliceIter<'_>)
        requires
            self.wf(),
            self.directed(),
        ensures
            iter.wf(),
            iter.remaining() == self.positions(),
    {
        IndexSliceIter::new(self)
    }
}

/// Walks the positions of an [`IndexSlice`], one `next` at a time.
#[derive(Debug)]
pub struct IndexSliceIter<'a> {
    index_slice: &'a IndexSlice,
    current_pos: u32,
}

impl<'a> IndexSliceIter<'a> {
    /// The part of the slice that has not been visited yet.
    pub closed spec fn rest(&self) -> IndexSlice {
        IndexSlice {
            start: self.current_pos,
            stop: self.index_slice.stop,
            step: self.index_slice.step,
        }
    }

    /// The rest is a slice that can be walked.
    pub open spec fn wf(&self) -> bool {
        self.rest().wf() && self.rest().directed()
    }

    /// The positions that `next` has yet to hand out, in order.
    pub open spec fn remaining(&self) -> Seq<u32> {
        self.rest().positions()
    }

    /// An iterator standing at the start of `index_slice`.
    pub fn new(index_slice: &'a IndexSlice) -> (iter: Self)
        requires
            index_slice.wf(),
            index_slice.directed(),
        ensures
            iter.wf(),
            iter.rest() == *index_slice,
            iter.remaining() == index_slice.positions(),
    {
        Self { index_slice, current_pos: index_slice.start }
    }

    /// Hands out the next position, or `None` once `stop` is reached.
    pub fn next(&mut self) -> (item: Option<u32>)
        requires
            old(self).wf(),
        ensures
            final(self).wf(),
            old(self).remaining().len() == 0 ==> item is None && final(self).rest() == old(
                self,
            ).rest(),
            old(self).remaining().len() > 0 ==> item == Some(old(self).remaining()[0])
                && final(self).rest() == old(self).rest().spec_advanced(),
            final(self).remaining() == if old(self).remaining().len() == 0 {
                old(self).remaining()
            } else {
                old(self).remaining().skip(1)
            },
    {
        proof {
            self.rest().lemma_positions_unfold();
        }
        if self.current_pos != self.index_slice.stop {
            let pos = self.current_pos;
            let stop = self.index_slice.stop;
            let step = abs_step(self.index_slice.step);
            if self.index_slice.step < 0 {
                if pos - stop <= step {
                    self.current_pos = stop;
                } else {
                    self.current_pos = pos - step;
                }
            } else {
                if stop - pos <= step {
                    self.current_pos = stop;
                } else {
                    self.current_pos = pos + step;
                }
            }
            Some(pos)
        } else {
            None
        }
    }

    /// All the positions that are left, in order.
    pub fn collect(self) -> (items: Vec<u32>)
        requires
            self.wf(),
        ensures
            items@ == self.remaining(),
    {
        let ghost all = self.remaining();
        let mut iter = self;
        let mut items: Vec<u32> = Vec::new();
        let mut item = iter.next();
        while item.is_some()
            invariant
                iter.wf(),
                item matches Some(p) ==> items@.push(p) + iter.remaining() == all,
                item is None ==> items@ == all,
            decreases iter.remaining().len() + (if item is Some { 1nat } else { 0nat }),
        {
            let ghost before = items@;
            let ghost rest = iter.remaining();
            items.push(item.unwrap());
            item = iter.next();
            proof {
                if rest.len() > 0 {
                    assert(items@.push(rest[0]) + rest.skip(1) =~= items@ + rest);
                } else {
                    assert(items@ + rest =~= items@);
                }
            }
        }
        items
    }
}

/// Whether an operand of a ufunc signature is an array or a scalar, and of
/// which element kind.
#[derive(Debug)]
pub enum OperandType {
    NdArrayType(Dtype),
    ScalarType(Dtype),
}

/// One signature a ufunc supports: the kinds of its inputs and of its output.
#[derive(Debug)]
pub enum UfuncType {
    UfuncNin1Nout1Type([OperandType; 1], OperandType),
    UfuncNin2Nout1Type([OperandType; 2], OperandType),
}

/// `std::ops::RangeFrom`, a range without an end, as the standard library
/// declares it: a struct whose one public field, `start`, is its lower bound.
#[verifier::external_type_specification]
#[verifier::reject_recursive_types(Idx)]
pub struct ExRangeFrom<Idx>(RangeFrom<Idx>);

/// `std::ops::RangeTo`, a range without a start, as the standard library
/// declares it: a struct whose one public field, `end`, is its upper bound.
#[verifier::external_type_specification]
#[verifier::reject_recursive_types(Idx)]
pub struct ExRangeTo<Idx>(RangeTo<Idx>);

/// What a caller asks of one axis, before it is resolved against the axis's
/// length: a bare index, or a range that is bounded or open at one end, with
/// or without a step.
///
/// A bare index removes its axis from the result; a range keeps it, even
/// when it selects a single position.
#[derive(Debug)]
pub enum IndexSliceOp {
    Index(i64),
    Range(Range<i64>),
    RangeFrom(RangeFrom<i64>),
    RangeTo(RangeTo<i64>),
    RangeWithStep(Range<i64>, i32),
    RangeFromWithStep(RangeFrom<i64>, i32),
    RangeToWithStep(RangeTo<i64>, i32),
}

/// Values that stand for a request on one axis.
pub trait IntoIndexSliceOp {
    fn into_slice_op(self) -> IndexSliceOp;
}

impl IntoIndexSliceOp for i64 {
    fn into_slice_op(self) -> (op: IndexSliceOp)
        ensures
            op == IndexSliceOp::Index(self),
    {
        IndexSliceOp::Index(self)
    }
}

impl IntoIndexSliceOp for Range<i64> {
    fn into_slice_op(self) -> (op: IndexSliceOp)
        ensures
            op == IndexSliceOp::Range(self),
    {
        IndexSliceOp::Range(self)
    }
}

impl IntoIndexSliceOp for RangeFrom<i64> {
    fn into_slice_op(self) -> (op: IndexSliceOp)
        ensures
            op == IndexSliceOp::RangeFrom(self),
    {
        IndexSliceOp::RangeFrom(self)
    }
}

impl From<i64> for IndexSliceOp {
    fn from(value: i64) -> (op: Self) {
        Self::Index(value)
    }
}

impl vstd::std_specs::convert::FromSpecImpl<i64> for IndexSliceOp {
    open spec fn obeys_from_spec() -> bool {
        true
    }

    open spec fn from_spec(value: i64) -> Self {
        Self::Index(value)
    }
}

impl From<Range<i64>> for IndexSliceOp {
    fn from(value: Range<i64>) -> (op: Self) {
        Self::Range(value)
    }
}

impl vstd::std_specs::convert::FromSpecImpl<Range<i64>> for IndexSliceOp {
    open spec fn obeys_from_spec() -> bool {
        true
    }

    open spec fn from_spec(value: Range<i64>) -> Self {
        Self::Range(value)
    }
}

impl From<RangeFrom<i64>> for IndexSliceOp {
    fn from(value: RangeFrom<i64>) -> (op: Self) {
        Self::RangeFrom(value)
    }
}

impl vstd::std_specs::convert::FromSpecImpl<RangeFrom<i64>> for IndexSliceOp {
    open spec fn obeys_from_spec() -> bool {
        true
    }

    open spec fn from_spec(value: RangeFrom<i64>) -> Self {
        Self::RangeFrom(value)
    }
}

impl From<(Range<i64>, i32)> for IndexSliceOp {
    fn from(value: (Range<i64>, i32)) -> (op: Self) {
        Self::RangeWithStep(value.0, value.1)
    }
}

impl vstd::std_specs::convert::FromSpecImpl<(Range<i64>, i32)> for IndexSliceOp {
    open spec fn obeys_from_spec() -> bool {
        true
    }

    open spec fn from_spec(value: (Range<i64>, i32)) -> Self {
        Self::RangeWithStep(value.0, value.1)
    }
}

impl IndexSliceOp {
    /// A bare index, which removes its axis from the result.
    pub open spec fn is_index(&self) -> bool {
        self is Index
    }

    /// The slice that a bare index selects on an axis of `length` positions:
    /// the one position it names, counted from the end when negative.
    pub open spec fn spec_index_slice(index: i64, length: u32) -> Result<IndexSlice, Seq<char>> {
        let position = resolved_position(index, length);
        if position >= length {
            Err("Index greater than length"@)
        } else if position < 0 {
            Err("Index less than negative length"@)
        } else {
            Ok(IndexSlice { start: position as u32, stop: (position + 1) as u32, step: 1 })
        }
    }

    /// What `into_index_slice` returns.
    pub open spec fn spec_into_index_slice(&self, length: u32) -> Result<IndexSlice, Seq<char>> {
        match *self {
            IndexSliceOp::Index(index) => Self::spec_index_slice(index, length),
            IndexSliceOp::Range(range) => IndexSlice::spec_new(range.start, range.end, 1, length),
            IndexSliceOp::RangeWithStep(range, step) => IndexSlice::spec_new(
                range.start,
                range.end,
                step as i64,
                length,
            ),
            IndexSliceOp::RangeFrom(range) => IndexSlice::spec_new(
                range.start,
                length as i64,
                1,
                length,
            ),
            IndexSliceOp::RangeFromWithStep(range, step) => IndexSlice::spec_new(
                range.start,
                length as i64,
                step as i64,
                length,
            ),
            IndexSliceOp::RangeTo(_) => Err("Range without a start is not supported"@),
            IndexSliceOp::RangeToWithStep(_, _) => Err("Range without a start is not supported"@),
        }
    }

    /// Resolves the request against an axis of `length` positions.
    ///
    /// A bare index becomes the slice of that one position; a bounded range is
    /// taken as it is; a range without an end stops at `length`; a step is
    /// carried through. Ranges without a start are refused.
    pub fn into_index_slice(&self, length: u32) -> (res: Result<IndexSlice, String>)
        ensures
            slice_result_view(res) == self.spec_into_index_slice(length),
            res matches Ok(slice) ==> slice.wf() && slice.within(length),
    {
        match self {
            IndexSliceOp::Index(x) => {
                let len: i64 = length as i64;
                let position: i64 = if *x < 0 { *x + len } else { *x };
                if position >= len {
                    Err("Index greater than length".to_string())
                } else if position < 0 {
                    Err("Index less than negative length".to_string())
                } else {
                    Ok(IndexSlice { start: position as u32, stop: (position + 1) as u32, step: 1 })
                }
            },
            IndexSliceOp::Range(x) => IndexSlice::new(x.start, x.end, 1, length),
            IndexSliceOp::RangeWithStep(x, step) => IndexSlice::new(
                x.start,
                x.end,
                *step as i64,
                length,
            ),
            IndexSliceOp::RangeFrom(x) => IndexSlice::new(x.start, length as i64, 1, length),
            IndexSliceOp::RangeFromWithStep(x, step) => IndexSlice::new(
                x.start,
                length as i64,
                *step as i64,
                length,
            ),
            IndexSliceOp::RangeTo(_) => Err("Range without a start is not supported".to_string()),
            IndexSliceOp::RangeToWithStep(_, _) => Err(
                "Range without a start is not supported".to_string(),
            ),
        }
    }
}

} // verus!
