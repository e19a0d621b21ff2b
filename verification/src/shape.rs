use vstd::prelude::*;
use vstd::arithmetic::mul::*;
use crate::error::{dims_text, push_dims, push_number, push_signed, signed_decimal, Result, TensorError};
use crate::text::decimal;

verus! {

// ---------------------------------------------------------------------------
// Mathematical model of shapes
// ---------------------------------------------------------------------------

/// Number of elements described by a shape: the product of its dimensions.
pub open spec fn product(s: Seq<usize>) -> nat
    decreases s.len(),
{
    if s.len() == 0 {
        1
    } else {
        product(s.drop_last()) * (s.last() as nat)
    }
}

/// Every prefix product of the shape fits in `usize`: multiplying the
/// dimensions left to right never overflows.
pub open spec fn prefix_products_fit(s: Seq<usize>) -> bool {
    forall|k: int| 0 <= k <= s.len() ==> #[trigger] product(s.take(k)) <= usize::MAX
}

pub open spec fn saturate(x: nat) -> nat {
    if x > usize::MAX { usize::MAX as nat } else { x }
}

/// Row-major strides: each stride is the (saturated) product of the
/// dimensions to its right.
pub open spec fn contiguous_strides_spec(s: Seq<usize>) -> Seq<usize> {
    Seq::new(s.len(), |i: int| saturate(product(s.subrange(i + 1, s.len() as int))) as usize)
}

/// Sum of `index[i] * strides[i]` over the first `n` positions.
pub open spec fn dot_upto(index: Seq<usize>, strides: Seq<usize>, n: int) -> nat
    decreases n,
{
    if n <= 0 {
        0
    } else {
        dot_upto(index, strides, n - 1) + (index[n - 1] as nat) * (strides[n - 1] as nat)
    }
}

/// Sum of `index[i] * strides[i]` over the positions both sequences have.
pub open spec fn dot(index: Seq<usize>, strides: Seq<usize>) -> nat {
    dot_upto(index, strides, min_len(index.len(), strides.len()))
}

pub open spec fn min_len(a: nat, b: nat) -> int {
    if a <= b { a as int } else { b as int }
}

pub proof fn lemma_dot_upto_monotone(index: Seq<usize>, strides: Seq<usize>, n: int, m: int)
    requires
        0 <= n <= m,
    ensures
        dot_upto(index, strides, n) <= dot_upto(index, strides, m),
    decreases m - n,
{
    if n < m {
        lemma_dot_upto_monotone(index, strides, n, m - 1);
        lemma_mul_nonnegative(index[m - 1] as int, strides[m - 1] as int);
    }
}

pub proof fn lemma_product_concat(a: Seq<usize>, b: Seq<usize>)
    ensures
        product(a + b) == product(a) * product(b),
    decreases b.len(),
{
    if b.len() == 0 {
        assert(a + b =~= a);
        assert(product(b) == 1);
    } else {
        let b2 = b.drop_last();
        lemma_product_concat(a, b2);
        assert((a + b).drop_last() =~= a + b2);
        assert((a + b).last() == b.last());
        assert(product(a + b) == product(a + b2) * (b.last() as nat));
        assert(product(b) == product(b2) * (b.last() as nat));
        lemma_mul_is_associative(product(a) as int, product(b2) as int, b.last() as int);
    }
}

pub proof fn lemma_product_prepend(s: Seq<usize>)
    requires
        s.len() > 0,
    ensures
        product(s) == (s[0] as nat) * product(s.drop_first()),
{
    let head = s.take(1);
    let tail = s.drop_first();
    assert(head + tail =~= s);
    lemma_product_concat(head, tail);
    assert(head.drop_last() =~= Seq::<usize>::empty());
    assert(product(head.drop_last()) == 1);
    assert(head.last() == s[0]);
    assert(product(head) == product(head.drop_last()) * (head.last() as nat));
}

pub proof fn lemma_product_zero(s: Seq<usize>, i: int)
    requires
        0 <= i < s.len(),
        s[i] == 0,
    ensures
        product(s) == 0,
    decreases s.len(),
{
    if i == s.len() - 1 {
        lemma_mul_by_zero_is_zero(product(s.drop_last()) as int);
    } else {
        lemma_product_zero(s.drop_last(), i);
        lemma_mul_by_zero_is_zero(s.last() as int);
    }
}

// ---------------------------------------------------------------------------
// Element counts and strides
// ---------------------------------------------------------------------------

/// The refusal of a shape whose element count overflows `usize`.
pub open spec fn overflow_message(shape: Seq<usize>) -> Seq<char> {
    "shape "@ + dims_text(shape) + " overflows usize element count"@
}

/// Element count of `shape`, refusing shapes whose running product overflows
/// `usize` while multiplying left to right.
pub fn checked_numel(shape: &[usize]) -> (res: Result<usize>)
    ensures
        res matches Ok(n) ==> n == product(shape@) && prefix_products_fit(shape@),
        res is Ok <==> prefix_products_fit(shape@),
        res matches Err(e) ==> e is Shape,
        res matches Err(e) ==> e.message_spec() == overflow_message(shape@),
{
    let mut acc: usize = 1;
    let mut i: usize = 0;
    assert(shape@.take(0) =~= Seq::<usize>::empty());
    while i < shape.len()
        invariant
            i <= shape.len(),
            acc == product(shape@.take(i as int)),
            forall|k: int| 0 <= k <= i ==> #[trigger] product(shape@.take(k)) <= usize::MAX,
        decreases shape.len() - i,
    {
        assert(shape@.take(i + 1).drop_last() =~= shape@.take(i as int));
        match acc.checked_mul(shape[i]) {
            Some(next) => {
                acc = next;
                i = i + 1;
            },
            None => {
                assert(product(shape@.take(i + 1)) > usize::MAX);
                let mut message = String::from_str("shape ");
                push_dims(&mut message, shape);
                message.append(" overflows usize element count");
                return Err(TensorError::Shape(message));
            },
        }
    }
    assert(shape@.take(shape.len() as int) =~= shape@);
    Ok(acc)
}

/// Element count of `shape`; the running product must not overflow.
pub fn numel(shape: &[usize]) -> (n: usize)
    requires
        prefix_products_fit(shape@),
    ensures
        n == product(shape@),
{
    let mut acc: usize = 1;
    let mut i: usize = 0;
    assert(shape@.take(0) =~= Seq::<usize>::empty());
    while i < shape.len()
        invariant
            i <= shape.len(),
            acc == product(shape@.take(i as int)),
            prefix_products_fit(shape@),
        decreases shape.len() - i,
    {
        assert(shape@.take(i + 1).drop_last() =~= shape@.take(i as int));
        assert(product(shape@.take(i + 1)) <= usize::MAX);
        acc = acc * shape[i];
        i = i + 1;
    }
    assert(shape@.take(shape.len() as int) =~= shape@);
    acc
}

/// Row-major (C-order) strides for `shape`, saturating at `usize::MAX`.
pub fn contiguous_strides(shape: &[usize]) -> (strides: Vec<usize>)
    ensures
        strides@ == contiguous_strides_spec(shape@),
{
    let n = shape.len();
    let mut strides: Vec<usize> = Vec::new();
    let mut k: usize = 0;
    while k < n
        invariant
            k <= n,
            n == shape.len(),
            strides.len() == k,
        decreases n - k,
    {
        strides.push(0);
        k = k + 1;
    }
    let mut running: usize = 1;
    let mut index: usize = n;
    assert(shape@.subrange(n as int, n as int) =~= Seq::<usize>::empty());
    while index > 0
        invariant
            index <= n,
            n == shape.len(),
            strides.len() == n,
            running == saturate(product(shape@.subrange(index as int, n as int))),
            forall|j: int|
                index <= j < n ==> strides@[j] == saturate(
                    product(#[trigger] shape@.subrange(j + 1, n as int)),
                ) as usize,
        decreases index,
    {
        index = index - 1;
        strides.set(index, running);
        let dim = shape[index];
        proof {
            let rest = shape@.subrange(index + 1, n as int);
            let all = shape@.subrange(index as int, n as int);
            assert(all.drop_first() =~= rest);
            lemma_product_prepend(all);
            let p = product(rest);
            lemma_saturating_step(p, dim as nat);
            lemma_mul_is_commutative(dim as int, p as int);
        }
        running = saturating_mul(running, dim);
    }
    assert(strides@ =~= contiguous_strides_spec(shape@));
    strides
}

/// `a * b`, or `usize::MAX` where the product overflows.
pub fn saturating_mul(a: usize, b: usize) -> (r: usize)
    ensures
        r == saturate(a as nat * b as nat),
{
    match a.checked_mul(b) {
        Some(v) => v,
        None => usize::MAX,
    }
}

/// `a - b`, or zero where `b > a`.
pub fn saturating_sub(a: usize, b: usize) -> (r: usize)
    ensures
        r == (if a >= b { (a - b) as nat } else { 0 }),
{
    if a >= b { a - b } else { 0 }
}

proof fn lemma_saturating_step(p: nat, d: nat)
    ensures
        saturate(saturate(p) * d) == saturate(p * d),
{
    if p <= usize::MAX {
    } else if d == 0 {
    } else {
        lemma_mul_inequality(usize::MAX as int, p as int, d as int);
        lemma_mul_increases(d as int, usize::MAX as int);
        lemma_mul_is_commutative(d as int, usize::MAX as int);
    }
}


/// Whether `strides` are exactly the row-major strides of `shape`.
pub fn is_contiguous(shape: &[usize], strides: &[usize]) -> (b: bool)
    ensures
        b == (strides@ == contiguous_strides_spec(shape@)),
{
    let expected = contiguous_strides(shape);
    if strides.len() != expected.len() {
        return false;
    }
    let mut i: usize = 0;
    while i < strides.len()
        invariant
            i <= strides.len(),
            strides.len() == expected.len(),
            expected@ == contiguous_strides_spec(shape@),
            forall|j: int| 0 <= j < i ==> strides@[j] == expected@[j],
        decreases strides.len() - i,
    {
        if strides[i] != expected[i] {
            return false;
        }
        i = i + 1;
    }
    assert(strides@ =~= expected@);
    true
}

/// Whether some dimension of extent greater than one has stride zero, so
/// that distinct logical positions share storage.
pub fn has_internal_overlap(shape: &[usize], strides: &[usize]) -> (b: bool)
    ensures
        b == exists|i: int|
            0 <= i < min_len(shape@.len(), strides@.len()) && #[trigger] shape@[i] > 1
                && strides@[i] == 0,
{
    let n = if shape.len() <= strides.len() { shape.len() } else { strides.len() };
    let mut i: usize = 0;
    while i < n
        invariant
            i <= n,
            n == min_len(shape@.len(), strides@.len()),
            forall|j: int| 0 <= j < i ==> !(#[trigger] shape@[j] > 1 && strides@[j] == 0),
        decreases n - i,
    {
        if shape[i] > 1 && strides[i] == 0 {
            return true;
        }
        i = i + 1;
    }
    false
}

/// Storage position of a logical index: `offset + sum(index[i] * strides[i])`.
pub fn logical_offset(index: &[usize], strides: &[usize], offset: usize) -> (r: usize)
    requires
        offset + dot(index@, strides@) <= usize::MAX,
    ensures
        r == offset + dot(index@, strides@),
{
    let n = if index.len() <= strides.len() { index.len() } else { strides.len() };
    let mut sum: usize = 0;
    let mut i: usize = 0;
    while i < n
        invariant
            i <= n,
            n == min_len(index@.len(), strides@.len()),
            sum == dot_upto(index@, strides@, i as int),
            offset + dot(index@, strides@) <= usize::MAX,
        decreases n - i,
    {
        proof {
            lemma_dot_upto_monotone(index@, strides@, i + 1, n as int);
        }
        let term = index[i] * strides[i];
        sum = sum + term;
        i = i + 1;
    }
    offset + sum
}

/// Flat row-major position of `index` within `shape`.
pub fn flatten_index(index: &[usize], shape: &[usize]) -> (r: usize)
    requires
        dot(index@, contiguous_strides_spec(shape@)) <= usize::MAX,
    ensures
        r == dot(index@, contiguous_strides_spec(shape@)),
{
    let strides = contiguous_strides(shape);
    logical_offset(index, &strides, 0)
}

// ---------------------------------------------------------------------------
// Broadcasting
// ---------------------------------------------------------------------------

/// Dimension `output_dim` of `shape` once it is right-aligned to
/// `output_rank` dimensions; missing leading dimensions read as 1.
pub open spec fn dim_from_right_spec(shape: Seq<usize>, output_rank: int, output_dim: int) -> usize {
    let leading = output_rank - shape.len();
    if output_dim < leading {
        1
    } else {
        shape[output_dim - leading]
    }
}

pub open spec fn broadcast_rank(left: Seq<usize>, right: Seq<usize>) -> int {
    if left.len() >= right.len() { left.len() as int } else { right.len() as int }
}

/// Two extents broadcast when they agree or one of them is 1.
pub open spec fn extents_compatible(a: usize, b: usize) -> bool {
    a == b || a == 1 || b == 1
}

pub open spec fn broadcast_extent(a: usize, b: usize) -> usize {
    if a == b {
        a
    } else if a == 1 {
        b
    } else {
        a
    }
}

/// Every right-aligned pair of dimensions is compatible.
pub open spec fn shapes_broadcastable(left: Seq<usize>, right: Seq<usize>) -> bool {
    let rank = broadcast_rank(left, right);
    forall|d: int|
        0 <= d < rank ==> extents_compatible(
            #[trigger] dim_from_right_spec(left, rank, d),
            dim_from_right_spec(right, rank, d),
        )
}

/// The broadcast shape of two shapes (meaningful when they are broadcastable).
pub open spec fn broadcast_spec(left: Seq<usize>, right: Seq<usize>) -> Seq<usize> {
    let rank = broadcast_rank(left, right);
    Seq::new(
        rank as nat,
        |d: int|
            broadcast_extent(dim_from_right_spec(left, rank, d), dim_from_right_spec(right, rank, d)),
    )
}

fn dim_from_right(shape: &[usize], output_rank: usize, output_dim: usize) -> (r: usize)
    requires
        shape.len() <= output_rank,
        output_dim < output_rank,
    ensures
        r == dim_from_right_spec(shape@, output_rank as int, output_dim as int),
{
    let leading = output_rank - shape.len();
    if output_dim < leading {
        1
    } else {
        shape[output_dim - leading]
    }
}

/// Dimension `d` is the first whose extents do not broadcast.
pub open spec fn first_incompatible(left: Seq<usize>, right: Seq<usize>, d: int) -> bool {
    let rank = broadcast_rank(left, right);
    &&& 0 <= d < rank
    &&& !extents_compatible(dim_from_right_spec(left, rank, d), dim_from_right_spec(right, rank, d))
    &&& forall|j: int|
        0 <= j < d ==> extents_compatible(
            #[trigger] dim_from_right_spec(left, rank, j),
            dim_from_right_spec(right, rank, j),
        )
}

/// The refusal of shapes that do not broadcast at dimension `d`.
pub open spec fn broadcast_refusal_message(left: Seq<usize>, right: Seq<usize>, d: int) -> Seq<char> {
    let rank = broadcast_rank(left, right);
    "cannot broadcast shapes "@ + dims_text(left) + " and "@ + dims_text(right) + ": dimension "@ + decimal(
        d as nat,
    ) + " has "@ + decimal(dim_from_right_spec(left, rank, d) as nat) + " vs "@ + decimal(
        dim_from_right_spec(right, rank, d) as nat,
    )
}

/// NumPy-style broadcast of two shapes. Fails with a shape error when some
/// right-aligned pair of extents differ and neither is 1, or when the result's
/// element count overflows.
pub fn broadcast_shapes(left: &[usize], right: &[usize]) -> (res: Result<Vec<usize>>)
    ensures
        res is Ok <==> shapes_broadcastable(left@, right@) && prefix_products_fit(
            broadcast_spec(left@, right@),
        ),
        res matches Ok(out) ==> out@ == broadcast_spec(left@, right@),
        res matches Err(e) ==> e is Shape,
        res matches Err(e) ==> if shapes_broadcastable(left@, right@) {
            e.message_spec() == overflow_message(broadcast_spec(left@, right@))
        } else {
            exists|d: int|
                #[trigger] first_incompatible(left@, right@, d) && e.message_spec() == broadcast_refusal_message(
                    left@,
                    right@,
                    d,
                )
        },
{
    let rank = if left.len() >= right.len() { left.len() } else { right.len() };
    let mut out: Vec<usize> = Vec::new();
    let mut d: usize = 0;
    while d < rank
        invariant
            d <= rank,
            rank == broadcast_rank(left@, right@),
            out.len() == d,
            forall|j: int|
                0 <= j < d ==> extents_compatible(
                    #[trigger] dim_from_right_spec(left@, rank as int, j),
                    dim_from_right_spec(right@, rank as int, j),
                ),
            forall|j: int| 0 <= j < d ==> out@[j] == #[trigger] broadcast_spec(left@, right@)[j],
        decreases rank - d,
    {
        let a = dim_from_right(left, rank, d);
        let b = dim_from_right(right, rank, d);
        let extent = if a == b {
            a
        } else if a == 1 {
            b
        } else if b == 1 {
            a
        } else {
            let mut message = String::from_str("cannot broadcast shapes ");
            push_dims(&mut message, left);
            message.append(" and ");
            push_dims(&mut message, right);
            push_number(&mut message, ": dimension ", d as u64);
            push_number(&mut message, " has ", a as u64);
            push_number(&mut message, " vs ", b as u64);
            assert(first_incompatible(left@, right@, d as int));
            return Err(TensorError::Shape(message));
        };
        out.push(extent);
        d = d + 1;
    }
    assert(out@ =~= broadcast_spec(left@, right@));
    match checked_numel(&out) {
        Ok(_) => Ok(out),
        Err(e) => Err(e),
    }
}

/// Source position of an output index after broadcasting: leading output
/// dimensions are dropped and extent-1 input dimensions read position 0.
pub open spec fn broadcast_source_index(
    output_index: Seq<usize>,
    output_shape: Seq<usize>,
    input_shape: Seq<usize>,
) -> Seq<usize> {
    let leading = output_shape.len() - input_shape.len();
    Seq::new(
        input_shape.len(),
        |d: int|
            if input_shape[d] == 1 {
                0usize
            } else {
                output_index[d + leading]
            },
    )
}

/// Flat position in the input that feeds `output_index` of the broadcast output.
pub fn broadcast_flat_index(output_index: &[usize], output_shape: &[usize], input_shape: &[usize]) -> (r:
    usize)
    requires
        input_shape.len() <= output_shape.len(),
        output_shape.len() <= output_index.len(),
        dot(
            broadcast_source_index(output_index@, output_shape@, input_shape@),
            contiguous_strides_spec(input_shape@),
        ) <= usize::MAX,
    ensures
        r == dot(
            broadcast_source_index(output_index@, output_shape@, input_shape@),
            contiguous_strides_spec(input_shape@),
        ),
{
    if input_shape.len() == 0 {
        return 0;
    }
    let leading = output_shape.len() - input_shape.len();
    let mut input_index: Vec<usize> = Vec::new();
    let mut d: usize = 0;
    while d < input_shape.len()
        invariant
            d <= input_shape.len(),
            leading == output_shape.len() - input_shape.len(),
            input_shape.len() <= output_shape.len(),
            output_shape.len() <= output_index.len(),
            input_index.len() == d,
            forall|j: int|
                0 <= j < d ==> input_index@[j] == #[trigger] broadcast_source_index(
                    output_index@,
                    output_shape@,
                    input_shape@,
                )[j],
        decreases input_shape.len() - d,
    {
        let v = if input_shape[d] == 1 { 0 } else { output_index[d + leading] };
        input_index.push(v);
        d = d + 1;
    }
    assert(input_index@ =~= broadcast_source_index(output_index@, output_shape@, input_shape@));
    flatten_index(&input_index, input_shape)
}

/// The shape can be expanded to `output`: it has no more dimensions, and
/// each right-aligned input extent equals the output extent or is 1.
pub open spec fn expandable(input: Seq<usize>, output: Seq<usize>) -> bool {
    &&& input.len() <= output.len()
    &&& forall|k: int|
        0 <= k < input.len() ==> (#[trigger] input[k] == output[k + output.len() - input.len()]
            || input[k] == 1)
}

/// Strides of the expanded view: zero for new leading dimensions and for
/// broadcast (extent-1) dimensions, the input stride elsewhere.
pub open spec fn expand_strides_spec(
    input_shape: Seq<usize>,
    input_strides: Seq<usize>,
    output_shape: Seq<usize>,
) -> Seq<usize> {
    let leading = output_shape.len() - input_shape.len();
    Seq::new(
        output_shape.len(),
        |d: int|
            if d < leading {
                0usize
            } else if input_shape[d - leading] == output_shape[d] {
                input_strides[d - leading]
            } else {
                0usize
            },
    )
}

/// Input dimension `k` is the first that cannot be expanded.
pub open spec fn first_unexpandable(input: Seq<usize>, output: Seq<usize>, k: int) -> bool {
    let leading = output.len() - input.len();
    &&& 0 <= k < input.len()
    &&& !(input[k] == output[k + leading] || input[k] == 1)
    &&& forall|j: int| 0 <= j < k ==> (#[trigger] input[j] == output[j + leading] || input[j] == 1)
}

/// The refusal of an expansion that fails at input dimension `k`.
pub open spec fn expand_refusal_message(input: Seq<usize>, output: Seq<usize>, k: int) -> Seq<char> {
    let leading = output.len() - input.len();
    "cannot expand shape "@ + dims_text(input) + " to "@ + dims_text(output) + ": dim "@ + decimal(k as nat)
        + " has "@ + decimal(input[k] as nat) + " vs "@ + decimal(output[k + leading] as nat)
}

/// Strides that view a tensor of `input_shape` as `output_shape` without copying.
pub fn expand_strides(input_shape: &[usize], input_strides: &[usize], output_shape: &[usize]) -> (res:
    Result<Vec<usize>>)
    requires
        input_strides.len() >= input_shape.len(),
    ensures
        res is Ok <==> expandable(input_shape@, output_shape@) && prefix_products_fit(
            output_shape@,
        ),
        res matches Ok(st) ==> st@ == expand_strides_spec(input_shape@, input_strides@, output_shape@),
        res matches Err(e) ==> e is Shape,
        res matches Err(e) ==> if output_shape@.len() < input_shape@.len() {
            e.message_spec() == "cannot expand shape "@ + dims_text(input_shape@) + " to lower-rank shape "@
                + dims_text(output_shape@)
        } else if expandable(input_shape@, output_shape@) {
            e.message_spec() == overflow_message(output_shape@)
        } else {
            exists|k: int|
                #[trigger] first_unexpandable(input_shape@, output_shape@, k) && e.message_spec()
                    == expand_refusal_message(input_shape@, output_shape@, k)
        },
{
    if output_shape.len() < input_shape.len() {
        let mut message = String::from_str("cannot expand shape ");
        push_dims(&mut message, input_shape);
        message.append(" to lower-rank shape ");
        push_dims(&mut message, output_shape);
        return Err(TensorError::Shape(message));
    }
    let leading = output_shape.len() - input_shape.len();
    let mut out: Vec<usize> = Vec::new();
    let mut d: usize = 0;
    while d < output_shape.len()
        invariant
            d <= output_shape.len(),
            input_shape.len() <= output_shape.len(),
            input_strides.len() >= input_shape.len(),
            leading == output_shape.len() - input_shape.len(),
            out.len() == d,
            forall|j: int|
                0 <= j < d ==> out@[j] == #[trigger] expand_strides_spec(
                    input_shape@,
                    input_strides@,
                    output_shape@,
                )[j],
            forall|k: int|
                0 <= k < input_shape.len() && k + leading < d ==> (#[trigger] input_shape@[k]
                    == output_shape@[k + leading] || input_shape@[k] == 1),
        decreases output_shape.len() - d,
    {
        if d < leading {
            out.push(0);
        } else {
            let input_dim = d - leading;
            let input_size = input_shape[input_dim];
            let output_size = output_shape[d];
            if input_size == output_size {
                out.push(input_strides[input_dim]);
            } else if input_size == 1 {
                out.push(0);
            } else {
                assert(!(input_shape@[input_dim as int] == output_shape@[input_dim + leading]
                    || input_shape@[input_dim as int] == 1));
                let mut message = String::from_str("cannot expand shape ");
                push_dims(&mut message, input_shape);
                message.append(" to ");
                push_dims(&mut message, output_shape);
                push_number(&mut message, ": dim ", input_dim as u64);
                push_number(&mut message, " has ", input_size as u64);
                push_number(&mut message, " vs ", output_size as u64);
                assert(first_unexpandable(input_shape@, output_shape@, input_dim as int));
                return Err(TensorError::Shape(message));
            }
        }
        d = d + 1;
    }
    assert(out@ =~= expand_strides_spec(input_shape@, input_strides@, output_shape@));
    match checked_numel(output_shape) {
        Ok(_) => Ok(out),
        Err(e) => Err(e),
    }
}

/// Resolves a possibly negative dimension against `rank`
/// (`-1` is the last dimension).
pub fn normalize_dim(rank: usize, dim: isize) -> (res: Result<usize>)
    requires
        rank <= isize::MAX,
    ensures
        ({
            let normalized: int = if dim < 0 { rank + dim } else { dim as int };
            &&& (res is Ok <==> 0 <= normalized < rank)
            &&& (res matches Ok(d) ==> d == normalized)
        }),
        res matches Err(e) ==> e is Shape,
        res matches Err(e) ==> e.message_spec() == "dim "@ + signed_decimal(dim as int)
            + " out of range for tensor rank "@ + decimal(rank as nat),
{
    let rank_signed = rank as isize;
    let normalized: isize = if dim < 0 { rank_signed + dim } else { dim };
    if normalized < 0 || normalized >= rank_signed {
        let mut message = String::new();
        push_signed(&mut message, "dim ", dim);
        push_number(&mut message, " out of range for tensor rank ", rank as u64);
        return Err(TensorError::Shape(message));
    }
    Ok(normalized as usize)
}

/// `dims` lists each of `0..rank` exactly once.
pub open spec fn is_permutation(rank: nat, dims: Seq<usize>) -> bool {
    &&& dims.len() == rank
    &&& forall|i: int| 0 <= i < dims.len() ==> #[trigger] dims[i] < rank
    &&& forall|i: int, j: int| 0 <= i < j < dims.len() ==> #[trigger] dims[i] != #[trigger] dims[j]
}

/// Entry `i` is out of range or repeats an earlier entry.
pub open spec fn bad_dim(dims: Seq<usize>, rank: usize, i: int) -> bool {
    dims[i] >= rank || exists|a: int| 0 <= a < i && dims[a] == dims[i]
}

/// Entry `i` is the first bad entry.
pub open spec fn first_bad_dim(dims: Seq<usize>, rank: usize, i: int) -> bool {
    0 <= i < dims.len() && bad_dim(dims, rank, i) && forall|j: int| 0 <= j < i ==> !#[trigger] bad_dim(dims, rank, j)
}

/// The refusal of bad entry `i`.
pub open spec fn bad_dim_message(dims: Seq<usize>, rank: usize, i: int) -> Seq<char> {
    if dims[i] >= rank {
        "permutation dim"@ + " "@ + decimal(dims[i] as nat) + " out of range for rank "@ + decimal(rank as nat)
    } else {
        "permutation contains duplicate dim"@ + " "@ + decimal(dims[i] as nat) + ": "@ + dims_text(dims)
    }
}

/// Accepts `dims` only if it is a permutation of `0..rank`.
pub fn validate_permutation(rank: usize, dims: &[usize]) -> (res: Result<()>)
    ensures
        res is Ok <==> is_permutation(rank as nat, dims@),
        res matches Err(e) ==> e is Shape,
        res matches Err(e) ==> if dims@.len() != rank {
            e.message_spec() == "permutation rank mismatch: tensor rank"@ + " "@ + decimal(rank as nat)
                + ", dims "@ + dims_text(dims@)
        } else {
            exists|i: int|
                #[trigger] first_bad_dim(dims@, rank, i) && e.message_spec() == bad_dim_message(
                    dims@,
                    rank,
                    i,
                )
        },
{
    if dims.len() != rank {
        let mut message = String::from_str("permutation rank mismatch: tensor rank");
        push_number(&mut message, " ", rank as u64);
        message.append(", dims ");
        push_dims(&mut message, dims);
        return Err(TensorError::Shape(message));
    }
    let mut seen: Vec<bool> = Vec::new();
    let mut k: usize = 0;
    while k < rank
        invariant
            k <= rank,
            seen.len() == k,
            forall|j: int| 0 <= j < k ==> !seen@[j],
        decreases rank - k,
    {
        seen.push(false);
        k = k + 1;
    }
    let mut i: usize = 0;
    while i < dims.len()
        invariant
            i <= dims.len(),
            dims.len() == rank,
            seen.len() == rank,
            forall|a: int| 0 <= a < i ==> #[trigger] dims@[a] < rank,
            forall|a: int, b: int| 0 <= a < b < i ==> #[trigger] dims@[a] != #[trigger] dims@[b],
            forall|v: int|
                0 <= v < rank ==> (#[trigger] seen@[v] <==> exists|a: int|
                    0 <= a < i && dims@[a] == v),
        decreases dims.len() - i,
    {
        let dim = dims[i];
        proof {
            assert forall|j: int| 0 <= j < i implies !#[trigger] bad_dim(dims@, rank, j) by {
                assert(dims@[j] < rank);
                if exists|a: int| 0 <= a < j && dims@[a] == dims@[j] {
                    let a = choose|a: int| 0 <= a < j && dims@[a] == dims@[j];
                    assert(dims@[a] != dims@[j]);
                }
            }
        }
        if dim >= rank {
            let mut message = String::from_str("permutation dim");
            push_number(&mut message, " ", dim as u64);
            push_number(&mut message, " out of range for rank ", rank as u64);
            assert(first_bad_dim(dims@, rank, i as int));
            return Err(TensorError::Shape(message));
        }
        if seen[dim] {
            let ghost a = choose|a: int| 0 <= a < i && dims@[a] == dim;
            assert(dims@[a] == dims@[i as int]);
            let mut message = String::from_str("permutation contains duplicate dim");
            push_number(&mut message, " ", dim as u64);
            message.append(": ");
            push_dims(&mut message, dims);
            assert(first_bad_dim(dims@, rank, i as int));
            return Err(TensorError::Shape(message));
        }
        seen.set(dim, true);
        i = i + 1;
    }
    Ok(())
}

/// Extent of one dimension's last element: `(dim - 1) * stride`, with both
/// steps saturating.
pub open spec fn dim_extent(dim: usize, stride: usize) -> nat {
    saturate((if dim >= 1 { (dim - 1) as nat } else { 0 }) * (stride as nat))
}

pub open spec fn extent_upto(shape: Seq<usize>, strides: Seq<usize>, n: int) -> nat
    decreases n,
{
    if n <= 0 {
        0
    } else {
        extent_upto(shape, strides, n - 1) + dim_extent(shape[n - 1], strides[n - 1])
    }
}

/// Largest storage position reachable by a view with this shape, strides and offset.
pub fn max_storage_offset(shape: &[usize], strides: &[usize], offset: usize) -> (r: usize)
    requires
        offset + extent_upto(shape@, strides@, min_len(shape@.len(), strides@.len())) <= usize::MAX,
    ensures
        r == offset + extent_upto(shape@, strides@, min_len(shape@.len(), strides@.len())),
{
    let n = if shape.len() <= strides.len() { shape.len() } else { strides.len() };
    let mut sum: usize = 0;
    let mut i: usize = 0;
    while i < n
        invariant
            i <= n,
            n == min_len(shape@.len(), strides@.len()),
            sum == extent_upto(shape@, strides@, i as int),
            offset + extent_upto(shape@, strides@, n as int) <= usize::MAX,
        decreases n - i,
    {
        proof {
            lemma_extent_upto_monotone(shape@, strides@, i + 1, n as int);
        }
        let term = saturating_mul(saturating_sub(shape[i], 1), strides[i]);
        sum = sum + term;
        i = i + 1;
    }
    offset + sum
}

proof fn lemma_extent_upto_monotone(shape: Seq<usize>, strides: Seq<usize>, n: int, m: int)
    requires
        0 <= n <= m,
    ensures
        extent_upto(shape, strides, n) <= extent_upto(shape, strides, m),
    decreases m - n,
{
    if n < m {
        lemma_extent_upto_monotone(shape, strides, n, m - 1);
    }
}

// ---------------------------------------------------------------------------
// Row-major enumeration of indices
// ---------------------------------------------------------------------------

/// `index` addresses an element of `shape`.
pub open spec fn index_in_bounds(index: Seq<usize>, shape: Seq<usize>) -> bool {
    &&& index.len() == shape.len()
    &&& forall|e: int| 0 <= e < shape.len() ==> #[trigger] index[e] < shape[e]
}

pub open spec fn has_zero_dim(shape: Seq<usize>) -> bool {
    exists|e: int| 0 <= e < shape.len() && #[trigger] shape[e] == 0
}

/// Exact (unsaturated) row-major stride of dimension `d`.
pub open spec fn row_major_stride(shape: Seq<usize>, d: int) -> nat {
    product(shape.subrange(d + 1, shape.len() as int))
}

/// `sum(index[e] * row_major_stride(shape, e))` for `from <= e < n`.
pub open spec fn tail_sum(index: Seq<usize>, shape: Seq<usize>, from: int, n: int) -> int
    decreases n - from,
{
    if n <= from {
        0
    } else {
        tail_sum(index, shape, from, n - 1) + (index[n - 1] as int) * (row_major_stride(
            shape,
            n - 1,
        ) as int)
    }
}

proof fn lemma_tail_sum_split(index: Seq<usize>, shape: Seq<usize>, from: int, mid: int, n: int)
    requires
        from <= mid <= n,
    ensures
        tail_sum(index, shape, from, n) == tail_sum(index, shape, from, mid) + tail_sum(
            index,
            shape,
            mid,
            n,
        ),
    decreases n - mid,
{
    if mid < n {
        lemma_tail_sum_split(index, shape, from, mid, n - 1);
    }
}

proof fn lemma_tail_sum_front(index: Seq<usize>, shape: Seq<usize>, from: int, n: int)
    requires
        from < n,
    ensures
        tail_sum(index, shape, from, n) == (index[from] as int) * (row_major_stride(shape, from)
            as int) + tail_sum(index, shape, from + 1, n),
{
    lemma_tail_sum_split(index, shape, from, from + 1, n);
    assert(tail_sum(index, shape, from, from) == 0);
}

proof fn lemma_tail_sum_agree(a: Seq<usize>, b: Seq<usize>, shape: Seq<usize>, from: int, n: int)
    requires
        forall|e: int| from <= e < n ==> a[e] == b[e],
    ensures
        tail_sum(a, shape, from, n) == tail_sum(b, shape, from, n),
    decreases n - from,
{
    if from < n {
        lemma_tail_sum_agree(a, b, shape, from, n - 1);
    }
}

proof fn lemma_tail_sum_zero(index: Seq<usize>, shape: Seq<usize>, from: int, n: int)
    requires
        forall|e: int| from <= e < n ==> index[e] == 0,
    ensures
        tail_sum(index, shape, from, n) == 0,
    decreases n - from,
{
    if from < n {
        lemma_tail_sum_zero(index, shape, from, n - 1);
        lemma_mul_by_zero_is_zero(row_major_stride(shape, n - 1) as int);
    }
}

/// With every position below its bound, the suffix sum is at most the
/// suffix's element count minus one, with equality exactly at the maxima.
proof fn lemma_tail_sum_bound(index: Seq<usize>, shape: Seq<usize>, from: int)
    requires
        0 <= from <= shape.len(),
        index_in_bounds(index, shape),
    ensures
        tail_sum(index, shape, from, shape.len() as int) <= product(
            shape.subrange(from, shape.len() as int),
        ) - 1,
        (forall|e: int| from <= e < shape.len() ==> index[e] == shape[e] - 1) ==> tail_sum(
            index,
            shape,
            from,
            shape.len() as int,
        ) == product(shape.subrange(from, shape.len() as int)) - 1,
    decreases shape.len() - from,
{
    let n = shape.len() as int;
    if from == n {
        assert(shape.subrange(n, n) =~= Seq::<usize>::empty());
    } else {
        lemma_tail_sum_bound(index, shape, from + 1);
        lemma_tail_sum_front(index, shape, from, n);
        let all = shape.subrange(from, n);
        assert(all.drop_first() =~= shape.subrange(from + 1, n));
        lemma_product_prepend(all);
        let p = row_major_stride(shape, from) as int;
        assert(p == product(shape.subrange(from + 1, n)));
        let x = index[from] as int;
        let s = shape[from] as int;
        lemma_mul_inequality(x, s - 1, p);
        lemma_mul_is_distributive_sub_other_way(p, s, 1);
        lemma_mul_is_commutative(s, p);
        lemma_mul_basics(p);
    }
}

proof fn lemma_product_positive(s: Seq<usize>)
    requires
        !has_zero_dim(s),
    ensures
        product(s) >= 1,
    decreases s.len(),
{
    if s.len() > 0 {
        assert(!has_zero_dim(s.drop_last())) by {
            if has_zero_dim(s.drop_last()) {
                let e = choose|e: int| 0 <= e < s.len() - 1 && s.drop_last()[e] == 0;
                assert(s[e] == 0);
            }
        }
        lemma_product_positive(s.drop_last());
        assert(s[s.len() - 1] != 0);
        lemma_mul_increases(s.last() as int, product(s.drop_last()) as int);
        lemma_mul_is_commutative(s.last() as int, product(s.drop_last()) as int);
    }
}

/// Without zero dimensions, every suffix product is bounded by the whole
/// product, so the saturated strides are the exact ones.
proof fn lemma_strides_exact(shape: Seq<usize>)
    requires
        !has_zero_dim(shape),
        product(shape) <= usize::MAX,
    ensures
        forall|e: int|
            0 <= e < shape.len() ==> #[trigger] contiguous_strides_spec(shape)[e] as nat
                == row_major_stride(shape, e),
{
    let n = shape.len() as int;
    assert forall|e: int| 0 <= e < n implies #[trigger] contiguous_strides_spec(shape)[e] as nat
        == row_major_stride(shape, e) by {
        let head = shape.subrange(0, e + 1);
        let tail = shape.subrange(e + 1, n);
        assert(head + tail =~= shape);
        lemma_product_concat(head, tail);
        assert(!has_zero_dim(head)) by {
            if has_zero_dim(head) {
                let k = choose|k: int| 0 <= k < head.len() && head[k] == 0;
                assert(shape[k] == 0);
            }
        }
        lemma_product_positive(head);
        assert(!has_zero_dim(tail)) by {
            if has_zero_dim(tail) {
                let k = choose|k: int| 0 <= k < tail.len() && tail[k] == 0;
                assert(shape[k + e + 1] == 0);
            }
        }
        lemma_product_positive(tail);
        lemma_mul_increases(product(head) as int, product(tail) as int);
        lemma_mul_is_commutative(product(head) as int, product(tail) as int);
    }
}

proof fn lemma_dot_is_tail_sum(index: Seq<usize>, shape: Seq<usize>, n: int)
    requires
        0 <= n <= shape.len(),
        index.len() == shape.len(),
        forall|e: int|
            0 <= e < shape.len() ==> #[trigger] contiguous_strides_spec(shape)[e] as nat
                == row_major_stride(shape, e),
    ensures
        dot_upto(index, contiguous_strides_spec(shape), n) == tail_sum(index, shape, 0, n),
    decreases n,
{
    if n > 0 {
        lemma_dot_is_tail_sum(index, shape, n - 1);
        assert(contiguous_strides_spec(shape)[n - 1] as nat == row_major_stride(shape, n - 1));
    }
}

/// All indices of `shape`, in row-major order: the last dimension varies
/// fastest, so the `i`-th index has flat position `i`. A shape with a zero
/// dimension has no indices; the empty shape has the single empty index.
pub fn for_each_index(shape: &[usize]) -> (out: Vec<Vec<usize>>)
    requires
        has_zero_dim(shape@) || product(shape@) <= usize::MAX,
    ensures
        has_zero_dim(shape@) ==> out.len() == 0,
        !has_zero_dim(shape@) ==> out.len() == product(shape@),
        forall|i: int|
            0 <= i < out.len() ==> index_in_bounds(#[trigger] out@[i]@, shape@) && dot(
                out@[i]@,
                contiguous_strides_spec(shape@),
            ) == i,
{
    let n = shape.len();
    let mut z: usize = 0;
    while z < n
        invariant
            z <= n,
            n == shape.len(),
            forall|e: int| 0 <= e < z ==> shape@[e] != 0,
        decreases n - z,
    {
        if shape[z] == 0 {
            let mut none: Vec<Vec<usize>> = Vec::new();
            return none;
        }
        z = z + 1;
    }
    assert(!has_zero_dim(shape@));
    proof {
        lemma_strides_exact(shape@);
        lemma_product_positive(shape@);
        assert(shape@.subrange(0, n as int) =~= shape@);
    }
    let ghost total: int = product(shape@) as int;
    let mut index: Vec<usize> = Vec::new();
    let mut k: usize = 0;
    while k < n
        invariant
            k <= n,
            n == shape.len(),
            index.len() == k,
            forall|e: int| 0 <= e < k ==> index@[e] == 0,
            !has_zero_dim(shape@),
        decreases n - k,
    {
        index.push(0);
        k = k + 1;
    }
    proof {
        lemma_tail_sum_zero(index@, shape@, 0, n as int);
        assert forall|e: int| 0 <= e < n implies #[trigger] index@[e] < shape@[e] by {
            assert(shape@[e] != 0);
        }
    }
    let mut out: Vec<Vec<usize>> = Vec::new();
    loop
        invariant_except_break
            index_in_bounds(index@, shape@),
            tail_sum(index@, shape@, 0, n as int) == out.len(),
        invariant
            n == shape.len(),
            total == product(shape@),
            !has_zero_dim(shape@),
            total <= usize::MAX,
            shape@.subrange(0, n as int) == shape@,
            forall|e: int|
                0 <= e < n ==> #[trigger] contiguous_strides_spec(shape@)[e] as nat
                    == row_major_stride(shape@, e),
            forall|i: int|
                0 <= i < out.len() ==> index_in_bounds(#[trigger] out@[i]@, shape@) && dot(
                    out@[i]@,
                    contiguous_strides_spec(shape@),
                ) == i,
        ensures
            out.len() == total,
            forall|i: int|
                0 <= i < out.len() ==> index_in_bounds(#[trigger] out@[i]@, shape@) && dot(
                    out@[i]@,
                    contiguous_strides_spec(shape@),
                ) == i,
        decreases total - out.len(),
    {
        proof {
            lemma_tail_sum_bound(index@, shape@, 0);
            lemma_dot_is_tail_sum(index@, shape@, n as int);
        }
        let snapshot = index.clone();
        assert(snapshot@ =~= index@);
        out.push(snapshot);
        let ghost old_index = index@;
        let mut dim: usize = n;
        let mut done = false;
        while !done && dim > 0
            invariant
                dim <= n,
                n == shape.len(),
                index.len() == n,
                old_index.len() == n,
                index_in_bounds(old_index, shape@),
                !done ==> forall|e: int| 0 <= e < dim ==> #[trigger] index@[e] == old_index[e],
                !done ==> forall|e: int|
                    dim <= e < n ==> #[trigger] index@[e] == 0 && old_index[e] == shape@[e] - 1,
                done ==> dim < n && index@[dim as int] == old_index[dim as int] + 1
                    && index@[dim as int] < shape@[dim as int],
                done ==> forall|e: int| 0 <= e < dim ==> #[trigger] index@[e] == old_index[e],
                done ==> forall|e: int|
                    dim < e < n ==> #[trigger] index@[e] == 0 && old_index[e] == shape@[e] - 1,
            decreases dim,
        {
            let d = dim - 1;
            assert(index@[d as int] == old_index[d as int]);
            assert(old_index[d as int] < shape@[d as int]);
            let ghost before = index@;
            let bumped = index[d] + 1;
            if bumped < shape[d] {
                index.set(d, bumped);
                done = true;
                assert forall|e: int| d < e < n implies index@[e] == 0 && old_index[e] == shape@[e]
                    - 1 by {
                    assert(index@[e] == before[e]);
                }
            } else {
                index.set(d, 0);
                assert forall|e: int| d <= e < n implies index@[e] == 0 && old_index[e]
                    == shape@[e] - 1 by {
                    if e > d {
                        assert(index@[e] == before[e]);
                    }
                }
            }
            dim = d;
        }
        let carried_all = !done;
        if carried_all {
            proof {
                assert(dim == 0);
                assert forall|e: int| 0 <= e < n implies old_index[e] == shape@[e] - 1 by {
                    assert(index@[e] == 0);
                }
                lemma_tail_sum_bound(old_index, shape@, 0);
                assert(tail_sum(old_index, shape@, 0, n as int) == total - 1);
            }
            break;
        }
        proof {
            let d = dim as int;
            let nn = n as int;
            lemma_tail_sum_split(index@, shape@, 0, d, nn);
            lemma_tail_sum_split(old_index, shape@, 0, d, nn);
            lemma_tail_sum_front(index@, shape@, d, nn);
            lemma_tail_sum_front(old_index, shape@, d, nn);
            lemma_tail_sum_agree(index@, old_index, shape@, 0, d);
            lemma_tail_sum_zero(index@, shape@, d + 1, nn);
            assert forall|e: int| d + 1 <= e < nn implies old_index[e] == shape@[e] - 1 by {
                assert(index@[e] == 0);
            }
            lemma_tail_sum_bound(old_index, shape@, d + 1);
            assert(row_major_stride(shape@, d) == product(shape@.subrange(d + 1, nn)));
            lemma_mul_is_distributive_add_other_way(
                row_major_stride(shape@, d) as int,
                old_index[d] as int,
                1,
            );
            assert forall|e: int| 0 <= e < nn implies #[trigger] index@[e] < shape@[e] by {
                if e > d {
                    assert(shape@[e] != 0);
                }
            }
            let st = row_major_stride(shape@, d) as int;
            assert(tail_sum(old_index, shape@, d + 1, nn) == st - 1);
            assert(tail_sum(index@, shape@, 0, d) == tail_sum(old_index, shape@, 0, d));
            assert((index@[d] as int) * st == (old_index[d] as int) * st + st);
            assert(tail_sum(index@, shape@, 0, nn) == tail_sum(old_index, shape@, 0, nn) + 1);
        }
    }
    out
}

// ---------------------------------------------------------------------------
// Laws of broadcasting and expansion
// ---------------------------------------------------------------------------

/// Broadcasting is symmetric: `broadcast_shapes(a, b)` and
/// `broadcast_shapes(b, a)` agree on success and on the shape produced.
pub proof fn lemma_broadcast_commutative(left: Seq<usize>, right: Seq<usize>)
    ensures
        shapes_broadcastable(left, right) == shapes_broadcastable(right, left),
        shapes_broadcastable(left, right) ==> broadcast_spec(left, right) == broadcast_spec(
            right,
            left,
        ),
{
    let rank = broadcast_rank(left, right);
    assert(rank == broadcast_rank(right, left));
    if shapes_broadcastable(left, right) {
        assert(broadcast_spec(left, right) =~= broadcast_spec(right, left)) by {
            assert forall|d: int| 0 <= d < rank implies broadcast_spec(left, right)[d]
                == broadcast_spec(right, left)[d] by {
                assert(extents_compatible(
                    dim_from_right_spec(left, rank, d),
                    dim_from_right_spec(right, rank, d),
                ));
            }
        }
    }
    if shapes_broadcastable(right, left) {
        assert forall|d: int| 0 <= d < rank implies extents_compatible(
            #[trigger] dim_from_right_spec(left, rank, d),
            dim_from_right_spec(right, rank, d),
        ) by {
            assert(extents_compatible(
                dim_from_right_spec(right, rank, d),
                dim_from_right_spec(left, rank, d),
            ));
        }
    }
}

/// A shape broadcasts with itself to itself, and with the scalar (empty)
/// shape to itself.
pub proof fn lemma_broadcast_identity(shape: Seq<usize>)
    ensures
        shapes_broadcastable(shape, shape),
        broadcast_spec(shape, shape) == shape,
        shapes_broadcastable(shape, Seq::<usize>::empty()),
        broadcast_spec(shape, Seq::<usize>::empty()) == shape,
{
    let empty = Seq::<usize>::empty();
    let rank = shape.len() as int;
    assert(broadcast_rank(shape, empty) == rank);
    assert forall|d: int| 0 <= d < rank implies extents_compatible(
        #[trigger] dim_from_right_spec(shape, rank, d),
        dim_from_right_spec(empty, rank, d),
    ) by {
        assert(dim_from_right_spec(empty, rank, d) == 1);
    }
    assert(broadcast_spec(shape, shape) =~= shape);
    assert(broadcast_spec(shape, empty) =~= shape);
}

/// Expanding a view to its own shape leaves its strides unchanged.
pub proof fn lemma_expand_to_same_shape(shape: Seq<usize>, strides: Seq<usize>)
    requires
        strides.len() == shape.len(),
    ensures
        expandable(shape, shape),
        expand_strides_spec(shape, strides, shape) == strides,
{
    assert(expand_strides_spec(shape, strides, shape) =~= strides);
}

// ---------------------------------------------------------------------------
// Flat positions of in-bounds indices
// ---------------------------------------------------------------------------

proof fn lemma_in_bounds_no_zero_dim(index: Seq<usize>, shape: Seq<usize>)
    requires
        index_in_bounds(index, shape),
    ensures
        !has_zero_dim(shape),
{
    if has_zero_dim(shape) {
        let e = choose|e: int| 0 <= e < shape.len() && #[trigger] shape[e] == 0;
        assert(index[e] < shape[e]);
    }
}

/// The flat position of an in-bounds index is below the element count.
pub proof fn lemma_in_bounds_dot_below_product(index: Seq<usize>, shape: Seq<usize>)
    requires
        index_in_bounds(index, shape),
        product(shape) <= usize::MAX,
    ensures
        dot(index, contiguous_strides_spec(shape)) < product(shape),
{
    lemma_in_bounds_no_zero_dim(index, shape);
    lemma_strides_exact(shape);
    let n = shape.len() as int;
    lemma_dot_is_tail_sum(index, shape, n);
    lemma_tail_sum_bound(index, shape, 0);
    assert(shape.subrange(0, n) =~= shape);
}

proof fn lemma_tail_sum_injective(a: Seq<usize>, b: Seq<usize>, shape: Seq<usize>, from: int)
    requires
        0 <= from <= shape.len(),
        index_in_bounds(a, shape),
        index_in_bounds(b, shape),
        tail_sum(a, shape, from, shape.len() as int) == tail_sum(b, shape, from, shape.len() as int),
    ensures
        forall|e: int| from <= e < shape.len() ==> a[e] == b[e],
    decreases shape.len() - from,
{
    let n = shape.len() as int;
    if from < n {
        lemma_tail_sum_front(a, shape, from, n);
        lemma_tail_sum_front(b, shape, from, n);
        lemma_tail_sum_bound(a, shape, from + 1);
        lemma_tail_sum_bound(b, shape, from + 1);
        lemma_tail_sum_nonneg(a, shape, from + 1, n);
        lemma_tail_sum_nonneg(b, shape, from + 1, n);
        let p = row_major_stride(shape, from) as int;
        assert(p == product(shape.subrange(from + 1, n)));
        let ra = tail_sum(a, shape, from + 1, n);
        let rb = tail_sum(b, shape, from + 1, n);
        let x = a[from] as int;
        let y = b[from] as int;
        assert(x == y) by (nonlinear_arith)
            requires
                x * p + ra == y * p + rb,
                0 <= ra <= p - 1,
                0 <= rb <= p - 1,
                0 <= x,
                0 <= y,
        {
            if x < y {
                assert(x * p + p <= y * p);
            } else if y < x {
                assert(y * p + p <= x * p);
            }
        }
        lemma_tail_sum_injective(a, b, shape, from + 1);
    }
}

proof fn lemma_tail_sum_nonneg(index: Seq<usize>, shape: Seq<usize>, from: int, n: int)
    ensures
        tail_sum(index, shape, from, n) >= 0,
    decreases n - from,
{
    if from < n {
        lemma_tail_sum_nonneg(index, shape, from, n - 1);
        lemma_mul_nonnegative(index[n - 1] as int, row_major_stride(shape, n - 1) as int);
    }
}

/// Distinct in-bounds indices have distinct flat positions.
pub proof fn lemma_dot_injective(a: Seq<usize>, b: Seq<usize>, shape: Seq<usize>)
    requires
        index_in_bounds(a, shape),
        index_in_bounds(b, shape),
        dot(a, contiguous_strides_spec(shape)) == dot(b, contiguous_strides_spec(shape)),
        product(shape) <= usize::MAX,
    ensures
        a == b,
{
    lemma_in_bounds_no_zero_dim(a, shape);
    lemma_strides_exact(shape);
    let n = shape.len() as int;
    lemma_dot_is_tail_sum(a, shape, n);
    lemma_dot_is_tail_sum(b, shape, n);
    lemma_tail_sum_injective(a, b, shape, 0);
    assert(a =~= b);
}

/// Broadcasting reads an in-bounds input position for every in-bounds
/// output position.
pub proof fn lemma_broadcast_source_in_bounds(index: Seq<usize>, left: Seq<usize>, right: Seq<usize>)
    requires
        shapes_broadcastable(left, right),
        index_in_bounds(index, broadcast_spec(left, right)),
    ensures
        index_in_bounds(broadcast_source_index(index, broadcast_spec(left, right), left), left),
{
    let out = broadcast_spec(left, right);
    let rank = broadcast_rank(left, right);
    let lead = out.len() - left.len();
    let src = broadcast_source_index(index, out, left);
    assert forall|d: int| 0 <= d < left.len() implies #[trigger] src[d] < left[d] by {
        assert(dim_from_right_spec(left, rank, d + lead) == left[d]);
        assert(extents_compatible(
            dim_from_right_spec(left, rank, d + lead),
            dim_from_right_spec(right, rank, d + lead),
        ));
        assert(out[d + lead] == broadcast_extent(left[d], dim_from_right_spec(right, rank, d + lead)));
        assert(index[d + lead] < out[d + lead]);
    }
}

} // verus!
