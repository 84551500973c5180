//! Row-major matrices and what a product of two of them is.
//!
//! Multiply-accumulate steps are handed in by the caller: a step takes a value
//! of `A`, a value of `B` and the sum so far. Every entry of a product is the
//! chain of its steps in ascending order of the inner dimension, from zero.
use vstd::prelude::*;

verus! {

/// Where the entry of a row and a column stands in a row-major matrix of
/// `width` columns.
pub open spec fn cell(row: int, column: int, width: int) -> int {
    row * width + column
}

/// `step` can be called on all values.
pub open spec fn step_is_total<F: Fn(u32, u32, u32) -> u32>(step: F) -> bool {
    forall|x: u32, y: u32, z: u32| call_requires(step, (x, y, z))
}

/// `clamp` can be called on every value.
pub open spec fn clamp_is_total<C: Fn(u32) -> u32>(clamp: C) -> bool {
    forall|x: u32| call_requires(clamp, (x,))
}

/// `value` is the sum of the first `count` products of row `row` of `A` and
/// column `column` of `B`, accumulated in order from zero.
pub open spec fn accumulated<F: Fn(u32, u32, u32) -> u32>(
    step: F,
    a: Seq<u32>,
    b: Seq<u32>,
    k: int,
    n: int,
    row: int,
    column: int,
    count: int,
    value: u32,
) -> bool
    decreases count,
{
    if count <= 0 {
        value == 0
    } else {
        exists|partial: u32|
            accumulated(step, a, b, k, n, row, column, count - 1, partial)
                && #[trigger] call_ensures(
                step,
                (a[cell(row, count - 1, k)], b[cell(count - 1, column, n)], partial),
                value,
            )
    }
}

/// One more step makes one more product part of the sum.
pub proof fn one_step_more<F: Fn(u32, u32, u32) -> u32>(
    step: F,
    a: Seq<u32>,
    b: Seq<u32>,
    k: int,
    n: int,
    row: int,
    column: int,
    count: int,
    partial: u32,
    value: u32,
)
    requires
        0 <= count,
        accumulated(step, a, b, k, n, row, column, count, partial),
        call_ensures(
            step,
            (a[cell(row, count, k)], b[cell(count, column, n)], partial),
            value,
        ),
    ensures
        accumulated(step, a, b, k, n, row, column, count + 1, value),
{
    let next = count + 1;
    assert(next - 1 == count);
    assert(accumulated(step, a, b, k, n, row, column, next - 1, partial));
    assert(call_ensures(
        step,
        (a[cell(row, next - 1, k)], b[cell(next - 1, column, n)], partial),
        value,
    ));
}

/// The buffers hold `A` with `m` rows and `k` columns, `B` with `k` rows and
/// `n` columns, and room for the product.
pub open spec fn shaped(a: Seq<u32>, b: Seq<u32>, output: Seq<u32>, m: int, k: int, n: int) -> bool {
    &&& 0 <= m
    &&& 0 <= k
    &&& 0 <= n
    &&& m > 0 && n > 0 ==> m * k <= a.len() && k * n <= b.len()
    &&& m * n <= output.len()
}

/// Nothing behind the matrix changed.
pub open spec fn same_behind(before: Seq<u32>, after: Seq<u32>, size: int) -> bool {
    &&& after.len() == before.len()
    &&& forall|i: int| size <= i < before.len() ==> after[i] == before[i]
}

/// An entry of a matrix stands inside it.
pub proof fn cell_is_inside(row: int, column: int, height: int, width: int)
    requires
        0 <= row < height,
        0 <= column < width,
    ensures
        0 <= row * width <= cell(row, column, width) < height * width,
{
    assert(0 <= row * width) by (nonlinear_arith)
        requires
            0 <= row,
            0 <= width,
    ;
    assert(row * width + width <= height * width) by (nonlinear_arith)
        requires
            row + 1 <= height,
            0 <= width,
    ;
}

/// Different entries stand in different places.
pub proof fn cells_differ(row: int, column: int, other_row: int, other_column: int, width: int)
    requires
        0 <= column < width,
        0 <= other_column < width,
        cell(row, column, width) == cell(other_row, other_column, width),
    ensures
        row == other_row,
        column == other_column,
{
    if row < other_row {
        assert(row * width + width <= other_row * width) by (nonlinear_arith)
            requires
                row + 1 <= other_row,
                0 <= width,
        ;
    }
    if other_row < row {
        assert(other_row * width + width <= row * width) by (nonlinear_arith)
            requires
                other_row + 1 <= row,
                0 <= width,
        ;
    }
}

/// Reads an entry of a matrix.
pub fn read_cell(values: &[u32], row: usize, column: usize, height: usize, width: usize) -> (value:
    u32)
    requires
        row < height,
        column < width,
        height * width <= values@.len(),
    ensures
        value == values@[cell(row as int, column as int, width as int)],
{
    proof {
        cell_is_inside(row as int, column as int, height as int, width as int);
        assert(values.len() == values@.len());
    }
    values[row * width + column]
}

/// Writes an entry of a matrix.
pub fn write_cell(
    values: &mut [u32],
    row: usize,
    column: usize,
    height: usize,
    width: usize,
    value: u32,
)
    requires
        row < height,
        column < width,
        height * width <= old(values)@.len(),
    ensures
        same_behind(old(values)@, final(values)@, height * width),
        forall|r: int, c: int|
            0 <= r < height && 0 <= c < width ==> #[trigger] final(values)@[cell(
                r,
                c,
                width as int,
            )] == (if r == row && c == column {
                value
            } else {
                old(values)@[cell(r, c, width as int)]
            }),
{
    proof {
        cell_is_inside(row as int, column as int, height as int, width as int);
        assert(values.len() == values@.len());
    }
    let ghost before = values@;
    values[row * width + column] = value;
    proof {
        assert forall|r: int, c: int| 0 <= r < height && 0 <= c < width implies #[trigger] values@[cell(
            r,
            c,
            width as int,
        )] == (if r == row && c == column {
            value
        } else {
            before[cell(r, c, width as int)]
        }) by {
            cell_is_inside(r, c, height as int, width as int);
            if cell(r, c, width as int) == cell(row as int, column as int, width as int) {
                cells_differ(r, c, row as int, column as int, width as int);
            }
        }
    }
}

/// Continues the sum of one entry from `start` steps to `end` steps.
pub fn accumulate<F: Fn(u32, u32, u32) -> u32>(
    step: &F,
    a: &[u32],
    b: &[u32],
    dimensions: (usize, usize, usize),
    place: (usize, usize),
    start: usize,
    end: usize,
    sum: u32,
) -> (result: u32)
    requires
        step_is_total(*step),
        start <= end <= dimensions.1,
        place.0 < dimensions.0,
        place.1 < dimensions.2,
        dimensions.0 * dimensions.1 <= a@.len(),
        dimensions.1 * dimensions.2 <= b@.len(),
        accumulated(
            *step,
            a@,
            b@,
            dimensions.1 as int,
            dimensions.2 as int,
            place.0 as int,
            place.1 as int,
            start as int,
            sum,
        ),
    ensures
        accumulated(
            *step,
            a@,
            b@,
            dimensions.1 as int,
            dimensions.2 as int,
            place.0 as int,
            place.1 as int,
            end as int,
            result,
        ),
{
    let (m, k, n): (usize, usize, usize) = dimensions;
    let (row, column): (usize, usize) = place;
    let mut sum: u32 = sum;
    let mut inner: usize = start;
    while inner < end
        invariant
            step_is_total(*step),
            start <= inner <= end <= k,
            row < m,
            column < n,
            m * k <= a@.len(),
            k * n <= b@.len(),
            accumulated(
                *step,
                a@,
                b@,
                k as int,
                n as int,
                row as int,
                column as int,
                inner as int,
                sum,
            ),
        decreases end - inner,
    {
        let left: u32 = read_cell(a, row, inner, m, k);
        let right: u32 = read_cell(b, inner, column, k, n);
        let ghost partial = sum;
        sum = step(left, right, sum);
        proof {
            one_step_more(
                *step,
                a@,
                b@,
                k as int,
                n as int,
                row as int,
                column as int,
                inner as int,
                partial,
                sum,
            );
        }
        inner += 1;
    }
    sum
}

/// Every entry of the product, by the scalar triple loop.
pub fn multiply<F: Fn(u32, u32, u32) -> u32>(
    step: &F,
    a: &[u32],
    b: &[u32],
    output: &mut [u32],
    m: usize,
    k: usize,
    n: usize,
)
    requires
        step_is_total(*step),
        shaped(a@, b@, old(output)@, m as int, k as int, n as int),
    ensures
        same_behind(old(output)@, final(output)@, m * n),
        forall|r: int, c: int|
            0 <= r < m && 0 <= c < n ==> accumulated(
                *step,
                a@,
                b@,
                k as int,
                n as int,
                r,
                c,
                k as int,
                #[trigger] final(output)@[cell(r, c, n as int)],
            ),
{
    let ghost before = output@;
    let mut row: usize = 0;
    while row < m
        invariant
            step_is_total(*step),
            row <= m,
            shaped(a@, b@, output@, m as int, k as int, n as int),
            same_behind(before, output@, m * n),
            forall|r: int, c: int|
                0 <= r < row && 0 <= c < n ==> accumulated(
                    *step,
                    a@,
                    b@,
                    k as int,
                    n as int,
                    r,
                    c,
                    k as int,
                    #[trigger] output@[cell(r, c, n as int)],
                ),
        decreases m - row,
    {
        let mut column: usize = 0;
        while column < n
            invariant
                step_is_total(*step),
                row < m,
                column <= n,
                shaped(a@, b@, output@, m as int, k as int, n as int),
                same_behind(before, output@, m * n),
                forall|r: int, c: int|
                    0 <= r < m && 0 <= c < n && (r < row || (r == row && c < column))
                        ==> accumulated(
                        *step,
                        a@,
                        b@,
                        k as int,
                        n as int,
                        r,
                        c,
                        k as int,
                        #[trigger] output@[cell(r, c, n as int)],
                    ),
            decreases n - column,
        {
            let sum: u32 = accumulate(step, a, b, (m, k, n), (row, column), 0, k, 0);
            write_cell(output, row, column, m, n, sum);
            column += 1;
        }
        row += 1;
    }
}

/// Parts an input into `A` and the `B` that follows it.
pub fn split_operands(input: &[u32], m: u32, k: u32, n: u32) -> (operands: (&[u32], &[u32]))
    requires
        m * k + k * n == input@.len(),
    ensures
        operands.0@ == input@.take(m * k),
        operands.1@ == input@.skip(m * k),
        operands.0@.len() == m * k,
        operands.1@.len() == k * n,
{
    proof {
        assert(0 <= m * k && 0 <= k * n) by (nonlinear_arith)
            requires
                0 <= m,
                0 <= k,
                0 <= n,
        ;
        assert(input.len() == input@.len());
    }
    let elements: usize = m as usize * k as usize;
    let a: &[u32] = &input[0..elements];
    let b: &[u32] = &input[elements..input.len()];
    assert(a@ =~= input@.take(m * k));
    assert(b@ =~= input@.skip(m * k));
    (a, b)
}

} // verus!
