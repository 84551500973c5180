//! Register-blocked pieces of a matrix product.
//!
//! A product is built in blocks: a block covers some rows and columns and a
//! stretch of the inner dimension. Columns up to the last multiple of eight
//! are computed with the fused step, eight lanes at a time; the few columns
//! behind them with the separate step. The order of steps per entry is always
//! ascending, so blocking changes no entry.
use crate::kernels::lanes::{clamp_lanes, load, multiply_add, store, Lanes, LANES};
use crate::kernels::matmul::{accumulate, read_cell, write_cell};
use crate::kernels::matmul::{
    accumulated, cell, clamp_is_total, one_step_more, same_behind, step_is_total,
};
use vstd::prelude::*;

verus! {

/// `value` is the sum of the first `count` steps of an entry: fused steps in
/// the vector columns, separate steps behind them.
pub open spec fn mixed_entry<F: Fn(u32, u32, u32) -> u32, S: Fn(u32, u32, u32) -> u32>(
    fused: F,
    separate: S,
    a: Seq<u32>,
    b: Seq<u32>,
    k: int,
    n: int,
    row: int,
    column: int,
    count: int,
    value: u32,
) -> bool {
    if column < n / 8 * 8 {
        accumulated(fused, a, b, k, n, row, column, count, value)
    } else {
        accumulated(separate, a, b, k, n, row, column, count, value)
    }
}

/// Columns per panel; one panel of `B` stays cache-resident.
pub const COLUMN_PANEL: usize = 64;

/// Inner dimension per block; a panel's slice of `B` stays cache-resident
/// across row blocks.
pub const K_BLOCK: usize = 64;

/// Where the stretch of at most `length` that begins at `start` ends.
pub fn stretch_end(start: usize, limit: usize, length: usize) -> (end: usize)
    requires
        start < limit,
    ensures
        end == (if start + length < limit {
            start + length
        } else {
            limit as int
        }),
{
    if limit - start > length {
        start + length
    } else {
        limit
    }
}

/// On every step of the reference sum of an entry, the fused step and the
/// separate step both have one outcome, and it is the same.
pub open spec fn steps_agree<F: Fn(u32, u32, u32) -> u32, S: Fn(u32, u32, u32) -> u32>(
    fused: F,
    separate: S,
    a: Seq<u32>,
    b: Seq<u32>,
    k: int,
    n: int,
    row: int,
    column: int,
) -> bool {
    &&& forall|i: int, partial: u32, first: u32, second: u32|
        0 <= i < k && accumulated(separate, a, b, k, n, row, column, i, partial)
            && #[trigger] step_outcome(fused, a, b, k, n, row, column, i, partial, first)
            && #[trigger] step_outcome(separate, a, b, k, n, row, column, i, partial, second)
            ==> first == second
    &&& forall|i: int, partial: u32, first: u32, second: u32|
        0 <= i < k && accumulated(separate, a, b, k, n, row, column, i, partial)
            && #[trigger] step_outcome(separate, a, b, k, n, row, column, i, partial, first)
            && #[trigger] step_outcome(separate, a, b, k, n, row, column, i, partial, second)
            ==> first == second
}

/// `value` is an outcome of step `i` of an entry on the sum `partial`.
pub open spec fn step_outcome<F: Fn(u32, u32, u32) -> u32>(
    step: F,
    a: Seq<u32>,
    b: Seq<u32>,
    k: int,
    n: int,
    row: int,
    column: int,
    i: int,
    partial: u32,
    value: u32,
) -> bool {
    call_ensures(step, (a[cell(row, i, k)], b[cell(i, column, n)], partial), value)
}

/// Where the steps agree, so do the sums.
proof fn sums_agree<F: Fn(u32, u32, u32) -> u32, S: Fn(u32, u32, u32) -> u32>(
    fused: F,
    separate: S,
    a: Seq<u32>,
    b: Seq<u32>,
    k: int,
    n: int,
    row: int,
    column: int,
    count: int,
    value: u32,
    reference: u32,
)
    requires
        0 <= count <= k,
        steps_agree(fused, separate, a, b, k, n, row, column),
        accumulated(separate, a, b, k, n, row, column, count, reference),
    ensures
        accumulated(fused, a, b, k, n, row, column, count, value) ==> value == reference,
        accumulated(separate, a, b, k, n, row, column, count, value) ==> value == reference,
    decreases count,
{
    if count > 0 {
        let i = count - 1;
        let before = choose|partial: u32|
            accumulated(separate, a, b, k, n, row, column, i, partial) && #[trigger] call_ensures(
                separate,
                (a[cell(row, i, k)], b[cell(i, column, n)], partial),
                reference,
            );
        assert(step_outcome(separate, a, b, k, n, row, column, i, before, reference));
        if accumulated(fused, a, b, k, n, row, column, count, value) {
            let partial = choose|partial: u32|
                accumulated(fused, a, b, k, n, row, column, i, partial) && #[trigger] call_ensures(
                    fused,
                    (a[cell(row, i, k)], b[cell(i, column, n)], partial),
                    value,
                );
            sums_agree(fused, separate, a, b, k, n, row, column, i, partial, before);
            assert(step_outcome(fused, a, b, k, n, row, column, i, before, value));
        }
        if accumulated(separate, a, b, k, n, row, column, count, value) {
            let partial = choose|partial: u32|
                accumulated(separate, a, b, k, n, row, column, i, partial)
                    && #[trigger] call_ensures(
                    separate,
                    (a[cell(row, i, k)], b[cell(i, column, n)], partial),
                    value,
                );
            sums_agree(fused, separate, a, b, k, n, row, column, i, partial, before);
            assert(step_outcome(separate, a, b, k, n, row, column, i, before, value));
        }
    }
}

/// Where no step of an entry depends on fusing, the register-blocked entry is
/// the entry of the scalar reference, bit by bit.
pub proof fn blocked_entries_match_the_reference<
    F: Fn(u32, u32, u32) -> u32,
    S: Fn(u32, u32, u32) -> u32,
>(
    fused: F,
    separate: S,
    a: Seq<u32>,
    b: Seq<u32>,
    k: int,
    n: int,
    row: int,
    column: int,
    value: u32,
    reference: u32,
)
    requires
        0 <= k,
        steps_agree(fused, separate, a, b, k, n, row, column),
        mixed_entry(fused, separate, a, b, k, n, row, column, k, value),
        accumulated(separate, a, b, k, n, row, column, k, reference),
    ensures
        value == reference,
{
    sums_agree(fused, separate, a, b, k, n, row, column, k, value, reference);
}

/// A product under construction: the operands, the arithmetic, and whether the
/// activation applies to finished entries (1) or not.
pub struct Product<
    'a,
    F: Fn(u32, u32, u32) -> u32,
    S: Fn(u32, u32, u32) -> u32,
    C: Fn(u32) -> u32,
> {
    pub a: &'a [u32],
    pub b: &'a [u32],
    pub m: usize,
    pub k: usize,
    pub n: usize,
    pub fused: &'a F,
    pub separate: &'a S,
    pub clamp: &'a C,
    pub activation: u32,
}

impl<
    'a,
    F: Fn(u32, u32, u32) -> u32,
    S: Fn(u32, u32, u32) -> u32,
    C: Fn(u32) -> u32,
> Product<'a, F, S, C> {
    /// The arithmetic is total and the operands have their shapes.
    pub open spec fn well_formed(&self) -> bool {
        &&& step_is_total(*self.fused)
        &&& step_is_total(*self.separate)
        &&& clamp_is_total(*self.clamp)
        &&& self.m > 0 && self.n > 0 ==> self.m * self.k <= self.a@.len() && self.k * self.n
            <= self.b@.len()
    }

    /// `value` is the sum of the first `count` steps of an entry.
    pub open spec fn entry(&self, row: int, column: int, count: int, value: u32) -> bool {
        mixed_entry(
            *self.fused,
            *self.separate,
            self.a@,
            self.b@,
            self.k as int,
            self.n as int,
            row,
            column,
            count,
            value,
        )
    }

    /// `value` is a finished entry, the activation included.
    pub open spec fn finished(&self, row: int, column: int, value: u32) -> bool {
        if self.activation == 1 {
            exists|sum: u32|
                self.entry(row, column, self.k as int, sum) && #[trigger] call_ensures(
                    *self.clamp,
                    (sum,),
                    value,
                )
        } else {
            self.entry(row, column, self.k as int, value)
        }
    }

    /// `value` is what an entry holds after `count` steps.
    pub open spec fn settled(&self, row: int, column: int, count: int, value: u32) -> bool {
        if count == self.k {
            self.finished(row, column, value)
        } else {
            self.entry(row, column, count, value)
        }
    }

    /// The entries of a block are after `count` steps, or nothing is known of
    /// them where no step was made.
    pub open spec fn ready(
        &self,
        output: Seq<u32>,
        rows: (int, int),
        columns: (int, int),
        count: int,
    ) -> bool {
        forall|r: int, c: int|
            rows.0 <= r < rows.1 && columns.0 <= c < columns.1 && count > 0 ==> self.entry(
                r,
                c,
                count,
                #[trigger] output[cell(r, c, self.n as int)],
            )
    }

    /// The entries of a block are settled after `count` steps.
    pub open spec fn block_settled(
        &self,
        output: Seq<u32>,
        rows: (int, int),
        columns: (int, int),
        count: int,
    ) -> bool {
        forall|r: int, c: int|
            rows.0 <= r < rows.1 && columns.0 <= c < columns.1 ==> self.settled(
                r,
                c,
                count,
                #[trigger] output[cell(r, c, self.n as int)],
            )
    }

    /// Only the entries of a block changed.
    pub open spec fn only_block(
        &self,
        before: Seq<u32>,
        after: Seq<u32>,
        rows: (int, int),
        columns: (int, int),
    ) -> bool {
        &&& same_behind(before, after, self.m * self.n)
        &&& forall|r: int, c: int|
            0 <= r < self.m && 0 <= c < self.n && !(rows.0 <= r < rows.1 && columns.0 <= c
                < columns.1) ==> #[trigger] after[cell(r, c, self.n as int)] == before[cell(
                r,
                c,
                self.n as int,
            )]
    }

    /// The lanes hold the sums of eight entries of a row after `count` steps.
    pub open spec fn lanes_hold(&self, row: int, column: int, count: int, lanes: Lanes) -> bool {
        forall|l: int|
            0 <= l < 8 ==> accumulated(
                *self.fused,
                self.a@,
                self.b@,
                self.k as int,
                self.n as int,
                row,
                column + l,
                count,
                #[trigger] lanes@[l],
            )
    }

    /// The lanes hold eight entries of a row, settled after `count` steps.
    pub open spec fn lanes_settled(&self, row: int, column: int, count: int, lanes: Lanes) -> bool {
        forall|l: int|
            0 <= l < 8 ==> self.settled(row, column + l, count, #[trigger] lanes@[l])
    }

    /// The sums of eight entries of a row: zeros before the first step, what
    /// the output holds after that.
    fn start_lanes(&self, output: &[u32], row: usize, column: usize, k0: usize) -> (lanes: Lanes)
        requires
            row < self.m,
            column % 8 == 0,
            column + 8 <= self.n,
            self.m * self.n <= output@.len(),
            self.ready(
                output@,
                (row as int, row + 1),
                (column as int, column + 8),
                k0 as int,
            ),
        ensures
            self.lanes_hold(row as int, column as int, k0 as int, lanes),
    {
        if k0 == 0 {
            return [0;LANES];
        }
        let lanes: Lanes = load(output, row, column, self.m, self.n);
        proof {
            assert forall|l: int| 0 <= l < 8 implies accumulated(
                *self.fused,
                self.a@,
                self.b@,
                self.k as int,
                self.n as int,
                row as int,
                column + l,
                k0 as int,
                #[trigger] lanes@[l],
            ) by {
                assert(self.entry(
                    row as int,
                    column + l,
                    k0 as int,
                    output@[cell(row as int, column + l, self.n as int)],
                ));
            }
        }
        lanes
    }

    /// One step of eight entries of a row, with the loaded row piece of `B`.
    fn advance(
        &self,
        row: usize,
        column: usize,
        inner: usize,
        right: &Lanes,
        sums: &Lanes,
    ) -> (result: Lanes)
        requires
            self.well_formed(),
            row < self.m,
            column + 8 <= self.n,
            inner < self.k,
            self.lanes_hold(row as int, column as int, inner as int, *sums),
            forall|l: int|
                0 <= l < 8 ==> #[trigger] right@[l] == self.b@[cell(
                    inner as int,
                    column + l,
                    self.n as int,
                )],
        ensures
            self.lanes_hold(row as int, column as int, inner + 1, result),
    {
        let left: u32 = read_cell(self.a, row, inner, self.m, self.k);
        let result: Lanes = multiply_add(self.fused, left, right, sums);
        proof {
            assert forall|l: int| 0 <= l < 8 implies accumulated(
                *self.fused,
                self.a@,
                self.b@,
                self.k as int,
                self.n as int,
                row as int,
                column + l,
                inner + 1,
                #[trigger] result@[l],
            ) by {
                assert(accumulated(
                    *self.fused,
                    self.a@,
                    self.b@,
                    self.k as int,
                    self.n as int,
                    row as int,
                    column + l,
                    inner as int,
                    sums@[l],
                ));
                one_step_more(
                    *self.fused,
                    self.a@,
                    self.b@,
                    self.k as int,
                    self.n as int,
                    row as int,
                    column + l,
                    inner as int,
                    sums@[l],
                    result@[l],
                );
            }
        }
        result
    }

    /// The activation of eight finished entries, where it applies.
    fn finish_lanes(&self, row: usize, column: usize, k1: usize, lanes: &Lanes) -> (result: Lanes)
        requires
            self.well_formed(),
            column % 8 == 0,
            column + 8 <= self.n,
            self.lanes_hold(row as int, column as int, k1 as int, *lanes),
        ensures
            self.lanes_settled(row as int, column as int, k1 as int, result),
    {
        proof {
            assert forall|l: int| 0 <= l < 8 implies self.entry(
                row as int,
                column + l,
                k1 as int,
                #[trigger] lanes@[l],
            ) by {
                assert(column + l < self.n as int / 8 * 8);
            }
        }
        if self.activation == 1 && k1 == self.k {
            let result: Lanes = clamp_lanes(self.clamp, lanes);
            proof {
                assert forall|l: int| 0 <= l < 8 implies self.settled(
                    row as int,
                    column + l,
                    k1 as int,
                    #[trigger] result@[l],
                ) by {
                    assert(self.entry(row as int, column + l, k1 as int, lanes@[l]));
                    assert(call_ensures(*self.clamp, (lanes@[l],), result@[l]));
                }
            }
            return result;
        }
        *lanes
    }

    /// Four rows by sixteen columns: eight accumulators, two row pieces of `B`
    /// and four values of `A` per step.
    pub fn block_4x16(
        &self,
        output: &mut [u32],
        row: usize,
        column: usize,
        k0: usize,
        k1: usize,
    )
        requires
            self.well_formed(),
            self.m * self.n <= old(output)@.len(),
            row + 4 <= self.m,
            column % 8 == 0,
            column + 16 <= self.n,
            k0 <= k1 <= self.k,
            self.ready(
                old(output)@,
                (row as int, row + 4),
                (column as int, column + 16),
                k0 as int,
            ),
        ensures
            self.block_settled(
                final(output)@,
                (row as int, row + 4),
                (column as int, column + 16),
                k1 as int,
            ),
            self.only_block(
                old(output)@,
                final(output)@,
                (row as int, row + 4),
                (column as int, column + 16),
            ),
    {
        let far: usize = column + 8;
        let mut c00: Lanes = self.start_lanes(output, row, column, k0);
        let mut c01: Lanes = self.start_lanes(output, row, far, k0);
        let mut c10: Lanes = self.start_lanes(output, row + 1, column, k0);
        let mut c11: Lanes = self.start_lanes(output, row + 1, far, k0);
        let mut c20: Lanes = self.start_lanes(output, row + 2, column, k0);
        let mut c21: Lanes = self.start_lanes(output, row + 2, far, k0);
        let mut c30: Lanes = self.start_lanes(output, row + 3, column, k0);
        let mut c31: Lanes = self.start_lanes(output, row + 3, far, k0);
        let mut inner: usize = k0;
        while inner < k1
            invariant
                self.well_formed(),
                row + 4 <= self.m,
                column + 16 <= self.n,
                far == column + 8,
                k0 <= inner <= k1 <= self.k,
                self.lanes_hold(row as int, column as int, inner as int, c00),
                self.lanes_hold(row as int, far as int, inner as int, c01),
                self.lanes_hold(row + 1, column as int, inner as int, c10),
                self.lanes_hold(row + 1, far as int, inner as int, c11),
                self.lanes_hold(row + 2, column as int, inner as int, c20),
                self.lanes_hold(row + 2, far as int, inner as int, c21),
                self.lanes_hold(row + 3, column as int, inner as int, c30),
                self.lanes_hold(row + 3, far as int, inner as int, c31),
            decreases k1 - inner,
        {
            let b0: Lanes = load(self.b, inner, column, self.k, self.n);
            let b1: Lanes = load(self.b, inner, far, self.k, self.n);
            c00 = self.advance(row, column, inner, &b0, &c00);
            c01 = self.advance(row, far, inner, &b1, &c01);
            c10 = self.advance(row + 1, column, inner, &b0, &c10);
            c11 = self.advance(row + 1, far, inner, &b1, &c11);
            c20 = self.advance(row + 2, column, inner, &b0, &c20);
            c21 = self.advance(row + 2, far, inner, &b1, &c21);
            c30 = self.advance(row + 3, column, inner, &b0, &c30);
            c31 = self.advance(row + 3, far, inner, &b1, &c31);
            inner += 1;
        }
        self.settle_lanes(output, row, column, k1, &c00);
        self.settle_lanes(output, row, far, k1, &c01);
        self.settle_lanes(output, row + 1, column, k1, &c10);
        self.settle_lanes(output, row + 1, far, k1, &c11);
        self.settle_lanes(output, row + 2, column, k1, &c20);
        self.settle_lanes(output, row + 2, far, k1, &c21);
        self.settle_lanes(output, row + 3, column, k1, &c30);
        self.settle_lanes(output, row + 3, far, k1, &c31);
    }

    /// Applies the activation where it applies and stores eight entries.
    fn settle_lanes(
        &self,
        output: &mut [u32],
        row: usize,
        column: usize,
        k1: usize,
        lanes: &Lanes,
    )
        requires
            self.well_formed(),
            self.m * self.n <= old(output)@.len(),
            row < self.m,
            column % 8 == 0,
            column + 8 <= self.n,
            self.lanes_hold(row as int, column as int, k1 as int, *lanes),
        ensures
            self.block_settled(
                final(output)@,
                (row as int, row + 1),
                (column as int, column + 8),
                k1 as int,
            ),
            self.only_block(
                old(output)@,
                final(output)@,
                (row as int, row + 1),
                (column as int, column + 8),
            ),
    {
        let result: Lanes = self.finish_lanes(row, column, k1, lanes);
        store(output, row, column, self.m, self.n, &result);
        proof {
            assert forall|r: int, c: int|
                row <= r < row + 1 && column <= c < column + 8 implies self.settled(
                r,
                c,
                k1 as int,
                #[trigger] output@[cell(r, c, self.n as int)],
            ) by {
                let l = c - column;
                assert(self.settled(row as int, column + l, k1 as int, result@[l]));
            }
        }
    }

    /// Four rows by eight columns.
    pub fn block_4x8(
        &self,
        output: &mut [u32],
        row: usize,
        column: usize,
        k0: usize,
        k1: usize,
    )
        requires
            self.well_formed(),
            self.m * self.n <= old(output)@.len(),
            row + 4 <= self.m,
            column % 8 == 0,
            column + 8 <= self.n,
            k0 <= k1 <= self.k,
            self.ready(
                old(output)@,
                (row as int, row + 4),
                (column as int, column + 8),
                k0 as int,
            ),
        ensures
            self.block_settled(
                final(output)@,
                (row as int, row + 4),
                (column as int, column + 8),
                k1 as int,
            ),
            self.only_block(
                old(output)@,
                final(output)@,
                (row as int, row + 4),
                (column as int, column + 8),
            ),
    {
        let mut c0: Lanes = self.start_lanes(output, row, column, k0);
        let mut c1: Lanes = self.start_lanes(output, row + 1, column, k0);
        let mut c2: Lanes = self.start_lanes(output, row + 2, column, k0);
        let mut c3: Lanes = self.start_lanes(output, row + 3, column, k0);
        let mut inner: usize = k0;
        while inner < k1
            invariant
                self.well_formed(),
                row + 4 <= self.m,
                column + 8 <= self.n,
                k0 <= inner <= k1 <= self.k,
                self.lanes_hold(row as int, column as int, inner as int, c0),
                self.lanes_hold(row + 1, column as int, inner as int, c1),
                self.lanes_hold(row + 2, column as int, inner as int, c2),
                self.lanes_hold(row + 3, column as int, inner as int, c3),
            decreases k1 - inner,
        {
            let b_row: Lanes = load(self.b, inner, column, self.k, self.n);
            c0 = self.advance(row, column, inner, &b_row, &c0);
            c1 = self.advance(row + 1, column, inner, &b_row, &c1);
            c2 = self.advance(row + 2, column, inner, &b_row, &c2);
            c3 = self.advance(row + 3, column, inner, &b_row, &c3);
            inner += 1;
        }
        self.settle_lanes(output, row, column, k1, &c0);
        self.settle_lanes(output, row + 1, column, k1, &c1);
        self.settle_lanes(output, row + 2, column, k1, &c2);
        self.settle_lanes(output, row + 3, column, k1, &c3);
    }

    /// One row by eight columns.
    pub fn block_1x8(
        &self,
        output: &mut [u32],
        row: usize,
        column: usize,
        k0: usize,
        k1: usize,
    )
        requires
            self.well_formed(),
            self.m * self.n <= old(output)@.len(),
            row < self.m,
            column % 8 == 0,
            column + 8 <= self.n,
            k0 <= k1 <= self.k,
            self.ready(
                old(output)@,
                (row as int, row + 1),
                (column as int, column + 8),
                k0 as int,
            ),
        ensures
            self.block_settled(
                final(output)@,
                (row as int, row + 1),
                (column as int, column + 8),
                k1 as int,
            ),
            self.only_block(
                old(output)@,
                final(output)@,
                (row as int, row + 1),
                (column as int, column + 8),
            ),
    {
        let mut c0: Lanes = self.start_lanes(output, row, column, k0);
        let mut inner: usize = k0;
        while inner < k1
            invariant
                self.well_formed(),
                row < self.m,
                column + 8 <= self.n,
                k0 <= inner <= k1 <= self.k,
                self.lanes_hold(row as int, column as int, inner as int, c0),
            decreases k1 - inner,
        {
            let b_row: Lanes = load(self.b, inner, column, self.k, self.n);
            c0 = self.advance(row, column, inner, &b_row, &c0);
            inner += 1;
        }
        self.settle_lanes(output, row, column, k1, &c0);
    }

    /// One entry behind the vector columns.
    pub fn block_1x1(
        &self,
        output: &mut [u32],
        row: usize,
        column: usize,
        k0: usize,
        k1: usize,
    )
        requires
            self.well_formed(),
            self.m * self.n <= old(output)@.len(),
            row < self.m,
            self.n as int / 8 * 8 <= column < self.n,
            k0 <= k1 <= self.k,
            self.ready(
                old(output)@,
                (row as int, row + 1),
                (column as int, column + 1),
                k0 as int,
            ),
        ensures
            self.block_settled(
                final(output)@,
                (row as int, row + 1),
                (column as int, column + 1),
                k1 as int,
            ),
            self.only_block(
                old(output)@,
                final(output)@,
                (row as int, row + 1),
                (column as int, column + 1),
            ),
    {
        let start: u32 = if k0 == 0 {
            0
        } else {
            read_cell(output, row, column, self.m, self.n)
        };
        assert(self.entry(row as int, column as int, k0 as int, start));
        let mut sum: u32 = accumulate(
            self.separate,
            self.a,
            self.b,
            (self.m, self.k, self.n),
            (row, column),
            k0,
            k1,
            start,
        );
        assert(self.entry(row as int, column as int, k1 as int, sum));
        if self.activation == 1 && k1 == self.k {
            let clamp = self.clamp;
            let ghost held = sum;
            sum = clamp(sum);
            assert(call_ensures(*self.clamp, (held,), sum));
        }
        assert(self.settled(row as int, column as int, k1 as int, sum));
        write_cell(output, row, column, self.m, self.n, sum);
    }
}

} // verus!
