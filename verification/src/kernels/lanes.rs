//! Eight values side by side, the unit of the vector kernels.
use crate::kernels::matmul::{cell, clamp_is_total, same_behind, step_is_total};
use crate::kernels::matmul::{read_cell, write_cell};
use vstd::prelude::*;

verus! {

/// Values per vector.
pub const LANES: usize = 8;

/// Eight values.
pub type Lanes = [u32; LANES];

/// Eight neighbouring entries of a row.
pub fn load(values: &[u32], row: usize, column: usize, height: usize, width: usize) -> (lanes: Lanes)
    requires
        row < height,
        column + 8 <= width,
        height * width <= values@.len(),
    ensures
        forall|l: int|
            0 <= l < 8 ==> #[trigger] lanes@[l] == values@[cell(
                row as int,
                column + l,
                width as int,
            )],
{
    let mut lanes: Lanes = [0;LANES];
    let mut lane: usize = 0;
    while lane < 8
        invariant
            lane <= 8,
            row < height,
            column + 8 <= width,
            height * width <= values@.len(),
            forall|l: int|
                0 <= l < lane ==> #[trigger] lanes@[l] == values@[cell(
                    row as int,
                    column + l,
                    width as int,
                )],
        decreases 8 - lane,
    {
        lanes[lane] = read_cell(values, row, column + lane, height, width);
        lane += 1;
    }
    lanes
}

/// Overwrites eight neighbouring entries of a row.
pub fn store(
    values: &mut [u32],
    row: usize,
    column: usize,
    height: usize,
    width: usize,
    lanes: &Lanes,
)
    requires
        row < height,
        column + 8 <= width,
        height * width <= old(values)@.len(),
    ensures
        same_behind(old(values)@, final(values)@, height * width),
        forall|r: int, c: int|
            0 <= r < height && 0 <= c < width ==> #[trigger] final(values)@[cell(
                r,
                c,
                width as int,
            )] == (if r == row && column <= c < column + 8 {
                lanes@[c - column]
            } else {
                old(values)@[cell(r, c, width as int)]
            }),
{
    let mut lane: usize = 0;
    let ghost before = values@;
    while lane < 8
        invariant
            lane <= 8,
            row < height,
            column + 8 <= width,
            height * width <= values@.len(),
            same_behind(before, values@, height * width),
            forall|r: int, c: int|
                0 <= r < height && 0 <= c < width ==> #[trigger] values@[cell(
                    r,
                    c,
                    width as int,
                )] == (if r == row && column <= c < column + lane {
                    lanes@[c - column]
                } else {
                    before[cell(r, c, width as int)]
                }),
        decreases 8 - lane,
    {
        write_cell(values, row, column + lane, height, width, lanes[lane]);
        lane += 1;
    }
}

/// One multiply-accumulate step in every lane, with one value of `A`.
pub fn multiply_add<F: Fn(u32, u32, u32) -> u32>(
    fused: &F,
    left: u32,
    right: &Lanes,
    sums: &Lanes,
) -> (result: Lanes)
    requires
        step_is_total(*fused),
    ensures
        forall|l: int|
            0 <= l < 8 ==> call_ensures(*fused, (left, right@[l], sums@[l]), #[trigger] result@[l]),
{
    let mut result: Lanes = [0;LANES];
    let mut lane: usize = 0;
    while lane < 8
        invariant
            lane <= 8,
            step_is_total(*fused),
            forall|l: int|
                0 <= l < lane ==> call_ensures(
                    *fused,
                    (left, right@[l], sums@[l]),
                    #[trigger] result@[l],
                ),
        decreases 8 - lane,
    {
        let value: u32 = fused(left, right[lane], sums[lane]);
        result[lane] = value;
        lane += 1;
    }
    result
}

/// `clamp` in every lane.
pub fn clamp_lanes<C: Fn(u32) -> u32>(clamp: &C, lanes: &Lanes) -> (result: Lanes)
    requires
        clamp_is_total(*clamp),
    ensures
        forall|l: int| 0 <= l < 8 ==> call_ensures(*clamp, (lanes@[l],), #[trigger] result@[l]),
{
    let mut result: Lanes = [0;LANES];
    let mut lane: usize = 0;
    while lane < 8
        invariant
            lane <= 8,
            clamp_is_total(*clamp),
            forall|l: int|
                0 <= l < lane ==> call_ensures(*clamp, (lanes@[l],), #[trigger] result@[l]),
        decreases 8 - lane,
    {
        let value: u32 = clamp(lanes[lane]);
        result[lane] = value;
        lane += 1;
    }
    result
}

} // verus!
