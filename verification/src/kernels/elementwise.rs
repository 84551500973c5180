//! One function on every value of a stretch.
use crate::kernels::matmul::clamp_is_total;
use vstd::prelude::*;

verus! {

/// From `start` to `end`, every value of `after` is what `function` may make
/// of the value at the same place in `input`; elsewhere `after` is `before`.
pub open spec fn mapped_range<C: Fn(u32) -> u32>(
    function: C,
    input: Seq<u32>,
    before: Seq<u32>,
    after: Seq<u32>,
    start: int,
    end: int,
) -> bool {
    &&& after.len() == before.len()
    &&& forall|i: int|
        start <= i < end ==> call_ensures(function, (input[i],), #[trigger] after[i])
    &&& forall|i: int|
        0 <= i < before.len() && !(start <= i < end) ==> #[trigger] after[i] == before[i]
}

/// Applies `function` from `start` to `end`.
pub fn map_range<C: Fn(u32) -> u32>(
    input: &[u32],
    output: &mut [u32],
    function: &C,
    start: usize,
    end: usize,
)
    requires
        clamp_is_total(*function),
        start <= end <= input@.len(),
        end <= old(output)@.len(),
    ensures
        mapped_range(
            *function,
            input@,
            old(output)@,
            final(output)@,
            start as int,
            end as int,
        ),
{
    let ghost before = output@;
    let mut index: usize = start;
    while index < end
        invariant
            clamp_is_total(*function),
            start <= index <= end <= input@.len(),
            end <= output@.len(),
            mapped_range(*function, input@, before, output@, start as int, index as int),
        decreases end - index,
    {
        let value: u32 = function(input[index]);
        output[index] = value;
        index += 1;
    }
}

} // verus!
