//! Compiled plans: a validated record stream grouped into segments.
//!
//! Compilation validates the records once, follows the value count from record
//! to record, extracts operands, and fuses neighbouring built-in records into
//! one segment. Execution then needs no parsing.
use crate::bytes::{get_u16, get_u32};
use crate::bytes::{u16_at, u32_at};
use crate::ops::{
    ExecuteError, ADD_SCALAR_OPCODE, COPY_OPCODE, OPERATION_BYTES, PLUGIN_MATMUL_ACT_OPCODE,
    PLUGIN_MATMUL_OPCODE, PLUGIN_OPCODE,
};
use crate::ops::{opcode_of, operand_of, plugin_of};
use vstd::prelude::*;

verus! {

/// Maximum built-in additions fused into one segment; longer runs become
/// several consecutive segments.
pub const MAX_FUSED_OPERATIONS: usize = 64;

/// Maximum segments in a compiled plan.
pub const MAX_PLAN_SEGMENTS: usize = 16;

/// One link of a plan: what a single record asks for.
#[derive(Clone, Copy, Debug, PartialEq, Eq, Structural)]
#[allow(inconsistent_fields)]
pub enum Step {
    Copy,
    AddScalar { value: u32 },
    Elementwise { index: u16 },
    Matmul { index: u16, m: u32, k: u32, n: u32 },
    MatmulAct { index: u16, m: u16, k: u16, n: u16, activation: u16 },
}

impl Step {
    /// The values that the step consumes, where `length` are there. A matmul
    /// reads `A` and `B` one after the other.
    pub open spec fn consumes(self, length: int) -> int {
        match self {
            Step::Matmul { m, k, n, .. } => m * k + k * n,
            Step::MatmulAct { m, k, n, .. } => m * k + k * n,
            _ => length,
        }
    }

    /// The values that the step leaves, where `length` were there.
    pub open spec fn produces(self, length: int) -> int {
        match self {
            Step::Matmul { m, n, .. } => m * n,
            Step::MatmulAct { m, n, .. } => m * n,
            _ => length,
        }
    }
}

/// The step that record `index` encodes.
pub open spec fn step_of(records: Seq<u8>, index: int) -> Step {
    let at = 16 * index;
    let opcode = opcode_of(records, index);
    let plugin = plugin_of(records, index);
    if opcode == COPY_OPCODE {
        Step::Copy
    } else if opcode == ADD_SCALAR_OPCODE {
        Step::AddScalar { value: operand_of(records, index) }
    } else if opcode == PLUGIN_OPCODE {
        Step::Elementwise { index: plugin }
    } else if opcode == PLUGIN_MATMUL_OPCODE {
        Step::Matmul {
            index: plugin,
            m: u32_at(records, at + 4),
            k: u32_at(records, at + 8),
            n: u32_at(records, at + 12),
        }
    } else {
        Step::MatmulAct {
            index: plugin,
            m: u16_at(records, at + 4),
            k: u16_at(records, at + 6),
            n: u16_at(records, at + 8),
            activation: u16_at(records, at + 10),
        }
    }
}

/// The steps of a record stream, in order.
pub open spec fn steps_of(records: Seq<u8>) -> Seq<Step> {
    Seq::new(records.len() / 16, |i: int| step_of(records, i))
}

/// What is wrong with record `index` of a plan where `length` values reach it,
/// if anything.
pub open spec fn link_fault(records: Seq<u8>, index: int, length: int) -> Option<ExecuteError> {
    let at = 16 * index;
    let opcode = opcode_of(records, index);
    let step = step_of(records, index);
    let name = index as usize;
    if opcode > PLUGIN_MATMUL_ACT_OPCODE {
        Some(ExecuteError::UnknownOpcode(name, opcode))
    } else if opcode <= PLUGIN_OPCODE && u32_at(records, at + 8) != u32_at(records, at + 12) {
        Some(ExecuteError::RecordLength(name))
    } else if opcode <= PLUGIN_OPCODE && u32_at(records, at + 8) != length {
        Some(ExecuteError::RecordChain(name))
    } else if opcode == PLUGIN_MATMUL_ACT_OPCODE && u32_at(records, at + 12) != 0 {
        Some(ExecuteError::RecordLength(name))
    } else if step.consumes(length) != length {
        Some(ExecuteError::RecordChain(name))
    } else if step.produces(length) > usize::MAX {
        Some(ExecuteError::RecordLength(name))
    } else {
        None
    }
}

/// One segment of a compiled plan: a fused run of additions, or one dispatch.
#[allow(inconsistent_fields)]
pub enum SegmentModel {
    Builtin { operands: Seq<u32> },
    Plugin { index: u16 },
    Matmul { index: u16, m: u32, k: u32, n: u32 },
    MatmulAct { index: u16, m: u16, k: u16, n: u16, activation: u16 },
}

impl SegmentModel {
    /// The values that the segment leaves, where `length` were there.
    pub open spec fn produces(self, length: int) -> int {
        match self {
            SegmentModel::Matmul { m, n, .. } => m * n,
            SegmentModel::MatmulAct { m, n, .. } => m * n,
            _ => length,
        }
    }
}

/// The values that are there after the first `count` segments.
pub open spec fn length_at(segments: Seq<SegmentModel>, input_length: int, count: int) -> int
    decreases count,
{
    if count <= 0 {
        input_length
    } else {
        segments[count - 1].produces(length_at(segments, input_length, count - 1))
    }
}

/// What a compiled plan holds: its segments, the values it starts from and
/// ends with, and the most values that are ever there at once.
pub struct PlanModel {
    pub segments: Seq<SegmentModel>,
    pub input_length: int,
    pub output_length: int,
    pub peak_length: int,
}

impl PlanModel {
    /// The plan ends with its output length, and never has more values than
    /// its peak.
    pub open spec fn lengths_hold(self) -> bool {
        &&& forall|i: int|
            0 <= i <= self.segments.len() ==> 0 <= #[trigger] length_at(
                self.segments,
                self.input_length,
                i,
            ) <= self.peak_length
        &&& length_at(self.segments, self.input_length, self.segments.len() as int)
            == self.output_length
    }
}

/// The last segment is a built-in run with room for another addition.
pub open spec fn run_is_open(segments: Seq<SegmentModel>) -> bool {
    segments.len() > 0 && match segments.last() {
        SegmentModel::Builtin { operands } => operands.len() < MAX_FUSED_OPERATIONS,
        _ => false,
    }
}

/// The segments with an open built-in run at the end.
pub open spec fn opened(segments: Seq<SegmentModel>) -> Seq<SegmentModel> {
    if run_is_open(segments) {
        segments
    } else {
        segments.push(SegmentModel::Builtin { operands: Seq::empty() })
    }
}

/// The segments after one more step.
pub open spec fn fused(segments: Seq<SegmentModel>, step: Step) -> Seq<SegmentModel> {
    match step {
        Step::Copy => opened(segments),
        Step::AddScalar { value } => {
            let base = opened(segments);
            base.drop_last().push(
                SegmentModel::Builtin { operands: base.last()->operands.push(value) },
            )
        },
        Step::Elementwise { index } => segments.push(SegmentModel::Plugin { index }),
        Step::Matmul { index, m, k, n } => segments.push(
            SegmentModel::Matmul { index, m, k, n },
        ),
        Step::MatmulAct { index, m, k, n, activation } => segments.push(
            SegmentModel::MatmulAct { index, m, k, n, activation },
        ),
    }
}

/// What compiling the first `count` records gives.
pub open spec fn compiled(records: Seq<u8>, input_length: int, count: int) -> Result<
    PlanModel,
    ExecuteError,
>
    decreases count,
{
    if count <= 0 {
        Ok(
            PlanModel {
                segments: Seq::empty(),
                input_length,
                output_length: input_length,
                peak_length: input_length,
            },
        )
    } else {
        match compiled(records, input_length, count - 1) {
            Err(error) => Err(error),
            Ok(model) => extended(records, model, count - 1),
        }
    }
}

/// The plan with record `index` added.
pub open spec fn extended(records: Seq<u8>, model: PlanModel, index: int) -> Result<
    PlanModel,
    ExecuteError,
> {
    let step = step_of(records, index);
    let segments = fused(model.segments, step);
    let length = step.produces(model.output_length);
    match link_fault(records, index, model.output_length) {
        Some(error) => Err(error),
        None => if segments.len() > MAX_PLAN_SEGMENTS {
            Err(ExecuteError::PlanSegments)
        } else {
            Ok(
                PlanModel {
                    segments,
                    input_length: model.input_length,
                    output_length: length,
                    peak_length: if length > model.peak_length {
                        length
                    } else {
                        model.peak_length
                    },
                },
            )
        },
    }
}

/// What compiling a whole record stream gives.
pub open spec fn compilation(records: Seq<u8>, input_length: int) -> Result<
    PlanModel,
    ExecuteError,
> {
    if records.len() % 16 != 0 {
        Err(ExecuteError::RecordAlignment(OPERATION_BYTES))
    } else {
        compiled(records, input_length, records.len() as int / 16)
    }
}

/// A segment of fixed capacity.
#[derive(Clone, Copy)]
#[allow(inconsistent_fields)]
pub enum PlanSegment {
    Builtin { operands: [u32; MAX_FUSED_OPERATIONS], count: usize },
    Plugin { index: u16 },
    Matmul { index: u16, m: u32, k: u32, n: u32 },
    MatmulAct { index: u16, m: u16, k: u16, n: u16, activation: u16 },
}

impl PlanSegment {
    /// The operand count is within the capacity.
    pub open spec fn well_formed(self) -> bool {
        self matches PlanSegment::Builtin { count, .. } ==> count <= MAX_FUSED_OPERATIONS
    }

    /// What the segment holds.
    pub open spec fn model(self) -> SegmentModel {
        match self {
            PlanSegment::Builtin { operands, count } => SegmentModel::Builtin {
                operands: operands@.take(count as int),
            },
            PlanSegment::Plugin { index } => SegmentModel::Plugin { index },
            PlanSegment::Matmul { index, m, k, n } => SegmentModel::Matmul { index, m, k, n },
            PlanSegment::MatmulAct { index, m, k, n, activation } => SegmentModel::MatmulAct {
                index,
                m,
                k,
                n,
                activation,
            },
        }
    }

    /// A built-in run without additions.
    fn empty() -> (segment: Self)
        ensures
            segment.well_formed(),
            segment.model() == (SegmentModel::Builtin { operands: Seq::empty() }),
    {
        let segment = PlanSegment::Builtin { operands: [0;MAX_FUSED_OPERATIONS], count: 0 };
        assert(segment.model()->operands =~= Seq::<u32>::empty());
        segment
    }
}

/// A pre-digested operation plan of fixed capacity.
pub struct CompiledPlan {
    segments: [PlanSegment; MAX_PLAN_SEGMENTS],
    segment_count: usize,
    input_length: usize,
    output_length: usize,
    peak_length: usize,
}

impl CompiledPlan {
    /// The counts are within the capacities.
    spec fn in_capacity(&self) -> bool {
        &&& self.segment_count <= MAX_PLAN_SEGMENTS
        &&& forall|i: int|
            0 <= i < self.segment_count ==> (#[trigger] self.segments@[i]).well_formed()
    }

    /// The counts are within the capacities and the lengths follow from the
    /// segments.
    pub closed spec fn well_formed(&self) -> bool {
        self.in_capacity() && self.model().lengths_hold()
    }

    /// What the plan holds.
    pub closed spec fn model(&self) -> PlanModel {
        PlanModel {
            segments: Seq::new(
                self.segment_count as nat,
                |i: int| self.segments@[i].model(),
            ),
            input_length: self.input_length as int,
            output_length: self.output_length as int,
            peak_length: self.peak_length as int,
        }
    }

    /// A plan without segments.
    fn empty(input_length: usize) -> (plan: Self)
        ensures
            plan.in_capacity(),
            plan.model() == (PlanModel {
                segments: Seq::empty(),
                input_length: input_length as int,
                output_length: input_length as int,
                peak_length: input_length as int,
            }),
    {
        let plan = CompiledPlan {
            segments: [PlanSegment::empty();MAX_PLAN_SEGMENTS],
            segment_count: 0,
            input_length,
            output_length: input_length,
            peak_length: input_length,
        };
        assert(plan.model().segments =~= Seq::<SegmentModel>::empty());
        plan
    }

    /// Appends a segment, if there is room.
    fn push(&mut self, segment: PlanSegment) -> (result: Result<(), ExecuteError>)
        requires
            old(self).in_capacity(),
            segment.well_formed(),
        ensures
            final(self).in_capacity(),
            old(self).model().segments.len() < MAX_PLAN_SEGMENTS ==> {
                &&& result is Ok
                &&& final(self).model() == (PlanModel {
                    segments: old(self).model().segments.push(segment.model()),
                    ..old(self).model()
                })
            },
            old(self).model().segments.len() >= MAX_PLAN_SEGMENTS ==> {
                &&& result == Err::<(), _>(ExecuteError::PlanSegments)
                &&& *final(self) == *old(self)
            },
    {
        if self.segment_count == MAX_PLAN_SEGMENTS {
            return Err(ExecuteError::PlanSegments);
        }
        self.segments[self.segment_count] = segment;
        self.segment_count += 1;
        assert(self.model().segments =~= old(self).model().segments.push(segment.model()));
        Ok(())
    }

    /// The segments, in order.
    pub fn segments(&self) -> (segments: &[PlanSegment])
        requires
            self.well_formed(),
        ensures
            segments@.len() == self.model().segments.len(),
            segments@.len() <= MAX_PLAN_SEGMENTS,
            forall|i: int|
                0 <= i < segments@.len() ==> (#[trigger] segments@[i]).well_formed()
                    && segments@[i].model() == self.model().segments[i],
    {
        &self.segments[0..self.segment_count]
    }

    /// The lengths that a well-formed plan states follow from its segments.
    pub proof fn lengths_follow(&self)
        requires
            self.well_formed(),
        ensures
            self.model().lengths_hold(),
            self.model().segments.len() <= MAX_PLAN_SEGMENTS,
    {
    }

    /// The values that the plan starts from.
    pub fn input_length(&self) -> (length: usize)
        ensures
            length == self.model().input_length,
    {
        self.input_length
    }

    /// The values that the plan ends with.
    pub fn output_length(&self) -> (length: usize)
        ensures
            length == self.model().output_length,
    {
        self.output_length
    }

    /// The most values that are there at once while the plan runs.
    pub fn peak_length(&self) -> (length: usize)
        ensures
            length == self.model().peak_length,
    {
        self.peak_length
    }

    /// Whether the last segment is a built-in run with room for an addition.
    fn has_open_run(&self) -> (open: bool)
        requires
            self.in_capacity(),
        ensures
            open == run_is_open(self.model().segments),
    {
        if self.segment_count == 0 {
            return false;
        }
        assert(self.model().segments.last() == self.segments@[self.segment_count - 1].model());
        match self.segments[self.segment_count - 1] {
            PlanSegment::Builtin { count, .. } => count < MAX_FUSED_OPERATIONS,
            _ => false,
        }
    }

    /// Opens a built-in run at the end, if none is open.
    fn open_run(&mut self) -> (result: Result<(), ExecuteError>)
        requires
            old(self).in_capacity(),
        ensures
            final(self).in_capacity(),
            opened(old(self).model().segments).len() <= MAX_PLAN_SEGMENTS ==> {
                &&& result is Ok
                &&& final(self).model() == (PlanModel {
                    segments: opened(old(self).model().segments),
                    ..old(self).model()
                })
                &&& run_is_open(final(self).model().segments)
            },
            opened(old(self).model().segments).len() > MAX_PLAN_SEGMENTS ==> result == Err::<
                (),
                _,
            >(ExecuteError::PlanSegments),
    {
        if self.has_open_run() {
            return Ok(());
        }
        self.push(PlanSegment::empty())
    }

    /// Adds an addition to the open run at the end.
    fn add_operand(&mut self, value: u32)
        requires
            old(self).in_capacity(),
            run_is_open(old(self).model().segments),
        ensures
            final(self).in_capacity(),
            final(self).model() == (PlanModel {
                segments: old(self).model().segments.drop_last().push(
                    SegmentModel::Builtin {
                        operands: old(self).model().segments.last()->operands.push(value),
                    },
                ),
                ..old(self).model()
            }),
    {
        let last: usize = self.segment_count - 1;
        let ghost before = self.model().segments;
        assert(before.last() == self.segments@[last as int].model());
        if let PlanSegment::Builtin { operands, count } = self.segments[last] {
            let mut operands: [u32; MAX_FUSED_OPERATIONS] = operands;
            let ghost held = operands@.take(count as int);
            operands[count] = value;
            self.segments[last] = PlanSegment::Builtin { operands, count: count + 1 };
            assert(operands@.take(count + 1) =~= held.push(value));
        }
        assert(self.model().segments =~= before.drop_last().push(
            SegmentModel::Builtin { operands: before.last()->operands.push(value) },
        ));
    }

    /// Appends the segment, or the addition, of one step.
    fn fuse(&mut self, step: Step) -> (result: Result<(), ExecuteError>)
        requires
            old(self).in_capacity(),
        ensures
            final(self).in_capacity(),
            fused(old(self).model().segments, step).len() <= MAX_PLAN_SEGMENTS ==> {
                &&& result is Ok
                &&& final(self).model() == (PlanModel {
                    segments: fused(old(self).model().segments, step),
                    ..old(self).model()
                })
            },
            fused(old(self).model().segments, step).len() > MAX_PLAN_SEGMENTS ==> result == Err::<
                (),
                _,
            >(ExecuteError::PlanSegments),
    {
        match step {
            Step::Copy => self.open_run(),
            Step::AddScalar { value } => {
                match self.open_run() {
                    Ok(()) => {},
                    Err(error) => return Err(error),
                }
                self.add_operand(value);
                Ok(())
            },
            Step::Elementwise { index } => self.push(PlanSegment::Plugin { index }),
            Step::Matmul { index, m, k, n } => self.push(PlanSegment::Matmul { index, m, k, n }),
            Step::MatmulAct { index, m, k, n, activation } => self.push(
                PlanSegment::MatmulAct { index, m, k, n, activation },
            ),
        }
    }
}

/// The product of two dimensions.
proof fn product_bound(rows: u32, columns: u32)
    ensures
        0 <= rows * columns <= 0xffff_fffe_0000_0001,
{
    assert(0 <= rows * columns <= 0xffff_fffe_0000_0001) by (nonlinear_arith);
}

/// The values that a matmul consumes and leaves.
pub fn matmul_lengths(m: u32, k: u32, n: u32) -> (lengths: (u128, u64))
    ensures
        lengths.0 == m * k + k * n,
        lengths.1 == m * n,
{
    proof {
        product_bound(m, k);
        product_bound(k, n);
        product_bound(m, n);
    }
    let first: u64 = m as u64 * k as u64;
    let second: u64 = k as u64 * n as u64;
    (first as u128 + second as u128, m as u64 * n as u64)
}

/// Decodes record `index` and checks that it accepts `length` values; gives
/// the step and the values that it leaves.
pub fn decode_link(records: &[u8], index: usize, length: usize) -> (result: Result<
    (Step, usize),
    ExecuteError,
>)
    requires
        16 * index + 16 <= records@.len(),
    ensures
        match link_fault(records@, index as int, length as int) {
            Some(error) => result == Err::<(Step, usize), _>(error),
            None => result matches Ok((step, next)) && step == step_of(records@, index as int)
                && next == step.produces(length as int),
        },
{
    assert(records.len() == records@.len());
    let at: usize = 16 * index;
    let opcode: u16 = get_u16(records, at);
    if opcode > PLUGIN_MATMUL_ACT_OPCODE {
        return Err(ExecuteError::UnknownOpcode(index, opcode));
    }
    let plugin: u16 = get_u16(records, at + 2);
    if opcode <= PLUGIN_OPCODE {
        let record_length: u32 = get_u32(records, at + 8);
        let output_length: u32 = get_u32(records, at + 12);
        if record_length != output_length {
            return Err(ExecuteError::RecordLength(index));
        }
        if record_length as usize != length {
            return Err(ExecuteError::RecordChain(index));
        }
        let step = if opcode == COPY_OPCODE {
            Step::Copy
        } else if opcode == ADD_SCALAR_OPCODE {
            Step::AddScalar { value: get_u32(records, at + 4) }
        } else {
            Step::Elementwise { index: plugin }
        };
        return Ok((step, length));
    }
    let (step, m, k, n): (Step, u32, u32, u32) = if opcode == PLUGIN_MATMUL_OPCODE {
        let m: u32 = get_u32(records, at + 4);
        let k: u32 = get_u32(records, at + 8);
        let n: u32 = get_u32(records, at + 12);
        (Step::Matmul { index: plugin, m, k, n }, m, k, n)
    } else {
        if get_u32(records, at + 12) != 0 {
            return Err(ExecuteError::RecordLength(index));
        }
        let m: u16 = get_u16(records, at + 4);
        let k: u16 = get_u16(records, at + 6);
        let n: u16 = get_u16(records, at + 8);
        let activation: u16 = get_u16(records, at + 10);
        (
            Step::MatmulAct { index: plugin, m, k, n, activation },
            m as u32,
            k as u32,
            n as u32,
        )
    };
    let (consumed, produced): (u128, u64) = matmul_lengths(m, k, n);
    if consumed != length as u128 {
        return Err(ExecuteError::RecordChain(index));
    }
    if produced > usize::MAX as u64 {
        return Err(ExecuteError::RecordLength(index));
    }
    Ok((step, produced as usize))
}

/// A common front of two plans has the same lengths.
proof fn front_lengths_agree(
    first: Seq<SegmentModel>,
    second: Seq<SegmentModel>,
    input_length: int,
    count: int,
)
    requires
        0 <= count <= first.len(),
        count <= second.len(),
        forall|i: int| 0 <= i < count ==> first[i] == second[i],
    ensures
        length_at(first, input_length, count) == length_at(second, input_length, count),
    decreases count,
{
    if count > 0 {
        front_lengths_agree(first, second, input_length, count - 1);
    }
}

/// Compiled plans have the lengths that their segments give.
proof fn compiled_lengths_hold(records: Seq<u8>, input_length: int, count: int)
    requires
        0 <= input_length,
        compiled(records, input_length, count) is Ok,
    ensures
        compiled(records, input_length, count)->Ok_0.lengths_hold(),
        compiled(records, input_length, count)->Ok_0.input_length == input_length,
    decreases count,
{
    let model = compiled(records, input_length, count)->Ok_0;
    if count > 0 {
        compiled_lengths_hold(records, input_length, count - 1);
        let before = compiled(records, input_length, count - 1)->Ok_0;
        let step = step_of(records, count - 1);
        let old_count = before.segments.len() as int;
        let new_count = model.segments.len() as int;
        match step {
            Step::Matmul { m, k, n, .. } => {
                product_bound(m, n);
            },
            Step::MatmulAct { m, k, n, .. } => {
                product_bound(m as u32, n as u32);
            },
            _ => {},
        }
        if new_count == old_count {
            let base = old_count - 1;
            front_lengths_agree(before.segments, model.segments, input_length, base);
            assert(length_at(before.segments, input_length, old_count) == length_at(
                before.segments,
                input_length,
                base,
            ));
            assert(length_at(model.segments, input_length, new_count) == length_at(
                model.segments,
                input_length,
                base,
            ));
        } else {
            front_lengths_agree(before.segments, model.segments, input_length, old_count);
        }
        assert forall|i: int| 0 <= i <= new_count implies 0 <= #[trigger] length_at(
            model.segments,
            input_length,
            i,
        ) <= model.peak_length by {
            if i < new_count {
                front_lengths_agree(before.segments, model.segments, input_length, i);
                assert(0 <= length_at(before.segments, input_length, i) <= before.peak_length);
            } else {
                assert(0 <= length_at(before.segments, input_length, old_count)
                    <= before.peak_length);
            }
        }
    }
}

/// An error in a prefix of the records is the error of the whole.
proof fn early_error_stays(records: Seq<u8>, input_length: int, early: int, late: int)
    requires
        0 <= early <= late,
        compiled(records, input_length, early) is Err,
    ensures
        compiled(records, input_length, late) == compiled(records, input_length, early),
    decreases late,
{
    if early < late {
        early_error_stays(records, input_length, early, late - 1);
    }
}

/// Validates and compiles a record stream. All parsing, validation, and operand
/// extraction happens here, once.
pub fn compile_plan(records: &[u8], input_length: usize) -> (result: Result<
    CompiledPlan,
    ExecuteError,
>)
    ensures
        match compilation(records@, input_length as int) {
            Err(error) => result is Err && result->Err_0 == error,
            Ok(model) => result matches Ok(plan) && plan.well_formed() && plan.model() == model,
        },
{
    if records.len() % OPERATION_BYTES != 0 {
        return Err(ExecuteError::RecordAlignment(OPERATION_BYTES));
    }
    let count: usize = records.len() / OPERATION_BYTES;
    let mut plan = CompiledPlan::empty(input_length);
    let mut index: usize = 0;
    while index < count
        invariant
            index <= count,
            records@.len() == 16 * count,
            plan.in_capacity(),
            compiled(records@, input_length as int, index as int) == Ok::<_, ExecuteError>(
                plan.model(),
            ),
        decreases count - index,
    {
        let ghost before = plan.model();
        let ghost next_model = compiled(records@, input_length as int, index + 1);
        assert(next_model == extended(records@, before, index as int));
        let (step, next): (Step, usize) = match decode_link(records, index, plan.output_length) {
            Ok(link) => link,
            Err(error) => {
                proof {
                    early_error_stays(records@, input_length as int, index + 1, count as int);
                }
                return Err(error);
            },
        };
        match plan.fuse(step) {
            Ok(()) => {},
            Err(error) => {
                proof {
                    early_error_stays(records@, input_length as int, index + 1, count as int);
                }
                return Err(error);
            },
        }
        plan.output_length = next;
        if next > plan.peak_length {
            plan.peak_length = next;
        }
        assert(plan.model().segments =~= fused(before.segments, step));
        index += 1;
    }
    proof {
        compiled_lengths_hold(records@, input_length as int, count as int);
    }
    Ok(plan)
}

} // verus!
