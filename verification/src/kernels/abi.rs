//! The plain-value side of the kernel ABI, version 3.
//!
//! A kernel is handed a context of addresses and byte lengths. The address
//! zero stands for a null pointer. The memory behind the addresses reaches the
//! kernel as slices.
use crate::bytes::get_u32;
use crate::bytes::get_u64;
use crate::bytes::{u32_at, u64_at};
use vstd::prelude::*;

verus! {

pub const ABI_VERSION: u32 = 3;

pub const TYPE_F32: u16 = 1;

pub const TYPE_U64: u16 = 2;

pub const OPERATION_ELEMENTWISE: u16 = 1;

pub const OPERATION_MATMUL: u16 = 2;

pub const OPERATION_XOR_SHIFT_ADD: u16 = 3;

pub const OPERATION_MATMUL_ACT: u16 = 4;

pub const CPU_AVX2: u64 = 1;

pub const CPU_NEON: u64 = 2;

pub const CPU_FMA: u64 = 4;

pub const STATUS_OK: i32 = 0;

pub const STATUS_NULL_CONTEXT: i32 = 1;

pub const STATUS_NULL_BUFFER: i32 = 2;

pub const STATUS_LENGTH_OVERFLOW: i32 = 3;

pub const STATUS_LENGTH_MISMATCH: i32 = 4;

pub const STATUS_MISALIGNED: i32 = 5;

pub const STATUS_INVALID_PARAMS: i32 = 6;

pub const STATUS_INVALID_DIMENSIONS: i32 = 7;

pub const STATUS_OUTPUT_TOO_SMALL: i32 = 8;

/// Largest accepted shift of the xor-shift-add kernels.
pub const MAX_SHIFT: u32 = 63;

/// What a kernel is called with.
#[derive(Clone, Copy, Debug, PartialEq, Eq, Structural)]
pub struct KernelContext {
    pub input: u64,
    pub input_bytes: u64,
    pub output: u64,
    pub output_bytes: u64,
    pub params: u64,
    pub params_bytes: u64,
}

impl KernelContext {
    /// The slices show the memory that the context points at, buffers of
    /// `element` bytes per value.
    pub open spec fn shows(
        self,
        element: int,
        input_values: nat,
        output_values: nat,
        params: Seq<u8>,
    ) -> bool {
        &&& self.input != 0 ==> input_values == self.input_bytes as int / element
        &&& self.output != 0 ==> output_values == self.output_bytes as int / element
        &&& self.params != 0 ==> params.len() == self.params_bytes
    }
}

/// `output[i]` for `input[i] == value`: the xor of the value with itself
/// shifted left, plus `add`, modulo two to the 64th.
pub open spec fn xor_shift_add_value(value: u64, shift: u32, add: u64) -> u64 {
    (((value ^ (value << shift)) + add) % 0x1_0000_0000_0000_0000) as u64
}

/// The first values of `output` come from the values of `input` at the same
/// place, as far as both reach; the rest is as before.
pub open spec fn xor_shift_added(
    input: Seq<u64>,
    before: Seq<u64>,
    shift: u32,
    add: u64,
) -> Seq<u64> {
    Seq::new(
        before.len(),
        |i: int|
            if i < input.len() {
                xor_shift_add_value(input[i], shift, add)
            } else {
                before[i]
            },
    )
}

/// One value of the xor-shift-add kernels.
pub fn xor_shift_add_word(value: u64, shift: u32, add: u64) -> (result: u64)
    requires
        shift <= MAX_SHIFT,
    ensures
        result == xor_shift_add_value(value, shift, add),
{
    (value ^ (value << shift)).wrapping_add(add)
}

/// The status that an xor-shift-add kernel answers a call with.
pub open spec fn xor_shift_add_status(context: Option<KernelContext>, params: Seq<u8>) -> i32 {
    match context {
        None => STATUS_NULL_CONTEXT,
        Some(context) => if context.input == 0 || context.output == 0 {
            STATUS_NULL_BUFFER
        } else if context.params_bytes > usize::MAX {
            STATUS_LENGTH_OVERFLOW
        } else if context.params_bytes != 16 || context.params == 0 {
            STATUS_INVALID_PARAMS
        } else if u32_at(params, 0) > MAX_SHIFT || u32_at(params, 4) != 0 {
            STATUS_INVALID_PARAMS
        } else if context.input_bytes > usize::MAX || context.output_bytes > usize::MAX {
            STATUS_LENGTH_OVERFLOW
        } else if context.input_bytes != context.output_bytes || context.input_bytes % 8 != 0 {
            STATUS_LENGTH_MISMATCH
        } else if context.input % 8 != 0 || context.output % 8 != 0 {
            STATUS_MISALIGNED
        } else {
            STATUS_OK
        },
    }
}

/// Checks a call of an xor-shift-add kernel and decodes its parameters:
/// `shift: u32`, a reserved `u32` that must be zero, and `add: u64`.
pub fn check_xor_shift_add(context: Option<&KernelContext>, params: &[u8]) -> (result: Result<
    (u32, u64),
    i32,
>)
    requires
        context matches Some(context) ==> context.params != 0 ==> params@.len()
            == context.params_bytes,
    ensures
        ({
            let status = xor_shift_add_status(
                match context {
                    Some(context) => Some(*context),
                    None => None,
                },
                params@,
            );
            match result {
                Ok((shift, add)) => status == STATUS_OK && shift == u32_at(params@, 0) && add
                    == u64_at(params@, 8),
                Err(code) => status == code && code != STATUS_OK,
            }
        }),
{
    let context = match context {
        None => return Err(STATUS_NULL_CONTEXT),
        Some(context) => context,
    };
    if context.input == 0 || context.output == 0 {
        return Err(STATUS_NULL_BUFFER);
    }
    if context.params_bytes > usize::MAX as u64 {
        return Err(STATUS_LENGTH_OVERFLOW);
    }
    if context.params_bytes != 16 || context.params == 0 {
        return Err(STATUS_INVALID_PARAMS);
    }
    let shift: u32 = get_u32(params, 0);
    let reserved: u32 = get_u32(params, 4);
    let add: u64 = get_u64(params, 8);
    if shift > MAX_SHIFT || reserved != 0 {
        return Err(STATUS_INVALID_PARAMS);
    }
    if context.input_bytes > usize::MAX as u64 || context.output_bytes > usize::MAX as u64 {
        return Err(STATUS_LENGTH_OVERFLOW);
    }
    if context.input_bytes != context.output_bytes || context.input_bytes % 8 != 0 {
        return Err(STATUS_LENGTH_MISMATCH);
    }
    if context.input % 8 != 0 || context.output % 8 != 0 {
        return Err(STATUS_MISALIGNED);
    }
    Ok((shift, add))
}

/// The status that an elementwise kernel answers a call with.
pub open spec fn elementwise_status(context: Option<KernelContext>) -> i32 {
    match context {
        None => STATUS_NULL_CONTEXT,
        Some(context) => if context.input == 0 || context.output == 0 {
            STATUS_NULL_BUFFER
        } else if context.params_bytes != 0 {
            STATUS_INVALID_PARAMS
        } else if context.input_bytes > usize::MAX || context.output_bytes > usize::MAX {
            STATUS_LENGTH_OVERFLOW
        } else if context.input_bytes != context.output_bytes || context.input_bytes % 4 != 0 {
            STATUS_LENGTH_MISMATCH
        } else if context.input % 4 != 0 || context.output % 4 != 0 {
            STATUS_MISALIGNED
        } else {
            STATUS_OK
        },
    }
}

/// Checks a call of an elementwise kernel, which takes no parameters.
pub fn check_elementwise(context: Option<&KernelContext>) -> (status: i32)
    ensures
        status == elementwise_status(
            match context {
                Some(context) => Some(*context),
                None => None,
            },
        ),
{
    let context = match context {
        None => return STATUS_NULL_CONTEXT,
        Some(context) => context,
    };
    if context.input == 0 || context.output == 0 {
        return STATUS_NULL_BUFFER;
    }
    if context.params_bytes != 0 {
        return STATUS_INVALID_PARAMS;
    }
    if context.input_bytes > usize::MAX as u64 || context.output_bytes > usize::MAX as u64 {
        return STATUS_LENGTH_OVERFLOW;
    }
    if context.input_bytes != context.output_bytes || context.input_bytes % 4 != 0 {
        return STATUS_LENGTH_MISMATCH;
    }
    if context.input % 4 != 0 || context.output % 4 != 0 {
        return STATUS_MISALIGNED;
    }
    STATUS_OK
}

/// The dimensions and the activation of a matmul call.
#[derive(Clone, Copy, Debug, PartialEq, Eq, Structural)]
pub struct MatmulParams {
    pub m: u32,
    pub k: u32,
    pub n: u32,
    pub activation: u32,
}

/// The parameters as they stand in the bytes: three dimensions and, in the
/// fused encoding, the activation.
pub open spec fn matmul_params(params: Seq<u8>, fused: bool) -> MatmulParams {
    MatmulParams {
        m: u32_at(params, 0),
        k: u32_at(params, 4),
        n: u32_at(params, 8),
        activation: if fused {
            u32_at(params, 12)
        } else {
            0
        },
    }
}

/// The bytes that the parameters of a matmul call take.
pub open spec fn matmul_params_bytes(fused: bool) -> int {
    if fused {
        16
    } else {
        12
    }
}

/// The status that a matmul kernel answers a call with, with (`fused`) or
/// without an activation among its parameters.
pub open spec fn matmul_status(
    context: Option<KernelContext>,
    params: Seq<u8>,
    fused: bool,
) -> i32 {
    let MatmulParams { m, k, n, activation } = matmul_params(params, fused);
    match context {
        None => STATUS_NULL_CONTEXT,
        Some(context) => if context.input == 0 || context.output == 0 {
            STATUS_NULL_BUFFER
        } else if context.params_bytes > usize::MAX {
            STATUS_LENGTH_OVERFLOW
        } else if context.params_bytes != matmul_params_bytes(fused) || context.params == 0 {
            STATUS_INVALID_PARAMS
        } else if activation > 1 {
            STATUS_INVALID_PARAMS
        } else if m == 0 || k == 0 || n == 0 {
            STATUS_INVALID_DIMENSIONS
        } else if 4 * (m * k + k * n) > usize::MAX || 4 * (m * n) > usize::MAX
            || context.input_bytes > usize::MAX || context.output_bytes > usize::MAX {
            STATUS_LENGTH_OVERFLOW
        } else if context.input_bytes != 4 * (m * k + k * n) {
            STATUS_LENGTH_MISMATCH
        } else if context.output_bytes < 4 * (m * n) {
            STATUS_OUTPUT_TOO_SMALL
        } else if context.output_bytes != 4 * (m * n) {
            STATUS_LENGTH_MISMATCH
        } else if context.input % 4 != 0 || context.output % 4 != 0 {
            STATUS_MISALIGNED
        } else {
            STATUS_OK
        },
    }
}

/// The entries of a matrix, if that many can be counted.
pub fn checked_elements(rows: usize, columns: usize) -> (result: Result<usize, i32>)
    ensures
        rows * columns <= usize::MAX ==> result == Ok::<usize, i32>((rows * columns) as usize),
        rows * columns > usize::MAX ==> result == Err::<usize, i32>(STATUS_LENGTH_OVERFLOW),
{
    match rows.checked_mul(columns) {
        Some(elements) => Ok(elements),
        None => Err(STATUS_LENGTH_OVERFLOW),
    }
}

/// The bytes of that many singles, if they can be counted.
fn checked_bytes(elements: usize) -> (result: Result<usize, i32>)
    ensures
        4 * elements <= usize::MAX ==> result == Ok::<usize, i32>((4 * elements) as usize),
        4 * elements > usize::MAX ==> result == Err::<usize, i32>(STATUS_LENGTH_OVERFLOW),
{
    if elements > usize::MAX / 4 {
        return Err(STATUS_LENGTH_OVERFLOW);
    }
    Ok(4 * elements)
}

/// The bytes that the operands and the product of a matmul take.
fn matmul_bytes(m: usize, k: usize, n: usize) -> (result: Result<(usize, usize), i32>)
    ensures
        4 * (m * k + k * n) > usize::MAX || 4 * (m * n) > usize::MAX ==> result == Err::<
            (usize, usize),
            i32,
        >(STATUS_LENGTH_OVERFLOW),
        4 * (m * k + k * n) <= usize::MAX && 4 * (m * n) <= usize::MAX ==> result == Ok::<
            (usize, usize),
            i32,
        >(((4 * (m * k + k * n)) as usize, (4 * (m * n)) as usize)),
{
    proof {
        assert(0 <= m * k && 0 <= k * n && 0 <= m * n) by (nonlinear_arith)
            requires
                0 <= m,
                0 <= k,
                0 <= n,
        ;
    }
    let a_elements: usize = match checked_elements(m, k) {
        Ok(value) => value,
        Err(status) => return Err(status),
    };
    let b_elements: usize = match checked_elements(k, n) {
        Ok(value) => value,
        Err(status) => return Err(status),
    };
    let c_elements: usize = match checked_elements(m, n) {
        Ok(value) => value,
        Err(status) => return Err(status),
    };
    let elements: usize = match a_elements.checked_add(b_elements) {
        Some(value) => value,
        None => return Err(STATUS_LENGTH_OVERFLOW),
    };
    let input: usize = match checked_bytes(elements) {
        Ok(value) => value,
        Err(status) => return Err(status),
    };
    let output: usize = match checked_bytes(c_elements) {
        Ok(value) => value,
        Err(status) => return Err(status),
    };
    Ok((input, output))
}

/// Checks a call of a matmul kernel and decodes its parameters: `m`, `k` and
/// `n`, and the activation where `fused` says that there is one.
pub fn check_matmul(context: Option<&KernelContext>, params: &[u8], fused: bool) -> (result: Result<
    MatmulParams,
    i32,
>)
    requires
        context matches Some(context) ==> context.params != 0 ==> params@.len()
            == context.params_bytes,
    ensures
        ({
            let status = matmul_status(
                match context {
                    Some(context) => Some(*context),
                    None => None,
                },
                params@,
                fused,
            );
            match result {
                Ok(decoded) => status == STATUS_OK && decoded == matmul_params(params@, fused),
                Err(code) => status == code && code != STATUS_OK,
            }
        }),
{
    let context = match context {
        None => return Err(STATUS_NULL_CONTEXT),
        Some(context) => context,
    };
    if context.input == 0 || context.output == 0 {
        return Err(STATUS_NULL_BUFFER);
    }
    if context.params_bytes > usize::MAX as u64 {
        return Err(STATUS_LENGTH_OVERFLOW);
    }
    let expected_params: u64 = if fused {
        16
    } else {
        12
    };
    if context.params_bytes != expected_params || context.params == 0 {
        return Err(STATUS_INVALID_PARAMS);
    }
    let m: u32 = get_u32(params, 0);
    let k: u32 = get_u32(params, 4);
    let n: u32 = get_u32(params, 8);
    let activation: u32 = if fused {
        get_u32(params, 12)
    } else {
        0
    };
    if activation > 1 {
        return Err(STATUS_INVALID_PARAMS);
    }
    if m == 0 || k == 0 || n == 0 {
        return Err(STATUS_INVALID_DIMENSIONS);
    }
    let (expected_input, expected_output): (usize, usize) = match matmul_bytes(
        m as usize,
        k as usize,
        n as usize,
    ) {
        Ok(bytes) => bytes,
        Err(status) => return Err(status),
    };
    if context.input_bytes > usize::MAX as u64 || context.output_bytes > usize::MAX as u64 {
        return Err(STATUS_LENGTH_OVERFLOW);
    }
    if context.input_bytes != expected_input as u64 {
        return Err(STATUS_LENGTH_MISMATCH);
    }
    if context.output_bytes < expected_output as u64 {
        return Err(STATUS_OUTPUT_TOO_SMALL);
    }
    if context.output_bytes != expected_output as u64 {
        return Err(STATUS_LENGTH_MISMATCH);
    }
    if context.input % 4 != 0 || context.output % 4 != 0 {
        return Err(STATUS_MISALIGNED);
    }
    Ok(MatmulParams { m, k, n, activation })
}

/// The plain descriptor of a kernel: what it announces before it is admitted.
#[derive(Clone, Copy, Debug, PartialEq, Eq, Structural)]
pub struct KernelPlugin {
    pub abi_version: u32,
    pub input_type: u16,
    pub output_type: u16,
    pub operation: u16,
    pub flags: u32,
    pub required_alignment: u32,
    pub scratch_bytes: u64,
    pub cpu_features: u64,
}

/// The descriptor of an operation over values of one type, without scratch.
pub open spec fn descriptor(
    element: u16,
    operation: u16,
    alignment: u32,
    cpu_features: u64,
) -> KernelPlugin {
    KernelPlugin {
        abi_version: ABI_VERSION,
        input_type: element,
        output_type: element,
        operation,
        flags: 0,
        required_alignment: alignment,
        scratch_bytes: 0,
        cpu_features,
    }
}

/// The descriptor of an operation over values of one type, without scratch.
pub fn describe(element: u16, operation: u16, alignment: u32, cpu_features: u64) -> (plugin:
    KernelPlugin)
    ensures
        plugin == descriptor(element, operation, alignment, cpu_features),
{
    KernelPlugin {
        abi_version: ABI_VERSION,
        input_type: element,
        output_type: element,
        operation,
        flags: 0,
        required_alignment: alignment,
        scratch_bytes: 0,
        cpu_features,
    }
}

} // verus!
