use vstd::prelude::*;
use crate::text::{decimal, decimal_u64};

verus! {

/// Element types a tensor can hold.
#[derive(Clone, Copy, Debug, PartialEq, Eq, Hash, Structural)]
pub enum DType {
    F32,
    BFloat16,
    F64,
    I64,
    Bool,
}

impl DType {
    pub open spec fn is_floating_spec(self) -> bool {
        self is F32 || self is BFloat16 || self is F64
    }

    /// Floating dtypes are `F32`, `BFloat16` and `F64`.
    #[verifier::when_used_as_spec(is_floating_spec)]
    pub fn is_floating(self) -> (b: bool)
        ensures
            b == self.is_floating_spec(),
    {
        match self {
            DType::F32 | DType::BFloat16 | DType::F64 => true,
            DType::I64 | DType::Bool => false,
        }
    }
}

/// Where a tensor's storage lives.
#[derive(Clone, Copy, Debug, PartialEq, Eq, Hash, Structural)]
pub enum Device {
    Cpu,
    Cuda(usize),
}

/// A dtype as its `Debug` form writes it: the variant's name.
pub open spec fn dtype_debug(dtype: DType) -> Seq<char> {
    match dtype {
        DType::F32 => "F32"@,
        DType::BFloat16 => "BFloat16"@,
        DType::F64 => "F64"@,
        DType::I64 => "I64"@,
        DType::Bool => "Bool"@,
    }
}

/// A device as its `Debug` form writes it: `Cpu` or `Cuda(<id>)`.
pub open spec fn device_debug(device: Device) -> Seq<char> {
    match device {
        Device::Cpu => "Cpu"@,
        Device::Cuda(id) => "Cuda("@ + decimal(id as nat) + ")"@,
    }
}

/// Appends `dtype_debug(dtype)` to `message`.
pub fn push_dtype_debug(message: &mut String, dtype: DType)
    ensures
        final(message)@ == old(message)@ + dtype_debug(dtype),
{
    let name = match dtype {
        DType::F32 => "F32",
        DType::BFloat16 => "BFloat16",
        DType::F64 => "F64",
        DType::I64 => "I64",
        DType::Bool => "Bool",
    };
    message.append(name);
}

/// Appends `device_debug(device)` to `message`.
pub fn push_device_debug(message: &mut String, device: Device)
    ensures
        final(message)@ == old(message)@ + device_debug(device),
{
    match device {
        Device::Cpu => {
            message.append("Cpu");
        },
        Device::Cuda(id) => {
            message.append("Cuda(");
            let digits = decimal_u64(id as u64);
            message.append(digits.as_str());
            message.append(")");
            assert(message@ =~= old(message)@ + device_debug(device));
        },
    }
}

} // verus!
