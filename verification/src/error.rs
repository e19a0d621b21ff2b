use vstd::prelude::*;
use crate::npy::joined_dims;
use crate::text::{decimal, decimal_u64};

verus! {

/// Errors reported by tensor, data, and model-configuration routines.
///
/// Each variant carries a human-readable message; the variant itself tells
/// which contract was violated.
#[derive(Debug, Clone, PartialEq, Eq)]
pub enum TensorError {
    Shape(String),
    DType(String),
    Device(String),
    Io(String),
    InvalidOperation(String),
    Autograd(String),
}

pub type Result<T> = std::result::Result<T, TensorError>;

impl TensorError {
    /// The message carried by the error, whatever its variant.
    pub fn message(&self) -> (m: &str)
        ensures
            m@ == self.message_spec(),
    {
        match self {
            TensorError::Shape(m) => m.as_str(),
            TensorError::DType(m) => m.as_str(),
            TensorError::Device(m) => m.as_str(),
            TensorError::Io(m) => m.as_str(),
            TensorError::InvalidOperation(m) => m.as_str(),
            TensorError::Autograd(m) => m.as_str(),
        }
    }

    pub open spec fn message_spec(&self) -> Seq<char> {
        match self {
            TensorError::Shape(m) => m@,
            TensorError::DType(m) => m@,
            TensorError::Device(m) => m@,
            TensorError::Io(m) => m@,
            TensorError::InvalidOperation(m) => m@,
            TensorError::Autograd(m) => m@,
        }
    }

    /// The category prefix used when the error is rendered for people.
    pub open spec fn category_spec(&self) -> Seq<char> {
        match self {
            TensorError::Shape(_) => "shape error: "@,
            TensorError::DType(_) => "dtype error: "@,
            TensorError::Device(_) => "device error: "@,
            TensorError::Io(_) => "io error: "@,
            TensorError::InvalidOperation(_) => "invalid operation: "@,
            TensorError::Autograd(_) => "autograd error: "@,
        }
    }

    pub fn category(&self) -> (c: &'static str)
        ensures
            c@ == self.category_spec(),
    {
        match self {
            TensorError::Shape(_) => "shape error: ",
            TensorError::DType(_) => "dtype error: ",
            TensorError::Device(_) => "device error: ",
            TensorError::Io(_) => "io error: ",
            TensorError::InvalidOperation(_) => "invalid operation: ",
            TensorError::Autograd(_) => "autograd error: ",
        }
    }

    /// Human-readable rendering: the category prefix followed by the message.
    pub fn to_string(&self) -> (s: String)
        ensures
            s@ == self.category_spec() + self.message_spec(),
    {
        let prefix = String::from_str(self.category());
        prefix.concat(self.message())
    }
}

/// How a message reports one counter: `name=value`.
pub open spec fn field_text(name: Seq<char>, value: nat) -> Seq<char> {
    name + "="@ + decimal(value)
}

/// Appends `sep`, then `name=value`, to `message`.
pub fn push_field(message: &mut String, sep: &str, name: &str, value: u64)
    ensures
        final(message)@ == old(message)@ + sep@ + field_text(name@, value as nat),
{
    message.append(sep);
    message.append(name);
    message.append("=");
    let digits = decimal_u64(value);
    message.append(digits.as_str());
    assert(message@ =~= old(message)@ + sep@ + field_text(name@, value as nat));
}

/// Appends `text`, then `value` in decimal, to `message`.
pub fn push_number(message: &mut String, text: &str, value: u64)
    ensures
        final(message)@ == old(message)@ + text@ + decimal(value as nat),
{
    message.append(text);
    let digits = decimal_u64(value);
    message.append(digits.as_str());
    assert(message@ =~= old(message)@ + text@ + decimal(value as nat));
}

/// A shape as messages print it: `[a, b, ...]`.
pub open spec fn dims_text(shape: Seq<usize>) -> Seq<char> {
    "["@ + joined_dims(shape) + "]"@
}

/// Appends `dims_text(shape)` to `message`.
pub fn push_dims(message: &mut String, shape: &[usize])
    ensures
        final(message)@ == old(message)@ + dims_text(shape@),
{
    let ghost start = message@;
    message.append("[");
    let mut i: usize = 0;
    assert(shape@.take(0) =~= Seq::<usize>::empty());
    while i < shape.len()
        invariant
            i <= shape@.len(),
            message@ == start + "["@ + joined_dims(shape@.take(i as int)),
        decreases shape@.len() - i,
    {
        let ghost before = message@;
        if i > 0 {
            message.append(", ");
        }
        let digits = decimal_u64(shape[i] as u64);
        message.append(digits.as_str());
        proof {
            let next = shape@.take(i + 1);
            assert(next.drop_last() =~= shape@.take(i as int));
            assert(next.last() == shape@[i as int]);
            if i == 0 {
                assert(shape@.take(0).len() == 0);
                assert(joined_dims(shape@.take(0)) =~= Seq::<char>::empty());
                assert(next.len() == 1);
                assert(joined_dims(next) == decimal(shape@[0] as nat));
            }
            assert(message@ =~= start + "["@ + joined_dims(next));
        }
        i = i + 1;
    }
    assert(shape@.take(shape@.len() as int) =~= shape@);
    message.append("]");
    assert(message@ =~= old(message)@ + dims_text(shape@));
}

/// A signed number in decimal.
pub open spec fn signed_decimal(v: int) -> Seq<char> {
    if v < 0 {
        "-"@ + decimal((-v) as nat)
    } else {
        decimal(v as nat)
    }
}

/// Appends `text`, then `value` in decimal with its sign, to `message`.
pub fn push_signed(message: &mut String, text: &str, value: isize)
    ensures
        final(message)@ == old(message)@ + text@ + signed_decimal(value as int),
{
    message.append(text);
    if value < 0 {
        message.append("-");
        let magnitude: u64 = if value == isize::MIN {
            (isize::MAX as u64) + 1
        } else {
            (-value) as u64
        };
        let digits = decimal_u64(magnitude);
        message.append(digits.as_str());
    } else {
        let digits = decimal_u64(value as u64);
        message.append(digits.as_str());
    }
    assert(message@ =~= old(message)@ + text@ + signed_decimal(value as int));
}

/// Appends `text`, then the 64-bit `value` in decimal with its sign, to
/// `message`.
pub fn push_i64(message: &mut String, text: &str, value: i64)
    ensures
        final(message)@ == old(message)@ + text@ + signed_decimal(value as int),
{
    message.append(text);
    if value < 0 {
        message.append("-");
        let magnitude: u64 = if value == i64::MIN {
            (i64::MAX as u64) + 1
        } else {
            (-value) as u64
        };
        let digits = decimal_u64(magnitude);
        message.append(digits.as_str());
    } else {
        let digits = decimal_u64(value as u64);
        message.append(digits.as_str());
    }
    assert(message@ =~= old(message)@ + text@ + signed_decimal(value as int));
}

pub fn shape_error(message: &str) -> (e: TensorError)
    ensures
        e is Shape,
        e.message_spec() == message@,
{
    TensorError::Shape(String::from_str(message))
}

pub fn dtype_error(message: &str) -> (e: TensorError)
    ensures
        e is DType,
        e.message_spec() == message@,
{
    TensorError::DType(String::from_str(message))
}

pub fn io_error(message: &str) -> (e: TensorError)
    ensures
        e is Io,
        e.message_spec() == message@,
{
    TensorError::Io(String::from_str(message))
}

pub fn invalid_operation(message: &str) -> (e: TensorError)
    ensures
        e is InvalidOperation,
        e.message_spec() == message@,
{
    TensorError::InvalidOperation(String::from_str(message))
}

} // verus!
