use vstd::prelude::*;

use crate::error::{invalid_operation, push_number, Result, TensorError};
use crate::text::decimal;
use crate::text::{all_white_space, char_is_whitespace, chars_of, debug_quoted, is_white_space, push_debug_quoted, str_eq};

verus! {

/// Longest accepted custom operator name, in bytes.
pub const MAX_CUSTOM_OP_NAME_BYTES: usize = 128;

/// Characters a custom operator name may use: ASCII letters and digits,
/// `_`, `.`, `:` and `-`.
pub open spec fn is_op_name_char(c: char) -> bool {
    ||| ('a' <= c && c <= 'z')
    ||| ('A' <= c && c <= 'Z')
    ||| ('0' <= c && c <= '9')
    ||| c == '_'
    ||| c == '.'
    ||| c == ':'
    ||| c == '-'
}

/// A name is accepted when it is not blank, is at most 128 bytes long and
/// uses only operator-name characters.
pub open spec fn valid_custom_op_name(name: &str) -> bool {
    &&& !all_white_space(name@)
    &&& name.len() <= MAX_CUSTOM_OP_NAME_BYTES
    &&& forall|i: int| 0 <= i < name@.len() ==> is_op_name_char(#[trigger] name@[i])
}

fn op_name_char(c: char) -> (b: bool)
    ensures
        b == is_op_name_char(c),
{
    ('a' <= c && c <= 'z') || ('A' <= c && c <= 'Z') || ('0' <= c && c <= '9') || c == '_' || c == '.'
        || c == ':' || c == '-'
}

/// Checks a custom operator name; every refusal is an invalid operation.
pub fn validate_custom_op_name(name: &str) -> (res: Result<()>)
    ensures
        res is Ok <==> valid_custom_op_name(name),
        res matches Err(e) ==> e is InvalidOperation,
        all_white_space(name@) ==> (res matches Err(e) && e.message_spec() == "custom op name cannot be empty"@),
        !all_white_space(name@) && name.len() > MAX_CUSTOM_OP_NAME_BYTES ==> (res matches Err(e)
            && e.message_spec() == "custom op name must be at most 128 bytes, got"@ + " "@ + decimal(
            name.len() as nat,
        )),
        !all_white_space(name@) && name.len() <= MAX_CUSTOM_OP_NAME_BYTES && res is Err ==> (res matches Err(
            e,
        ) && e.message_spec() == "custom op name "@ + debug_quoted(name@) + " contains unsupported characters"@),
{
    let chars = chars_of(name);
    let mut i: usize = 0;
    let mut blank = true;
    while i < chars.len()
        invariant
            i <= chars@.len(),
            chars@ == name@,
            blank <==> forall|k: int| 0 <= k < i ==> is_white_space(#[trigger] chars@[k]),
        decreases chars.len() - i,
    {
        if !char_is_whitespace(chars[i]) {
            blank = false;
        }
        i = i + 1;
    }
    if blank {
        return Err(invalid_operation("custom op name cannot be empty"));
    }
    if name.len() > MAX_CUSTOM_OP_NAME_BYTES {
        let mut message = String::from_str("custom op name must be at most 128 bytes, got");
        push_number(&mut message, " ", name.len() as u64);
        return Err(TensorError::InvalidOperation(message));
    }
    assert(!all_white_space(name@));
    let mut j: usize = 0;
    while j < chars.len()
        invariant
            j <= chars@.len(),
            chars@ == name@,
            !all_white_space(name@),
            name.len() <= MAX_CUSTOM_OP_NAME_BYTES,
            forall|k: int| 0 <= k < j ==> is_op_name_char(#[trigger] chars@[k]),
        decreases chars.len() - j,
    {
        if !op_name_char(chars[j]) {
            let mut message = String::from_str("custom op name ");
            push_debug_quoted(&mut message, name);
            message.append(" contains unsupported characters");
            return Err(TensorError::InvalidOperation(message));
        }
        j = j + 1;
    }
    Ok(())
}

/// A registered custom elementwise operator: a validated name with the
/// forward and backward callbacks the runtime invokes.
#[derive(Clone, Copy)]
pub struct CustomUnaryOp<F, B> {
    name: &'static str,
    forward: F,
    backward: B,
}

impl<F: Copy, B: Copy> CustomUnaryOp<F, B> {
    pub closed spec fn name_spec(&self) -> &'static str {
        self.name
    }

    pub closed spec fn forward_spec(&self) -> F {
        self.forward
    }

    pub closed spec fn backward_spec(&self) -> B {
        self.backward
    }

    /// Builds an operator once its name passes `validate_custom_op_name`.
    pub fn new(name: &'static str, forward: F, backward: B) -> (res: Result<Self>)
        ensures
            res is Ok <==> valid_custom_op_name(name),
            res matches Err(e) ==> e is InvalidOperation,
            res matches Ok(op) ==> op.name_spec() == name && op.forward_spec() == forward
                && op.backward_spec() == backward,
    {
        validate_custom_op_name(name)?;
        Ok(CustomUnaryOp { name, forward, backward })
    }

    pub fn name(&self) -> (n: &'static str)
        ensures
            n == self.name_spec(),
    {
        self.name
    }

    pub fn forward_fn(&self) -> (f: F)
        ensures
            f == self.forward_spec(),
    {
        self.forward
    }

    pub fn backward_fn(&self) -> (b: B)
        ensures
            b == self.backward_spec(),
    {
        self.backward
    }
}

/// Operators registered under distinct names, in registration order.
pub struct CustomUnaryRegistry<F, B> {
    ops: Vec<CustomUnaryOp<F, B>>,
}

/// No two operators share a name.
pub open spec fn names_distinct<F: Copy, B: Copy>(ops: Seq<CustomUnaryOp<F, B>>) -> bool {
    forall|i: int, j: int|
        0 <= i < j < ops.len() ==> (#[trigger] ops[i]).name_spec()@ != (#[trigger] ops[j]).name_spec()@
}

impl<F: Copy, B: Copy> View for CustomUnaryRegistry<F, B> {
    type V = Seq<CustomUnaryOp<F, B>>;

    closed spec fn view(&self) -> Seq<CustomUnaryOp<F, B>> {
        self.ops@
    }
}

impl<F: Copy, B: Copy> CustomUnaryRegistry<F, B> {
    pub fn new() -> (r: Self)
        ensures
            r@ == Seq::<CustomUnaryOp<F, B>>::empty(),
    {
        CustomUnaryRegistry { ops: Vec::new() }
    }

    /// Registers `op` unless an operator of the same name is registered
    /// already (an invalid operation, which leaves the registry unchanged).
    pub fn register(&mut self, op: CustomUnaryOp<F, B>) -> (res: Result<()>)
        ensures
            res is Ok <==> forall|i: int| 0 <= i < old(self)@.len() ==> (#[trigger] old(self)@[i]).name_spec()@
                != op.name_spec()@,
            res is Ok ==> final(self)@ == old(self)@.push(op),
            res is Err ==> final(self)@ == old(self)@,
            res matches Err(e) ==> e is InvalidOperation,
            res matches Err(e) ==> e.message_spec() == "custom unary op "@ + debug_quoted(op.name_spec()@)
                + " is already registered"@,
            names_distinct(old(self)@) ==> names_distinct(final(self)@),
    {
        let mut i: usize = 0;
        while i < self.ops.len()
            invariant
                i <= self.ops@.len(),
                self.ops@ == old(self)@,
                forall|k: int| 0 <= k < i ==> (#[trigger] self.ops@[k]).name_spec()@ != op.name_spec()@,
            decreases self.ops@.len() - i,
        {
            if str_eq(self.ops[i].name(), op.name()) {
                let mut message = String::from_str("custom unary op ");
                push_debug_quoted(&mut message, op.name());
                message.append(" is already registered");
                return Err(TensorError::InvalidOperation(message));
            }
            i = i + 1;
        }
        self.ops.push(op);
        Ok(())
    }

    /// The operator registered under `name`, if any (the first such one).
    pub fn get(&self, name: &str) -> (r: Option<CustomUnaryOp<F, B>>)
        ensures
            r is None <==> forall|i: int| 0 <= i < self@.len() ==> (#[trigger] self@[i]).name_spec()@ != name@,
            r matches Some(op) ==> exists|i: int|
                0 <= i < self@.len() && #[trigger] self@[i] == op && op.name_spec()@ == name@ && forall|k: int|
                    0 <= k < i ==> (#[trigger] self@[k]).name_spec()@ != name@,
    {
        let mut i: usize = 0;
        while i < self.ops.len()
            invariant
                i <= self.ops@.len(),
                forall|k: int| 0 <= k < i ==> (#[trigger] self.ops@[k]).name_spec()@ != name@,
            decreases self.ops@.len() - i,
        {
            if str_eq(self.ops[i].name(), name) {
                let op = self.ops[i];
                assert(self@[i as int] == op);
                return Some(op);
            }
            i = i + 1;
        }
        None
    }

    /// The registered operators, in registration order.
    pub fn operators(&self) -> (ops: &[CustomUnaryOp<F, B>])
        ensures
            ops@ == self@,
    {
        self.ops.as_slice()
    }

    pub fn len(&self) -> (n: usize)
        ensures
            n == self@.len(),
    {
        self.ops.len()
    }

    pub fn is_empty(&self) -> (b: bool)
        ensures
            b == (self@.len() == 0),
    {
        self.ops.len() == 0
    }
}

/// A registry reads back what it accepted: after `op` is registered into a
/// registry with distinct names, looking up its name finds exactly `op`.
pub proof fn lemma_registered_op_is_found<F: Copy, B: Copy>(
    before: Seq<CustomUnaryOp<F, B>>,
    op: CustomUnaryOp<F, B>,
)
    requires
        forall|i: int| 0 <= i < before.len() ==> (#[trigger] before[i]).name_spec()@ != op.name_spec()@,
    ensures
        ({
            let after = before.push(op);
            let i = before.len() as int;
            &&& after[i] == op
            &&& forall|k: int| 0 <= k < i ==> (#[trigger] after[k]).name_spec()@ != op.name_spec()@
        }),
{
    let after = before.push(op);
    assert forall|k: int| 0 <= k < before.len() implies (#[trigger] after[k]).name_spec()@ != op.name_spec()@ by {
        assert(after[k] == before[k]);
    }
}

} // verus!
