use vstd::prelude::*;

use crate::data::le_value;
use crate::error::{dtype_error, invalid_operation, io_error, shape_error, Result, TensorError};
use crate::hash::hex_char;
use crate::shape::{checked_numel, overflow_message, prefix_products_fit, product};
use crate::storage::{DType, Device, device_debug, push_device_debug};
use crate::text::{
    char_is_whitespace, chars_of, decimal, decimal_u64, find_chars, find_spec, is_white_space,
    lemma_trim_start_skip, str_eq, trim, trim_bounds, trim_start, debug_quoted, push_debug_quoted,
    push_debug_quoted_range,
};

verus! {

// ---------------------------------------------------------------------------
// Writing: header text and preamble bytes
// ---------------------------------------------------------------------------

/// The NumPy type descriptor written for each dtype.
pub open spec fn descr_spec(dtype: DType) -> Seq<char> {
    match dtype {
        DType::F32 => "<f4"@,
        DType::BFloat16 => "|V2"@,
        DType::F64 => "<f8"@,
        DType::I64 => "<i8"@,
        DType::Bool => "|b1"@,
    }
}

pub fn descr_for_dtype(dtype: DType) -> (d: &'static str)
    ensures
        d@ == descr_spec(dtype),
{
    match dtype {
        DType::F32 => "<f4",
        DType::BFloat16 => "|V2",
        DType::F64 => "<f8",
        DType::I64 => "<i8",
        DType::Bool => "|b1",
    }
}

/// The dtype read for a descriptor: little-endian or byte-order-free
/// `f4`/`f8`, little-endian `i8`, and `b1`/`?` for bools.
pub open spec fn dtype_for_descr(descr: Seq<char>) -> Option<DType> {
    if descr == "<f4"@ || descr == "|f4"@ {
        Some(DType::F32)
    } else if descr == "<f8"@ || descr == "|f8"@ {
        Some(DType::F64)
    } else if descr == "<i8"@ {
        Some(DType::I64)
    } else if descr == "|b1"@ || descr == "?"@ {
        Some(DType::Bool)
    } else {
        None
    }
}

/// The dtype a descriptor names; any other descriptor is a dtype error.
pub fn dtype_from_descr(descr: &str) -> (res: Result<DType>)
    ensures
        res is Ok <==> dtype_for_descr(descr@) is Some,
        res matches Ok(d) ==> dtype_for_descr(descr@) == Some(d),
        res matches Err(e) ==> e is DType && e.message_spec() == descr_refusal(descr@),
{
    if str_eq(descr, "<f4") || str_eq(descr, "|f4") {
        Ok(DType::F32)
    } else if str_eq(descr, "<f8") || str_eq(descr, "|f8") {
        Ok(DType::F64)
    } else if str_eq(descr, "<i8") {
        Ok(DType::I64)
    } else if str_eq(descr, "|b1") || str_eq(descr, "?") {
        Ok(DType::Bool)
    } else {
        let mut message = String::from_str("read_npy supports little-endian f32/f64/i64 and bool, got descr ");
        push_debug_quoted(&mut message, descr);
        Err(TensorError::DType(message))
    }
}

/// The refusal of an unsupported dtype descriptor.
pub open spec fn descr_refusal(descr: Seq<char>) -> Seq<char> {
    "read_npy supports little-endian f32/f64/i64 and bool, got descr "@ + debug_quoted(descr)
}

/// Dimensions in decimal separated by `, `.
pub open spec fn joined_dims(shape: Seq<usize>) -> Seq<char>
    decreases shape.len(),
{
    if shape.len() <= 1 {
        if shape.len() == 0 {
            Seq::empty()
        } else {
            decimal(shape[0] as nat)
        }
    } else {
        joined_dims(shape.drop_last()) + ", "@ + decimal(shape.last() as nat)
    }
}

/// A shape as a Python tuple: `()`, `(n,)` or `(a, b, ...)`.
pub open spec fn shape_tuple_spec(shape: Seq<usize>) -> Seq<char> {
    if shape.len() == 0 {
        "()"@
    } else if shape.len() == 1 {
        "("@ + decimal(shape[0] as nat) + ",)"@
    } else {
        "("@ + joined_dims(shape) + ")"@
    }
}

pub fn shape_tuple(shape: &[usize]) -> (s: String)
    ensures
        s@ == shape_tuple_spec(shape@),
{
    if shape.len() == 0 {
        return String::from_str("()");
    }
    if shape.len() == 1 {
        let digits = decimal_u64(shape[0] as u64);
        return String::from_str("(").concat(digits.as_str()).concat(",)");
    }
    let first = decimal_u64(shape[0] as u64);
    let mut body = String::from_str(first.as_str());
    let mut i: usize = 1;
    assert(shape@.take(1).drop_last() =~= Seq::<usize>::empty());
    assert(joined_dims(shape@.take(1)) == decimal(shape@[0] as nat));
    while i < shape.len()
        invariant
            1 <= i <= shape@.len(),
            body@ == joined_dims(shape@.take(i as int)),
        decreases shape@.len() - i,
    {
        let digits = decimal_u64(shape[i] as u64);
        body.append(", ");
        body.append(digits.as_str());
        proof {
            let next = shape@.take(i + 1);
            assert(next.drop_last() =~= shape@.take(i as int));
            assert(next.last() == shape@[i as int]);
        }
        i = i + 1;
    }
    assert(shape@.take(shape@.len() as int) =~= shape@);
    String::from_str("(").concat(body.as_str()).concat(")")
}

/// Bytes before the header: magic (6), version (2) and length (2).
pub const NPY_V1_PREAMBLE_LEN: usize = 10;

/// The header dictionary before padding.
pub open spec fn header_dict(dtype: DType, shape: Seq<usize>) -> Seq<char> {
    "{'descr': '"@ + descr_spec(dtype) + "', 'fortran_order': False, 'shape': "@ + shape_tuple_spec(shape)
        + ", }"@
}

/// Spaces that bring preamble, header and final newline to a multiple of 16 bytes.
pub open spec fn header_padding(dict_len: nat) -> nat {
    ((16 - ((NPY_V1_PREAMBLE_LEN + dict_len + 1) % 16)) % 16) as nat
}

/// The full version-1 header text: dictionary, padding spaces, newline.
pub open spec fn header_text(dtype: DType, shape: Seq<usize>) -> Seq<char> {
    let dict = header_dict(dtype, shape);
    dict + Seq::new(header_padding(dict.len()), |i: int| ' ') + seq!['\n']
}

/// Characters that are all ASCII (code points below 128).
pub open spec fn all_ascii(s: Seq<char>) -> bool {
    forall|i: int| 0 <= i < s.len() ==> (#[trigger] s[i] as int) < 128
}

/// The NumPy magic string `\x93NUMPY`.
pub open spec fn npy_magic() -> Seq<u8> {
    seq![0x93u8, 0x4eu8, 0x55u8, 0x4du8, 0x50u8, 0x59u8]
}

/// Everything a version-1 `.npy` file holds before its data: magic,
/// version `1.0`, the header length as little-endian `u16`, and the header.
pub open spec fn npy_v1_preamble(header: Seq<char>) -> Seq<u8> {
    npy_magic() + seq![1u8, 0u8, (header.len() % 256) as u8, (header.len() / 256) as u8] + header.map_values(
        |c: char| c as u8,
    )
}

proof fn lemma_decimal_ascii(n: nat)
    ensures
        all_ascii(decimal(n)),
    decreases n,
{
    if n >= 10 {
        lemma_decimal_ascii(n / 10);
        let d = decimal(n / 10).push(hex_char((n % 10) as u64));
        assert forall|i: int| 0 <= i < d.len() implies (#[trigger] d[i] as int) < 128 by {
            if i < d.len() - 1 {
                assert(d[i] == decimal(n / 10)[i]);
            }
        }
    }
}

proof fn lemma_ascii_concat(a: Seq<char>, b: Seq<char>)
    requires
        all_ascii(a),
        all_ascii(b),
    ensures
        all_ascii(a + b),
{
    assert forall|i: int| 0 <= i < (a + b).len() implies ((#[trigger] (a + b)[i]) as int) < 128 by {
        if i < a.len() {
            assert((a + b)[i] == a[i]);
        } else {
            assert((a + b)[i] == b[i - a.len()]);
        }
    }
}

proof fn lemma_joined_dims_ascii(shape: Seq<usize>)
    ensures
        all_ascii(joined_dims(shape)),
    decreases shape.len(),
{
    reveal_strlit(", ");
    if shape.len() == 1 {
        lemma_decimal_ascii(shape[0] as nat);
    } else if shape.len() > 1 {
        lemma_joined_dims_ascii(shape.drop_last());
        lemma_decimal_ascii(shape.last() as nat);
        lemma_ascii_concat(joined_dims(shape.drop_last()), ", "@);
        lemma_ascii_concat(joined_dims(shape.drop_last()) + ", "@, decimal(shape.last() as nat));
    }
}

proof fn lemma_header_ascii(dtype: DType, shape: Seq<usize>)
    ensures
        all_ascii(header_text(dtype, shape)),
{
    reveal_strlit("()");
    reveal_strlit("(");
    reveal_strlit(",)");
    reveal_strlit(")");
    reveal_strlit("{'descr': '");
    reveal_strlit("', 'fortran_order': False, 'shape': ");
    reveal_strlit(", }");
    reveal_strlit("<f4");
    reveal_strlit("|V2");
    reveal_strlit("<f8");
    reveal_strlit("<i8");
    reveal_strlit("|b1");
    let tuple = shape_tuple_spec(shape);
    if shape.len() == 1 {
        lemma_decimal_ascii(shape[0] as nat);
        lemma_ascii_concat("("@, decimal(shape[0] as nat));
        lemma_ascii_concat("("@ + decimal(shape[0] as nat), ",)"@);
    } else if shape.len() > 1 {
        lemma_joined_dims_ascii(shape);
        lemma_ascii_concat("("@, joined_dims(shape));
        lemma_ascii_concat("("@ + joined_dims(shape), ")"@);
    }
    assert(all_ascii(tuple));
    let a = "{'descr': '"@ + descr_spec(dtype);
    lemma_ascii_concat("{'descr': '"@, descr_spec(dtype));
    lemma_ascii_concat(a, "', 'fortran_order': False, 'shape': "@);
    let b = a + "', 'fortran_order': False, 'shape': "@;
    lemma_ascii_concat(b, tuple);
    lemma_ascii_concat(b + tuple, ", }"@);
    let dict = header_dict(dtype, shape);
    let pad = Seq::new(header_padding(dict.len()), |i: int| ' ');
    lemma_ascii_concat(dict, pad);
    lemma_ascii_concat(dict + pad, seq!['\n']);
}

/// The version-1 header for an array of `dtype` and `shape`.
pub fn npy_header(dtype: DType, shape: &[usize]) -> (h: String)
    ensures
        h@ == header_text(dtype, shape@),
{
    let tuple = shape_tuple(shape);
    let dict = String::from_str("{'descr': '").concat(descr_for_dtype(dtype)).concat(
        "', 'fortran_order': False, 'shape': ",
    ).concat(tuple.as_str()).concat(", }");
    let ghost dict_view = dict@;
    let dict_len = dict.as_str().unicode_len();
    let mut header = dict;
    let padding = (16 - ((NPY_V1_PREAMBLE_LEN % 16 + dict_len % 16 + 1) % 16)) % 16;
    assert(padding == header_padding(dict_view.len())) by {
        assert(((NPY_V1_PREAMBLE_LEN % 16 + dict_len % 16 + 1) % 16) == ((NPY_V1_PREAMBLE_LEN + dict_len + 1)
            % 16)) by (nonlinear_arith);
    }
    let mut k: usize = 0;
    while k < padding
        invariant
            k <= padding,
            padding == header_padding(dict_view.len()),
            header@ == dict_view + Seq::new(k as nat, |i: int| ' '),
        decreases padding - k,
    {
        header.append(" ");
        proof {
            reveal_strlit(" ");
            assert(header@ =~= dict_view + Seq::new((k + 1) as nat, |i: int| ' '));
        }
        k = k + 1;
    }
    header.append("\n");
    proof {
        reveal_strlit("\n");
        assert(header@ =~= header_text(dtype, shape@));
    }
    header
}

/// The bytes that open a version-1 `.npy` file for an array of `dtype`
/// and `shape` stored on `device`: only CPU arrays (an invalid operation
/// otherwise) of a dtype other than `BFloat16` (a dtype error), with a
/// header of at most `u16::MAX` bytes (an I/O error otherwise).
pub fn npy_preamble(dtype: DType, device: Device, shape: &[usize]) -> (res: Result<Vec<u8>>)
    ensures
        res is Ok <==> device is Cpu && !(dtype is BFloat16) && header_text(dtype, shape@).len() <= 0xffff,
        res matches Err(e) ==> (e is InvalidOperation <==> !(device is Cpu)),
        res matches Err(e) ==> (e is DType <==> device is Cpu && dtype is BFloat16),
        res matches Err(e) ==> e is InvalidOperation || e is DType || e is Io,
        res matches Ok(bytes) ==> bytes@ == npy_v1_preamble(header_text(dtype, shape@)),
        res matches Err(e) ==> e.message_spec() == (if !(device is Cpu) {
            "write_npy supports only CPU tensors, got "@ + device_debug(device)
        } else if dtype is BFloat16 {
            "write_npy does not support Heirloom BFloat16 tensors yet"@
        } else {
            "npy v1 header too large: "@ + decimal(header_text(dtype, shape@).len()) + " bytes"@
        }),
{
    match device {
        Device::Cpu => {},
        Device::Cuda(_) => {
            let mut message = String::from_str("write_npy supports only CPU tensors, got ");
            push_device_debug(&mut message, device);
            return Err(TensorError::InvalidOperation(message));
        },
    }
    match dtype {
        DType::BFloat16 => {
            return Err(dtype_error("write_npy does not support Heirloom BFloat16 tensors yet"));
        },
        _ => {},
    }
    let header = npy_header(dtype, shape);
    let chars = crate::text::chars_of(header.as_str());
    if chars.len() > 0xffff {
        let mut message = String::from_str("npy v1 header too large: ");
        let digits = decimal_u64(chars.len() as u64);
        message.append(digits.as_str());
        message.append(" bytes");
        return Err(TensorError::Io(message));
    }
    proof {
        lemma_header_ascii(dtype, shape@);
    }
    let len = chars.len();
    let mut bytes: Vec<u8> = Vec::new();
    bytes.push(0x93u8);
    bytes.push(0x4eu8);
    bytes.push(0x55u8);
    bytes.push(0x4du8);
    bytes.push(0x50u8);
    bytes.push(0x59u8);
    bytes.push(1u8);
    bytes.push(0u8);
    bytes.push((len % 256) as u8);
    bytes.push((len / 256) as u8);
    let ghost head = bytes@;
    assert(head =~= npy_magic() + seq![1u8, 0u8, (len % 256) as u8, (len / 256) as u8]);
    let mut i: usize = 0;
    while i < chars.len()
        invariant
            i <= chars@.len(),
            chars@ == header@,
            all_ascii(chars@),
            bytes@ == head + chars@.take(i as int).map_values(|c: char| c as u8),
        decreases chars@.len() - i,
    {
        let c = chars[i];
        assert((c as int) < 128);
        bytes.push(c as u8);
        assert(chars@.take(i + 1).map_values(|c: char| c as u8) =~= chars@.take(i as int).map_values(
            |c: char| c as u8,
        ).push(c as u8));
        i = i + 1;
    }
    assert(chars@.take(chars@.len() as int) =~= chars@);
    Ok(bytes)
}

// ---------------------------------------------------------------------------
// Reading: preamble
// ---------------------------------------------------------------------------

/// Where the header lies in an `.npy` file.
#[derive(Clone, Copy, Debug, PartialEq, Eq, Structural)]
pub struct NpyHeaderSpan {
    pub start: usize,
    pub len: usize,
}

/// Header span of an `.npy` file: after the magic, version `1.0` stores a
/// little-endian `u16` header length at bytes 8..10, versions `2.0` and
/// `3.0` a `u32` at bytes 8..12. `None` when the file is too short, the
/// magic is wrong, the version is unknown or the header runs past the end.
pub open spec fn header_span_spec(bytes: Seq<u8>) -> Option<(nat, nat)> {
    if bytes.len() < 8 || bytes.take(6) != npy_magic() {
        None
    } else if bytes[6] == 1 && bytes[7] == 0 {
        if bytes.len() < 10 {
            None
        } else {
            let len = bytes[8] as nat + 256 * (bytes[9] as nat);
            if 10 + len <= bytes.len() {
                Some((10nat, len))
            } else {
                None
            }
        }
    } else if (bytes[6] == 2 || bytes[6] == 3) && bytes[7] == 0 {
        if bytes.len() < 12 {
            None
        } else {
            let len = bytes[8] as nat + 256 * (bytes[9] as nat + 256 * (bytes[10] as nat + 256 * (
            bytes[11] as nat)));
            if 12 + len <= bytes.len() {
                Some((12nat, len))
            } else {
                None
            }
        }
    } else {
        None
    }
}

/// Locates the header of an `.npy` file held in `bytes`; every refusal is
/// an I/O error.
pub fn npy_header_span(bytes: &[u8]) -> (res: Result<NpyHeaderSpan>)
    ensures
        res is Ok <==> header_span_spec(bytes@) is Some,
        res matches Ok(span) ==> header_span_spec(bytes@) == Some((span.start as nat, span.len as nat)),
        res matches Err(e) ==> e is Io,
        bytes@.len() >= 8 && bytes@.take(6) == npy_magic() && !((bytes@[6] == 1 || bytes@[6] == 2
            || bytes@[6] == 3) && bytes@[7] == 0) ==> (res matches Err(e) && e.message_spec()
            == "unsupported npy version "@ + decimal(bytes@[6] as nat) + "."@ + decimal(bytes@[7] as nat)),
{
    if bytes.len() < 6 {
        return Err(io_error("failed to read npy magic"));
    }
    if !(bytes[0] == 0x93 && bytes[1] == 0x4e && bytes[2] == 0x55 && bytes[3] == 0x4d && bytes[4] == 0x50
        && bytes[5] == 0x59) {
        proof {
            if bytes@.take(6) == npy_magic() {
                assert(bytes@.take(6)[0] == bytes@[0]);
                assert(bytes@.take(6)[1] == bytes@[1]);
                assert(bytes@.take(6)[2] == bytes@[2]);
                assert(bytes@.take(6)[3] == bytes@[3]);
                assert(bytes@.take(6)[4] == bytes@[4]);
                assert(bytes@.take(6)[5] == bytes@[5]);
            }
        }
        return Err(io_error("invalid npy magic"));
    }
    assert(bytes@.take(6) =~= npy_magic());
    if bytes.len() < 8 {
        return Err(io_error("failed to read npy version"));
    }
    let major = bytes[6];
    let minor = bytes[7];
    if major == 1 && minor == 0 {
        if bytes.len() < 10 {
            return Err(io_error("failed to read npy v1 header length"));
        }
        let len = bytes[8] as usize + 256 * (bytes[9] as usize);
        if bytes.len() - 10 < len {
            return Err(io_error("failed to read npy header"));
        }
        Ok(NpyHeaderSpan { start: 10, len })
    } else if (major == 2 || major == 3) && minor == 0 {
        if bytes.len() < 12 {
            return Err(io_error("failed to read npy v2/v3 header length"));
        }
        let len64: u64 = bytes[8] as u64 + 256 * (bytes[9] as u64 + 256 * (bytes[10] as u64 + 256 * (
        bytes[11] as u64)));
        if (bytes.len() - 12) as u64 >= len64 {
            let len = len64 as usize;
            Ok(NpyHeaderSpan { start: 12, len })
        } else {
            Err(io_error("failed to read npy header"))
        }
    } else {
        let mut message = String::from_str("unsupported npy version ");
        let major_digits = decimal_u64(major as u64);
        message.append(major_digits.as_str());
        message.append(".");
        let minor_digits = decimal_u64(minor as u64);
        message.append(minor_digits.as_str());
        Err(TensorError::Io(message))
    }
}

/// The element count of a shape read from an `.npy` header; an overflowing
/// count is an I/O error.
pub fn npy_element_count(shape: &[usize]) -> (res: Result<usize>)
    ensures
        res is Ok <==> prefix_products_fit(shape@),
        res matches Ok(n) ==> n == product(shape@),
        res matches Err(e) ==> e is Io && e.message_spec() == "npy shape has an invalid element count: "@
            + "shape error: "@ + overflow_message(shape@),
{
    match checked_numel(shape) {
        Ok(n) => Ok(n),
        Err(e) => {
            let mut message = String::from_str("npy shape has an invalid element count: ");
            let rendered = e.to_string();
            message.append(rendered.as_str());
            assert(message@ =~= "npy shape has an invalid element count: "@ + "shape error: "@ + overflow_message(
                shape@,
            ));
            Err(TensorError::Io(message))
        },
    }
}

// ---------------------------------------------------------------------------
// Integer and bool payloads
// ---------------------------------------------------------------------------

/// Little-endian bytes of each value, concatenated.
pub open spec fn i64_payload(values: Seq<i64>) -> Seq<u8>
    decreases values.len(),
{
    if values.len() == 0 {
        Seq::empty()
    } else {
        i64_payload(values.drop_last()) + crate::hash::le_bytes_u64(values.last() as u64)
    }
}

/// `i64` values as an `.npy` payload.
pub fn encode_i64_payload(values: &[i64]) -> (bytes: Vec<u8>)
    requires
        values@.len() * 8 <= usize::MAX,
    ensures
        bytes@ == i64_payload(values@),
{
    let mut bytes: Vec<u8> = Vec::new();
    let mut i: usize = 0;
    while i < values.len()
        invariant
            i <= values@.len(),
            bytes@ == i64_payload(values@.take(i as int)),
        decreases values@.len() - i,
    {
        let le = crate::hash::le_bytes_of(values[i] as u64);
        let mut j: usize = 0;
        let ghost before = bytes@;
        while j < le.len()
            invariant
                j <= le@.len(),
                le@ == crate::hash::le_bytes_u64(values@[i as int] as u64),
                bytes@ == before + le@.take(j as int),
            decreases le@.len() - j,
        {
            bytes.push(le[j]);
            assert(le@.take(j + 1) =~= le@.take(j as int).push(le@[j as int]));
            j = j + 1;
        }
        assert(le@.take(le@.len() as int) =~= le@);
        assert(values@.take(i + 1).drop_last() =~= values@.take(i as int));
        i = i + 1;
    }
    assert(values@.take(values@.len() as int) =~= values@);
    bytes
}

/// Element `i` of an `i64` payload: eight little-endian bytes read as a
/// two's-complement integer.
pub open spec fn i64_at(bytes: Seq<u8>, i: int) -> i64 {
    (le_value(bytes.subrange(8 * i, 8 * i + 8)) as u64) as i64
}

/// `count` `i64` values read from an `.npy` payload. Refused, as an I/O
/// error, when the payload holds fewer than `count` values.
pub fn decode_i64_payload(bytes: &[u8], count: usize) -> (res: Result<Vec<i64>>)
    ensures
        res is Ok <==> count * 8 <= bytes@.len(),
        res matches Ok(values) ==> values@.len() == count && forall|i: int|
            0 <= i < count ==> #[trigger] values@[i] == i64_at(bytes@, i),
        res matches Err(e) ==> e is Io,
{
    if bytes.len() / 8 < count {
        return Err(io_error("failed to read npy i64 data"));
    }
    let mut values: Vec<i64> = Vec::new();
    let mut i: usize = 0;
    while i < count
        invariant
            i <= count,
            count * 8 <= bytes@.len(),
            bytes@.len() == bytes.len(),
            values@.len() == i,
            forall|j: int| 0 <= j < i ==> #[trigger] values@[j] == i64_at(bytes@, j),
        decreases count - i,
    {
        assert(i * 8 + 8 <= count * 8) by (nonlinear_arith)
            requires
                i < count,
        ;
        let base = i * 8;
        let b0 = bytes[base] as u64;
        let b1 = bytes[base + 1] as u64;
        let b2 = bytes[base + 2] as u64;
        let b3 = bytes[base + 3] as u64;
        let b4 = bytes[base + 4] as u64;
        let b5 = bytes[base + 5] as u64;
        let b6 = bytes[base + 6] as u64;
        let b7 = bytes[base + 7] as u64;
        let v: u64 = b0 | (b1 << 8u64) | (b2 << 16u64) | (b3 << 24u64) | (b4 << 32u64) | (b5 << 40u64) | (b6
            << 48u64) | (b7 << 56u64);
        proof {
            let chunk = bytes@.subrange(base as int, base + 8);
            lemma_le_value_8(chunk);
            assert(v as nat == b0 + 256 * (b1 + 256 * (b2 + 256 * (b3 + 256 * (b4 + 256 * (b5 + 256 * (b6 + 256
                * b7))))))) by (bit_vector)
                requires
                    b0 < 256,
                    b1 < 256,
                    b2 < 256,
                    b3 < 256,
                    b4 < 256,
                    b5 < 256,
                    b6 < 256,
                    b7 < 256,
                    v == b0 | (b1 << 8u64) | (b2 << 16u64) | (b3 << 24u64) | (b4 << 32u64) | (b5 << 40u64) | (
                    b6 << 48u64) | (b7 << 56u64),
            ;
        }
        values.push(#[verifier::truncate] (v as i64));
        i = i + 1;
    }
    Ok(values)
}

/// The value of eight bytes, unfolded.
pub(crate) proof fn lemma_le_value_8(c: Seq<u8>)
    requires
        c.len() == 8,
    ensures
        le_value(c) == c[0] + 256 * (c[1] + 256 * (c[2] + 256 * (c[3] + 256 * (c[4] + 256 * (c[5] + 256 * (c[6]
            + 256 * c[7])))))),
{
    reveal_with_fuel(le_value, 9);
    let d1 = c.drop_first();
    let d2 = d1.drop_first();
    let d3 = d2.drop_first();
    let d4 = d3.drop_first();
    let d5 = d4.drop_first();
    let d6 = d5.drop_first();
    let d7 = d6.drop_first();
    let d8 = d7.drop_first();
    assert(d8 =~= Seq::<u8>::empty());
    assert(d7[0] == c[7]);
    assert(d6[0] == c[6]);
    assert(d5[0] == c[5]);
    assert(d4[0] == c[4]);
    assert(d3[0] == c[3]);
    assert(d2[0] == c[2]);
    assert(d1[0] == c[1]);
}

/// Bool values as an `.npy` payload: one byte each, 1 for true.
pub fn encode_bool_payload(values: &[bool]) -> (bytes: Vec<u8>)
    ensures
        bytes@ == values@.map_values(|b: bool| if b { 1u8 } else { 0u8 }),
{
    let mut bytes: Vec<u8> = Vec::new();
    let mut i: usize = 0;
    while i < values.len()
        invariant
            i <= values@.len(),
            bytes@ == values@.take(i as int).map_values(|b: bool| if b { 1u8 } else { 0u8 }),
        decreases values@.len() - i,
    {
        bytes.push(if values[i] { 1u8 } else { 0u8 });
        assert(values@.take(i + 1).map_values(|b: bool| if b { 1u8 } else { 0u8 }) =~= values@.take(
            i as int,
        ).map_values(|b: bool| if b { 1u8 } else { 0u8 }).push(if values@[i as int] { 1u8 } else { 0u8 }));
        i = i + 1;
    }
    assert(values@.take(values@.len() as int) =~= values@);
    bytes
}

/// Bool values read from an `.npy` payload: any non-zero byte is true.
/// Refused, as an I/O error, when the payload holds fewer than `count` bytes.
pub fn decode_bool_payload(bytes: &[u8], count: usize) -> (res: Result<Vec<bool>>)
    ensures
        res is Ok <==> count <= bytes@.len(),
        res matches Ok(values) ==> values@ == bytes@.take(count as int).map_values(|b: u8| b != 0),
        res matches Err(e) ==> e is Io,
{
    if bytes.len() < count {
        return Err(io_error("failed to read npy bool data"));
    }
    let mut values: Vec<bool> = Vec::new();
    let mut i: usize = 0;
    while i < count
        invariant
            i <= count,
            count <= bytes@.len(),
            values@ == bytes@.take(i as int).map_values(|b: u8| b != 0),
        decreases count - i,
    {
        values.push(bytes[i] != 0);
        assert(bytes@.take(i + 1).map_values(|b: u8| b != 0) =~= bytes@.take(i as int).map_values(
            |b: u8| b != 0,
        ).push(bytes@[i as int] != 0));
        i = i + 1;
    }
    Ok(values)
}

// ---------------------------------------------------------------------------
// Reading: the header dictionary
// ---------------------------------------------------------------------------

/// Value of the quoted entry that follows the first occurrence of `field`:
/// skip to the next `:`, then white space, then a `'` or `"` opens the value,
/// which runs to the next occurrence of the same quote. `None` when any
/// step finds nothing.
pub open spec fn quoted_field_spec(h: Seq<char>, field: Seq<char>) -> Option<Seq<char>> {
    match find_spec(h, field) {
        None => None,
        Some(p) => {
            let after_field = h.subrange(p + field.len(), h.len() as int);
            match find_spec(after_field, seq![':']) {
                None => None,
                Some(c) => {
                    let after_colon = trim_start(after_field.subrange(c + 1, after_field.len() as int));
                    if after_colon.len() == 0 {
                        None
                    } else if after_colon[0] != '\'' && after_colon[0] != '"' {
                        None
                    } else {
                        let rest = after_colon.drop_first();
                        match find_spec(rest, seq![after_colon[0]]) {
                            None => None,
                            Some(e) => Some(rest.take(e)),
                        }
                    }
                },
            }
        },
    }
}

/// The refusal of a quoted header entry that cannot be read, for each way
/// `quoted_field_spec` fails.
pub open spec fn quoted_field_refusal(h: Seq<char>, field: Seq<char>) -> Seq<char> {
    let name = debug_quoted(field);
    match find_spec(h, field) {
        None => "missing npy header field "@ + name,
        Some(p) => {
            let after_field = h.subrange(p + field.len(), h.len() as int);
            match find_spec(after_field, seq![':']) {
                None => "missing ':' after field "@ + name,
                Some(c) => {
                    let after_colon = trim_start(after_field.subrange(c + 1, after_field.len() as int));
                    if after_colon.len() == 0 {
                        "empty value for npy field "@ + name
                    } else if after_colon[0] != '\'' && after_colon[0] != '"' {
                        "expected quoted value for npy field "@ + name
                    } else {
                        "unterminated quoted npy field "@ + name
                    }
                },
            }
        },
    }
}

fn field_error(prefix: &str, field: &str) -> (e: TensorError)
    ensures
        e is Io,
        e.message_spec() == prefix@ + debug_quoted(field@),
{
    let mut message = String::from_str(prefix);
    push_debug_quoted(&mut message, field);
    TensorError::Io(message)
}

proof fn lemma_subrange_of_subrange(s: Seq<char>, a: int, b: int)
    requires
        0 <= a <= s.len(),
        0 <= b <= s.len() - a,
    ensures
        s.subrange(a, s.len() as int).subrange(b, s.len() - a) == s.subrange(a + b, s.len() as int),
{
    assert(s.subrange(a, s.len() as int).subrange(b, s.len() - a) =~= s.subrange(a + b, s.len() as int));
}

/// The value of a quoted header entry and the position in `h` where it
/// starts; every failure is an I/O error naming the field.
#[verifier::spinoff_prover]
#[verifier::rlimit(40)]
pub fn parse_quoted_field(h: &Vec<char>, field: &str) -> (res: Result<(Vec<char>, usize)>)
    ensures
        res is Ok <==> quoted_field_spec(h@, field@) is Some,
        res matches Ok(r) ==> quoted_field_spec(h@, field@) == Some(r.0@) && r.1 + r.0@.len() <= h@.len()
            && r.0@ == h@.subrange(r.1 as int, r.1 + r.0@.len()),
        res matches Err(e) ==> e is Io && e.message_spec() == quoted_field_refusal(h@, field@),
{
    let ghost hs = h@;
    let n = h.len();
    assert(hs.subrange(0, hs.len() as int) =~= hs);
    let f = chars_of(field);
    let p = match find_chars(h, &f, 0) {
        Some(p) => p,
        None => {
            return Err(field_error("missing npy header field ", field));
        },
    };
    proof {
        crate::text::lemma_find_spec(hs, f@);
    }
    let a = p + f.len();
    let colon: Vec<char> = vec![':'];
    assert(colon@ =~= seq![':']);
    let c = match find_chars(h, &colon, a) {
        Some(c) => c,
        None => {
            return Err(field_error("missing ':' after field ", field));
        },
    };
    let ghost after_field = hs.subrange(a as int, hs.len() as int);
    proof {
        crate::text::lemma_find_spec(after_field, seq![':']);
        lemma_subrange_of_subrange(hs, a as int, c + 1);
    }
    let start = a + c + 1;
    let mut q = start;
    while q < n && char_is_whitespace(h[q])
        invariant
            start <= q <= n,
            n == hs.len(),
            hs == h@,
            forall|k: int| start <= k < q ==> is_white_space(#[trigger] hs[k]),
        decreases n - q,
    {
        q = q + 1;
    }
    proof {
        let u = hs.subrange(start as int, hs.len() as int);
        assert forall|k: int| 0 <= k < q - start implies is_white_space(#[trigger] u[k]) by {
            assert(u[k] == hs[start + k]);
        }
        lemma_trim_start_skip(u, q - start);
        assert(u.skip(q - start) =~= hs.subrange(q as int, hs.len() as int));
        let w = hs.subrange(q as int, hs.len() as int);
        if w.len() > 0 {
            assert(w[0] == hs[q as int]);
        }
        assert(trim_start(w) == w);
    }
    if q >= n {
        return Err(field_error("empty value for npy field ", field));
    }
    let quote = h[q];
    if quote != '\'' && quote != '"' {
        return Err(field_error("expected quoted value for npy field ", field));
    }
    let quote_pat: Vec<char> = vec![quote];
    assert(quote_pat@ =~= seq![quote]);
    let e = match find_chars(h, &quote_pat, q + 1) {
        Some(e) => e,
        None => {
            proof {
                assert(hs.subrange(q as int, hs.len() as int).drop_first() =~= hs.subrange(q + 1, hs.len() as int));
            }
            return Err(field_error("unterminated quoted npy field ", field));
        },
    };
    let ghost rest = hs.subrange(q + 1, hs.len() as int);
    proof {
        assert(hs.subrange(q as int, hs.len() as int).drop_first() =~= rest);
        crate::text::lemma_find_spec(rest, seq![quote]);
    }
    let mut value: Vec<char> = Vec::new();
    let mut k: usize = 0;
    while k < e
        invariant
            k <= e,
            e < rest.len(),
            q < n,
            n == hs.len(),
            rest == hs.subrange(q + 1, hs.len() as int),
            hs == h@,
            value@ == rest.take(k as int),
        decreases e - k,
    {
        assert(rest[k as int] == hs[q + 1 + k]);
        value.push(h[q + 1 + k]);
        assert(value@ =~= rest.take(k + 1));
        k = k + 1;
    }
    assert(value@ =~= hs.subrange(q + 1, q + 1 + e));
    Ok((value, q + 1))
}

/// The text between the parentheses that follow the first `shape`, trimmed.
pub open spec fn shape_body_spec(h: Seq<char>) -> Option<Seq<char>> {
    match find_spec(h, "shape"@) {
        None => None,
        Some(p) => {
            let after_shape = h.subrange(p, h.len() as int);
            match find_spec(after_shape, "("@) {
                None => None,
                Some(o) => {
                    let after_open = after_shape.subrange(o + 1, after_shape.len() as int);
                    match find_spec(after_open, ")"@) {
                        None => None,
                        Some(c) => Some(trim(after_open.take(c))),
                    }
                },
            }
        },
    }
}

/// Pieces of `s` between commas, as `str::split(',')` yields them.
pub open spec fn split_commas(s: Seq<char>) -> Seq<Seq<char>>
    decreases s.len(),
{
    match find_spec(s, seq![',']) {
        None => seq![s],
        Some(i) => if 0 <= i < s.len() {
            seq![s.take(i)] + split_commas(s.skip(i + 1))
        } else {
            seq![s]
        },
    }
}

/// Value of a run of decimal digits.
pub open spec fn digits_value(d: Seq<char>) -> nat
    decreases d.len(),
{
    if d.len() == 0 {
        0
    } else {
        digits_value(d.drop_last()) * 10 + ((d.last() as int) - ('0' as int)) as nat
    }
}

pub open spec fn all_digits(d: Seq<char>) -> bool {
    forall|i: int| 0 <= i < d.len() ==> '0' <= #[trigger] d[i] && d[i] <= '9'
}

/// `usize::from_str`: an optional `+`, at least one digit, only digits, and
/// a value that fits.
pub open spec fn parse_usize_spec(p: Seq<char>) -> Option<usize> {
    let d = if p.len() > 0 && p[0] == '+' { p.drop_first() } else { p };
    if d.len() > 0 && all_digits(d) && digits_value(d) <= usize::MAX {
        Some(digits_value(d) as usize)
    } else {
        None
    }
}

/// Dimensions read from comma-separated pieces: blank pieces are skipped,
/// every other piece must parse as a `usize` once trimmed.
pub open spec fn dims_from_parts(parts: Seq<Seq<char>>) -> Option<Seq<usize>>
    decreases parts.len(),
{
    if parts.len() == 0 {
        Some(Seq::empty())
    } else {
        match dims_from_parts(parts.drop_last()) {
            None => None,
            Some(d) => {
                let t = trim(parts.last());
                if t.len() == 0 {
                    Some(d)
                } else {
                    match parse_usize_spec(t) {
                        None => None,
                        Some(v) => Some(d.push(v)),
                    }
                }
            },
        }
    }
}

/// The dimensions listed in a shape body: none for an empty body.
pub open spec fn dims_spec(body: Seq<char>) -> Option<Seq<usize>> {
    if body.len() == 0 {
        Some(Seq::empty())
    } else {
        dims_from_parts(split_commas(body))
    }
}

proof fn lemma_digits_value_prefix(d: Seq<char>, k: int)
    requires
        0 <= k <= d.len(),
    ensures
        digits_value(d.take(k)) <= digits_value(d),
    decreases d.len() - k,
{
    if k < d.len() {
        lemma_digits_value_prefix(d, k + 1);
        assert(d.take(k + 1).drop_last() =~= d.take(k));
    } else {
        assert(d.take(k) =~= d);
    }
}

/// Parses one trimmed shape entry the way `usize::from_str` does.
pub fn parse_dim(p: &Vec<char>) -> (r: Option<usize>)
    ensures
        r == parse_usize_spec(p@),
{
    let start: usize = if p.len() > 0 && p[0] == '+' { 1 } else { 0 };
    let ghost d = if p@.len() > 0 && p@[0] == '+' { p@.drop_first() } else { p@ };
    assert(d =~= p@.subrange(start as int, p@.len() as int));
    if start >= p.len() {
        assert(d.len() == 0);
        return None;
    }
    let mut acc: usize = 0;
    let mut i: usize = start;
    while i < p.len()
        invariant
            start <= i <= p@.len(),
            d == p@.subrange(start as int, p@.len() as int),
            d == (if p@.len() > 0 && p@[0] == '+' { p@.drop_first() } else { p@ }),
            forall|k: int| start <= k < i ==> '0' <= #[trigger] p@[k] && p@[k] <= '9',
            acc == digits_value(d.take(i - start)),
        decreases p@.len() - i,
    {
        let c = p[i];
        if c < '0' || c > '9' {
            proof {
                assert(d[i - start] == c);
            }
            return None;
        }
        let digit = (c as u32 - '0' as u32) as usize;
        proof {
            let nd = d.take(i - start + 1);
            assert(nd.drop_last() =~= d.take(i - start));
            assert(nd.last() == c);
            assert(d[i - start] == c);
            assert(digits_value(nd) == acc * 10 + digit);
            lemma_digits_value_prefix(d, i - start + 1);
        }
        let times = match acc.checked_mul(10) {
            Some(v) => v,
            None => {
                assert(digits_value(d) > usize::MAX);
                return None;
            },
        };
        acc = match times.checked_add(digit) {
            Some(v) => v,
            None => {
                assert(digits_value(d) > usize::MAX);
                return None;
            },
        };
        i = i + 1;
    }
    proof {
        assert(d.take(d.len() as int) =~= d);
        assert forall|k: int| 0 <= k < d.len() implies '0' <= #[trigger] d[k] && d[k] <= '9' by {
            assert(d[k] == p@[start + k]);
        }
    }
    Some(acc)
}

proof fn lemma_split_commas_step(s: Seq<char>)
    ensures
        find_spec(s, seq![',']) is None ==> split_commas(s) == seq![s],
        find_spec(s, seq![',']) matches Some(i) ==> 0 <= i < s.len() && split_commas(s) == seq![s.take(i)]
            + split_commas(s.skip(i + 1)),
{
    crate::text::lemma_find_spec(s, seq![',']);
}

/// Dimensions listed in a shape body; an entry that is not a `usize` is a
/// shape error.
pub fn parse_dims(body: &Vec<char>) -> (res: Result<Vec<usize>>)
    ensures
        res is Ok <==> dims_spec(body@) is Some,
        res matches Ok(d) ==> dims_spec(body@) == Some(d@),
        res matches Err(e) ==> e is Shape,
{
    let mut dims: Vec<usize> = Vec::new();
    if body.len() == 0 {
        return Ok(dims);
    }
    let comma: Vec<char> = vec![','];
    assert(comma@ =~= seq![',']);
    let ghost b = body@;
    let n = body.len();
    let mut pos: usize = 0;
    let ghost mut done_parts: Seq<Seq<char>> = Seq::empty();
    let mut finished = false;
    assert(b.subrange(0, b.len() as int) =~= b);
    assert(Seq::<Seq<char>>::empty() + split_commas(b) =~= split_commas(b));
    while !finished
        invariant
            pos <= b.len(),
            n == b.len(),
            b == body@,
            comma@ == seq![','],
            !finished ==> split_commas(b) == done_parts + split_commas(b.subrange(pos as int, b.len() as int)),
            finished ==> split_commas(b) == done_parts,
            dims_from_parts(done_parts) == Some(dims@),
        decreases b.len() - pos, (if finished { 0int } else { 1int }),
    {
        let ghost tail = b.subrange(pos as int, b.len() as int);
        proof {
            lemma_split_commas_step(tail);
        }
        let seg_end = match find_chars(body, &comma, pos) {
            Some(i) => pos + i,
            None => body.len(),
        };
        let (ts, te) = trim_bounds(body, pos, seg_end);
        let ghost segment = b.subrange(pos as int, seg_end as int);
        let ghost next_parts = done_parts.push(segment);
        let ghost later = if seg_end < b.len() {
            split_commas(b.subrange(seg_end + 1, b.len() as int))
        } else {
            Seq::<Seq<char>>::empty()
        };
        proof {
            assert(next_parts.drop_last() =~= done_parts);
            assert(next_parts.last() == segment);
            if seg_end < b.len() {
                assert(tail.take(seg_end - pos) =~= segment);
                assert(tail.skip(seg_end - pos + 1) =~= b.subrange(seg_end + 1, b.len() as int));
                assert(split_commas(tail) == seq![segment] + later);
                assert(done_parts + (seq![segment] + later) =~= next_parts + later);
            } else {
                assert(tail =~= segment);
                assert(split_commas(tail) == seq![segment]);
                assert(done_parts + seq![segment] =~= next_parts);
                assert(next_parts + later =~= next_parts);
            }
            assert(split_commas(b) == next_parts + later);
        }
        if ts < te {
            let mut piece: Vec<char> = Vec::new();
            let mut k: usize = ts;
            while k < te
                invariant
                    ts <= k <= te,
                    te <= b.len(),
                    b == body@,
                    piece@ == b.subrange(ts as int, k as int),
                decreases te - k,
            {
                piece.push(body[k]);
                assert(piece@ =~= b.subrange(ts as int, k + 1));
                k = k + 1;
            }
            match parse_dim(&piece) {
                Some(v) => {
                    dims.push(v);
                },
                None => {
                    proof {
                        lemma_dims_from_parts_prefix_none(split_commas(b), done_parts, next_parts, later);
                    }
                    return Err(shape_error("invalid npy shape dimension"));
                },
            }
        }
        proof {
            done_parts = next_parts;
        }
        if seg_end < body.len() {
            pos = seg_end + 1;
        } else {
            finished = true;
        }
    }
    Ok(dims)
}

/// A parts list whose prefix already fails to parse fails as a whole.
proof fn lemma_dims_from_parts_prefix_none(
    all: Seq<Seq<char>>,
    before: Seq<Seq<char>>,
    prefix: Seq<Seq<char>>,
    rest: Seq<Seq<char>>,
)
    requires
        prefix.len() > 0,
        prefix.drop_last() == before,
        dims_from_parts(before) is Some,
        trim(prefix.last()).len() > 0,
        parse_usize_spec(trim(prefix.last())) is None,
        all == prefix + rest,
    ensures
        dims_from_parts(all) is None,
{
    assert(dims_from_parts(prefix) is None);
    lemma_dims_none_extends(prefix, rest);
}

proof fn lemma_dims_none_extends(prefix: Seq<Seq<char>>, rest: Seq<Seq<char>>)
    requires
        dims_from_parts(prefix) is None,
    ensures
        dims_from_parts(prefix + rest) is None,
    decreases rest.len(),
{
    if rest.len() == 0 {
        assert(prefix + rest =~= prefix);
    } else {
        lemma_dims_none_extends(prefix, rest.drop_last());
        assert((prefix + rest).drop_last() =~= prefix + rest.drop_last());
    }
}

/// The C-order flag must be present and false.
pub open spec fn c_order_spec(h: Seq<char>) -> bool {
    find_spec(h, "'fortran_order': False"@) is Some || find_spec(h, "\"fortran_order\": False"@) is Some
        || find_spec(h, "\"fortran_order\": false"@) is Some
}

fn contains_chars(h: &Vec<char>, pat: &str) -> (b: bool)
    ensures
        b == (find_spec(h@, pat@) is Some),
{
    assert(h@.subrange(0, h@.len() as int) =~= h@);
    let p = chars_of(pat);
    match find_chars(h, &p, 0) {
        Some(_) => true,
        None => false,
    }
}

/// The dtype named by a header's `descr` entry.
pub open spec fn header_dtype_spec(h: Seq<char>) -> Option<DType> {
    match quoted_field_spec(h, "descr"@) {
        Some(d) => dtype_for_descr(d),
        None => None,
    }
}

/// The dimensions listed by a header's shape entry.
pub open spec fn header_dims_spec(h: Seq<char>) -> Option<Seq<usize>> {
    match shape_body_spec(h) {
        Some(body) => dims_spec(body),
        None => None,
    }
}

/// Dtype and shape of an `.npy` header. A missing or malformed field is an
/// I/O error, an unsupported descriptor a dtype error, Fortran order an
/// invalid operation, and a bad dimension a shape error; checks run in that
/// order.
pub fn parse_header(header: &str) -> (res: Result<(DType, Vec<usize>)>)
    ensures
        res is Ok <==> header_dtype_spec(header@) is Some && c_order_spec(header@) && header_dims_spec(
            header@,
        ) is Some,
        res matches Ok(r) ==> header_dtype_spec(header@) == Some(r.0) && header_dims_spec(header@) == Some(
            r.1@,
        ),
        res matches Err(e) ==> (e is DType <==> quoted_field_spec(header@, "descr"@) is Some
            && header_dtype_spec(header@) is None),
        res matches Err(e) ==> (e is InvalidOperation <==> header_dtype_spec(header@) is Some
            && !c_order_spec(header@)),
        res matches Err(e) ==> e is Io || e is DType || e is InvalidOperation || e is Shape,
        quoted_field_spec(header@, "descr"@) is None ==> (res matches Err(e) && e.message_spec()
            == quoted_field_refusal(header@, "descr"@)),
        res matches Err(e) ==> (e is DType ==> e.message_spec() == descr_refusal(
            quoted_field_spec(header@, "descr"@)->0,
        )),
{
    let h = chars_of(header);
    let parsed = parse_quoted_field(&h, "descr");
    let (descr, descr_start) = match parsed {
        Ok(d) => d,
        Err(e) => {
            return Err(e);
        },
    };
    let h_len = h.len();
    assert(descr_start + descr@.len() <= h_len);
    let dtype = match dtype_from_descr_chars(&descr) {
        Ok(d) => d,
        Err(_) => {
            let mut message = String::from_str("read_npy supports little-endian f32/f64/i64 and bool, got descr ");
            push_debug_quoted_range(&mut message, header, descr_start, descr_start + descr.len());
            return Err(TensorError::DType(message));
        },
    };
    if !contains_chars(&h, "'fortran_order': False") && !contains_chars(&h, "\"fortran_order\": False")
        && !contains_chars(&h, "\"fortran_order\": false") {
        return Err(invalid_operation("read_npy supports only C-order arrays"));
    }
    let body = match shape_body(&h) {
        Ok(b) => b,
        Err(e) => {
            return Err(e);
        },
    };
    match parse_dims(&body) {
        Ok(dims) => Ok((dtype, dims)),
        Err(e) => Err(e),
    }
}

fn dtype_from_descr_chars(descr: &Vec<char>) -> (res: Result<DType>)
    ensures
        res is Ok <==> dtype_for_descr(descr@) is Some,
        res matches Ok(d) ==> dtype_for_descr(descr@) == Some(d),
        res matches Err(e) ==> e is DType,
{
    if chars_equal(descr, "<f4") || chars_equal(descr, "|f4") {
        Ok(DType::F32)
    } else if chars_equal(descr, "<f8") || chars_equal(descr, "|f8") {
        Ok(DType::F64)
    } else if chars_equal(descr, "<i8") {
        Ok(DType::I64)
    } else if chars_equal(descr, "|b1") || chars_equal(descr, "?") {
        Ok(DType::Bool)
    } else {
        Err(dtype_error("read_npy supports little-endian f32/f64/i64 and bool"))
    }
}

fn chars_equal(v: &Vec<char>, s: &str) -> (b: bool)
    ensures
        b == (v@ == s@),
{
    let w = chars_of(s);
    if v.len() != w.len() {
        return false;
    }
    let mut i: usize = 0;
    while i < v.len()
        invariant
            i <= v@.len(),
            v@.len() == w@.len(),
            w@ == s@,
            forall|k: int| 0 <= k < i ==> v@[k] == w@[k],
        decreases v@.len() - i,
    {
        if v[i] != w[i] {
            return false;
        }
        i = i + 1;
    }
    assert(v@ =~= w@);
    true
}

/// The trimmed shape body of a header; a missing part is an I/O error.
#[verifier::spinoff_prover]
#[verifier::rlimit(40)]
fn shape_body(h: &Vec<char>) -> (res: Result<Vec<char>>)
    ensures
        res is Ok <==> shape_body_spec(h@) is Some,
        res matches Ok(b) ==> shape_body_spec(h@) == Some(b@),
        res matches Err(e) ==> e is Io,
{
    let ghost hs = h@;
    assert(hs.subrange(0, hs.len() as int) =~= hs);
    proof {
        reveal_strlit("shape");
        reveal_strlit("(");
        reveal_strlit(")");
    }
    let n = h.len();
    let shape_pat = chars_of("shape");
    let p = match find_chars(h, &shape_pat, 0) {
        Some(p) => p,
        None => {
            return Err(io_error("missing npy shape field"));
        },
    };
    proof {
        crate::text::lemma_find_spec(hs, "shape"@);
    }
    let open_pat = chars_of("(");
    let o = match find_chars(h, &open_pat, p) {
        Some(o) => o,
        None => {
            return Err(io_error("missing '(' in npy shape"));
        },
    };
    let ghost after_shape = hs.subrange(p as int, hs.len() as int);
    proof {
        crate::text::lemma_find_spec(after_shape, "("@);
        lemma_subrange_of_subrange(hs, p as int, o + 1);
    }
    let close_pat = chars_of(")");
    let c = match find_chars(h, &close_pat, p + o + 1) {
        Some(c) => c,
        None => {
            return Err(io_error("missing ')' in npy shape"));
        },
    };
    let ghost after_open = hs.subrange(p + o + 1, hs.len() as int);
    proof {
        crate::text::lemma_find_spec(after_open, ")"@);
        assert(after_open.take(c as int) =~= hs.subrange(p + o + 1, p + o + 1 + c));
    }
    let (bs, be) = trim_bounds(h, p + o + 1, p + o + 1 + c);
    let mut body: Vec<char> = Vec::new();
    let mut k: usize = bs;
    while k < be
        invariant
            bs <= k <= be,
            be <= hs.len(),
            hs == h@,
            body@ == hs.subrange(bs as int, k as int),
        decreases be - k,
    {
        body.push(h[k]);
        assert(body@ =~= hs.subrange(bs as int, k + 1));
        k = k + 1;
    }
    Ok(body)
}

} // verus!
