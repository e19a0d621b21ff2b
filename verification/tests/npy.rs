use heirloom::npy::{
    decode_bool_payload, decode_i64_payload, descr_for_dtype, dtype_from_descr, encode_bool_payload, encode_i64_payload,
    npy_element_count, npy_header, npy_header_span, npy_preamble, parse_header, shape_tuple,
    NpyHeaderSpan,
};
use heirloom::{DType, Device, TensorError};

#[test]
fn shape_tuples_use_python_syntax() {
    assert_eq!(shape_tuple(&[]), "()");
    assert_eq!(shape_tuple(&[5]), "(5,)");
    assert_eq!(shape_tuple(&[2, 3, 40]), "(2, 3, 40)");
}

#[test]
fn header_is_padded_to_sixteen_bytes() {
    let header = npy_header(DType::F32, &[2, 3]);
    assert!(header.starts_with("{'descr': '<f4', 'fortran_order': False, 'shape': (2, 3), }"));
    assert!(header.ends_with('\n'));
    assert_eq!(header.len(), 70);
    assert_eq!((10 + header.len()) % 16, 0);
    let scalar = npy_header(DType::I64, &[]);
    assert_eq!((10 + scalar.len()) % 16, 0);
}

#[test]
fn preamble_holds_magic_version_length_and_header() {
    let bytes = npy_preamble(DType::F64, Device::Cpu, &[4]).unwrap();
    assert_eq!(&bytes[..8], &[0x93, b'N', b'U', b'M', b'P', b'Y', 1, 0]);
    let header = npy_header(DType::F64, &[4]);
    assert_eq!(u16::from_le_bytes([bytes[8], bytes[9]]) as usize, header.len());
    assert_eq!(&bytes[10..], header.as_bytes());
    assert!(matches!(npy_preamble(DType::F32, Device::Cuda(0), &[1]), Err(TensorError::InvalidOperation(_))));
    assert!(matches!(npy_preamble(DType::BFloat16, Device::Cpu, &[1]), Err(TensorError::DType(_))));
}

#[test]
fn written_headers_read_back() {
    for dtype in [DType::F32, DType::F64, DType::I64, DType::Bool] {
        for shape in [vec![], vec![7], vec![2, 3], vec![1, 0, 12]] {
            let header = npy_header(dtype, &shape);
            let (read_dtype, read_shape) = parse_header(&header).unwrap();
            assert_eq!(read_dtype, dtype);
            assert_eq!(read_shape, shape);
        }
    }
}

#[test]
fn header_parsing_matches_numpy_forms() {
    let numpy = "{'descr': '|b1', 'fortran_order': False, 'shape': (3, 1, +2, ), }";
    assert_eq!(parse_header(numpy).unwrap(), (DType::Bool, vec![3, 1, 2]));
    let json_style = "{\"descr\": \"<f8\", \"fortran_order\": false, \"shape\": ( 4 ,5)}";
    assert_eq!(parse_header(json_style).unwrap(), (DType::F64, vec![4, 5]));
    assert!(matches!(
        parse_header("{'descr': '<u4', 'fortran_order': False, 'shape': (1,), }"),
        Err(TensorError::DType(_))
    ));
    assert!(matches!(
        parse_header("{'descr': '<f4', 'fortran_order': True, 'shape': (1,), }"),
        Err(TensorError::InvalidOperation(_))
    ));
    assert!(matches!(
        parse_header("{'fortran_order': False, 'shape': (1,), }"),
        Err(TensorError::Io(_))
    ));
    assert!(matches!(
        parse_header("{'descr': '<f4', 'fortran_order': False, 'shape': (1, x), }"),
        Err(TensorError::Shape(_))
    ));
    assert!(matches!(
        parse_header("{'descr': '<f4', 'fortran_order': False, 'shape': (99999999999999999999999,), }"),
        Err(TensorError::Shape(_))
    ));
    assert!(matches!(
        parse_header("{'descr': '<f4', 'fortran_order': False, 'shape': 3 }"),
        Err(TensorError::Io(_))
    ));
    assert_eq!(dtype_from_descr("?").unwrap(), DType::Bool);
    assert_eq!(descr_for_dtype(DType::BFloat16), "|V2");
}

#[test]
fn preamble_spans_follow_versions() {
    let mut v1 = vec![0x93, b'N', b'U', b'M', b'P', b'Y', 1, 0, 3, 0];
    v1.extend_from_slice(b"abc");
    assert_eq!(npy_header_span(&v1).unwrap(), NpyHeaderSpan { start: 10, len: 3 });
    let mut v2 = vec![0x93, b'N', b'U', b'M', b'P', b'Y', 2, 0, 2, 0, 0, 0];
    v2.extend_from_slice(b"ab");
    assert_eq!(npy_header_span(&v2).unwrap(), NpyHeaderSpan { start: 12, len: 2 });
    assert!(matches!(npy_header_span(&v1[..9]), Err(TensorError::Io(_))));
    let mut bad_magic = v1.clone();
    bad_magic[1] = b'X';
    assert!(npy_header_span(&bad_magic).is_err());
    let mut v9 = v1.clone();
    v9[6] = 9;
    assert!(npy_header_span(&v9).is_err());
    assert!(npy_header_span(&v1[..12]).is_err());
}

#[test]
fn integer_and_bool_payloads() {
    assert_eq!(encode_i64_payload(&[1, -1]), vec![1, 0, 0, 0, 0, 0, 0, 0, 255, 255, 255, 255, 255, 255, 255, 255]);
    assert_eq!(encode_bool_payload(&[true, false, true]), vec![1, 0, 1]);
    assert_eq!(decode_bool_payload(&[0, 2, 1], 3).unwrap(), vec![false, true, true]);
    assert!(decode_bool_payload(&[0], 2).is_err());
    assert_eq!(npy_element_count(&[2, 3, 4]).unwrap(), 24);
    assert!(matches!(npy_element_count(&[usize::MAX, 2]), Err(TensorError::Io(_))));
}

#[test]
fn i64_payloads_read_back() {
    let values = vec![0i64, -1, 42, i64::MIN, i64::MAX, 0x0102_0304_0506_0708];
    let bytes = encode_i64_payload(&values);
    assert_eq!(bytes.len(), values.len() * 8);
    assert_eq!(&bytes[16..24], &42i64.to_le_bytes());
    assert_eq!(decode_i64_payload(&bytes, values.len()).unwrap(), values);
    assert_eq!(decode_i64_payload(&bytes, 2).unwrap(), vec![0, -1]);
    assert!(matches!(decode_i64_payload(&bytes[..15], 2), Err(TensorError::Io(_))));
}

#[test]
fn npy_refusals_carry_the_values() {
    let message = |h: &str| parse_header(h).unwrap_err().message().to_string();
    assert_eq!(message("{'shape': (1,), }"), "missing npy header field \"descr\"");
    assert_eq!(message("{'descr' '<f4'}"), "missing ':' after field \"descr\"");
    assert_eq!(message("{'descr':   "), "empty value for npy field \"descr\"");
    assert_eq!(message("{'descr': <f4, }"), "expected quoted value for npy field \"descr\"");
    assert_eq!(message("{'descr': '<f4, }"), "unterminated quoted npy field \"descr\"");
    assert_eq!(
        message("{'descr': '>é4', 'fortran_order': False, 'shape': (1,), }"),
        "read_npy supports little-endian f32/f64/i64 and bool, got descr \">é4\""
    );
    assert_eq!(
        dtype_from_descr("<u4").unwrap_err().message(),
        "read_npy supports little-endian f32/f64/i64 and bool, got descr \"<u4\""
    );
    assert_eq!(
        npy_preamble(DType::F32, Device::Cuda(0), &[2]).unwrap_err().message(),
        "write_npy supports only CPU tensors, got Cuda(0)"
    );
    assert_eq!(
        npy_preamble(DType::BFloat16, Device::Cpu, &[2]).unwrap_err().message(),
        "write_npy does not support Heirloom BFloat16 tensors yet"
    );
    let mut bytes = b"\x93NUMPY\x04\x00".to_vec();
    bytes.extend_from_slice(&[0u8; 8]);
    assert_eq!(npy_header_span(&bytes).unwrap_err().message(), "unsupported npy version 4.0");
    let err = npy_element_count(&[usize::MAX, 2]).unwrap_err();
    assert_eq!(
        err.message(),
        format!("npy shape has an invalid element count: shape error: shape [{}, 2] overflows usize element count", usize::MAX)
    );
}
