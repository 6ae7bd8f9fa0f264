use nc2mongo::{decode_text, decode_variable, Dimension, Error, Leaf, StorageType, Value};

fn dim(name: &str, len: usize) -> Dimension {
    Dimension { name: name.to_string(), len }
}

fn doubles_to_le_bytes(xs: &[f64]) -> Vec<u8> {
    let mut out = Vec::new();
    for x in xs {
        out.extend_from_slice(&x.to_bits().to_le_bytes());
    }
    out
}

#[test]
fn double_variable_round_trips_without_precision_loss() {
    // A double-typed variable with dimensions [2, 3] and the readings
    // [[1,2,3],[4,5,6]] decodes to exactly that two-level nesting.
    let raw = doubles_to_le_bytes(&[1.0, 2.0, 3.0, 4.0, 5.0, 6.0]);
    let dims = vec![dim("N_PROF", 2), dim("N_LEVELS", 3)];
    let v = decode_variable(&StorageType::Double, &raw, &dims).unwrap();
    let rows = match v {
        Value::Array(rows) => rows,
        _ => panic!("expected outer array"),
    };
    assert_eq!(rows.len(), 2);
    let expected = [[1.0, 2.0, 3.0], [4.0, 5.0, 6.0]];
    for (i, row) in rows.iter().enumerate() {
        let cells = match row {
            Value::Array(cells) => cells,
            _ => panic!("expected inner array"),
        };
        assert_eq!(cells.len(), 3);
        for (j, cell) in cells.iter().enumerate() {
            match cell {
                Value::Scalar(Leaf::DoubleBits(b)) => {
                    assert_eq!(f64::from_bits(*b), expected[i][j]);
                }
                _ => panic!("expected double leaf"),
            }
        }
    }
}

#[test]
fn recognized_label_axis_collapses_to_one_scalar_string() {
    // One-dimensional text of width 8 under a recognized label name is a
    // single trimmed scalar string.
    let raw = b"ABC \0\0\0\0".to_vec();
    let v = decode_text(&raw, &vec![dim("STRING8", 8)]).unwrap();
    match v {
        Value::Scalar(Leaf::Text(s)) => assert_eq!(s, "ABC"),
        _ => panic!("expected bare scalar string"),
    }
}

#[test]
fn unrecognized_axis_stays_a_character_array() {
    // The same shape under an unrecognized name keeps one one-character
    // string per byte.
    let raw = b"ABC \0\0\0\0".to_vec();
    let v = decode_text(&raw, &vec![dim("N_SOMETHING", 8)]).unwrap();
    match v {
        Value::Array(vs) => {
            assert_eq!(vs.len(), 8);
            let expected = ["A", "B", "C", " ", "\0", "\0", "\0", "\0"];
            for (k, child) in vs.iter().enumerate() {
                match child {
                    Value::Scalar(Leaf::Text(s)) => assert_eq!(s, expected[k]),
                    _ => panic!("expected one-character string"),
                }
            }
        }
        _ => panic!("expected array"),
    }
}

#[test]
fn multi_dimensional_text_collapses_the_trailing_axis() {
    let raw = b"AA  BB\0\0".to_vec();
    let dims = vec![dim("N_PARAM", 2), dim("STRING4", 4)];
    let v = decode_text(&raw, &dims).unwrap();
    match v {
        Value::Array(vs) => {
            assert_eq!(vs.len(), 2);
            match (&vs[0], &vs[1]) {
                (Value::Scalar(Leaf::Text(a)), Value::Scalar(Leaf::Text(b))) => {
                    assert_eq!(a, "AA");
                    assert_eq!(b, "BB");
                }
                _ => panic!("expected two strings"),
            }
        }
        _ => panic!("expected array"),
    }
}

#[test]
fn text_width_outside_supported_set_is_fatal() {
    let raw = vec![0x41u8; 6];
    let r = decode_text(&raw, &vec![dim("STRING8", 6)]);
    assert!(matches!(r, Err(Error::DimensionMismatch)));
}

#[test]
fn text_buffer_length_mismatch_is_fatal() {
    let raw = vec![0x41u8; 7];
    let r = decode_text(&raw, &vec![dim("STRING8", 8)]);
    assert!(matches!(r, Err(Error::DimensionMismatch)));
}

#[test]
fn integers_decode_least_significant_byte_first() {
    let raw = vec![0x01, 0x00, 0xFF, 0xFF];
    let v = decode_variable(&StorageType::Short, &raw, &vec![dim("N", 2)]).unwrap();
    match v {
        Value::Array(vs) => {
            assert!(matches!(vs[0], Value::Scalar(Leaf::Int(1))));
            assert!(matches!(vs[1], Value::Scalar(Leaf::Int(-1))));
        }
        _ => panic!("expected array"),
    }
    let raw32 = vec![0x2A, 0x00, 0x00, 0x00];
    let v32 = decode_variable(&StorageType::Int, &raw32, &vec![dim("N", 1)]).unwrap();
    match v32 {
        Value::Array(vs) => assert!(matches!(vs[0], Value::Scalar(Leaf::Int(42)))),
        _ => panic!("expected array"),
    }
}

#[test]
fn unsigned_and_byte_tags_keep_their_ranges() {
    let raw = vec![0xFF];
    let v = decode_variable(&StorageType::UByte, &raw, &vec![dim("N", 1)]).unwrap();
    match v {
        Value::Array(vs) => assert!(matches!(vs[0], Value::Scalar(Leaf::UInt(255)))),
        _ => panic!("expected array"),
    }
    let v = decode_variable(&StorageType::Byte, &vec![0xFF], &vec![dim("N", 1)]).unwrap();
    match v {
        Value::Array(vs) => assert!(matches!(vs[0], Value::Scalar(Leaf::Int(-1)))),
        _ => panic!("expected array"),
    }
}

#[test]
fn unsupported_storage_type_degrades_to_null() {
    let raw = vec![1, 2, 3];
    let v = decode_variable(&StorageType::Other, &raw, &vec![dim("N", 3)]).unwrap();
    assert!(matches!(v, Value::Scalar(Leaf::Null)));
}

#[test]
fn numeric_length_mismatch_is_fatal() {
    let raw = vec![0u8; 10];
    let r = decode_variable(&StorageType::Double, &raw, &vec![dim("N", 2)]);
    assert!(matches!(r, Err(Error::DimensionMismatch)));
}

#[test]
fn float_leaves_carry_single_precision_bits() {
    let mut raw = Vec::new();
    raw.extend_from_slice(&1.5f32.to_bits().to_le_bytes());
    let v = decode_variable(&StorageType::Float, &raw, &vec![dim("N", 1)]).unwrap();
    match v {
        Value::Array(vs) => match &vs[0] {
            Value::Scalar(Leaf::SingleBits(b)) => assert_eq!(f32::from_bits(*b), 1.5),
            _ => panic!("expected single-precision leaf"),
        },
        _ => panic!("expected array"),
    }
}
