use edgefirst_schemas::wire::{check_fits, decode, encode, Prim, Shape, Value};

fn text(s: &str) -> Value {
    Value::Text(s.to_string())
}

fn text_of(v: &Value) -> &str {
    match v {
        Value::Text(t) => t.as_str(),
        _ => panic!("not text"),
    }
}

#[test]
fn text_round_trips_with_its_length_plus_one() {
    let long = "x".repeat(1000);
    for s in ["", "a", long.as_str(), "héllo wörld ✓ 日本"] {
        let bytes = encode(&text(s));
        assert_eq!(&bytes[..4], &(s.len() as u32 + 1).to_le_bytes());
        assert_eq!(bytes.len(), 4 + s.len() + 1);
        assert_eq!(bytes[bytes.len() - 1], 0);
        let back = decode(&Shape::Text, &bytes).unwrap();
        assert_eq!(text_of(&back), s);
    }
}

#[test]
fn empty_sequence_is_a_zero_count() {
    let v = Value::Sequence(vec![]);
    assert_eq!(encode(&v), vec![0, 0, 0, 0]);
    let shape = Shape::Sequence(Box::new(Shape::Prim(Prim::Int64)));
    match decode(&shape, &[0, 0, 0, 0]).unwrap() {
        Value::Sequence(vs) => assert!(vs.is_empty()),
        _ => panic!("not a sequence"),
    }
}

#[test]
fn arrays_carry_no_count_and_sequences_keep_order() {
    let arr = Value::Array(vec![Value::Prim(Prim::UInt16, 1), Value::Prim(Prim::UInt16, 2)]);
    assert_eq!(encode(&arr), vec![1, 0, 2, 0]);
    let seq = Value::Sequence(vec![
        Value::Prim(Prim::UInt8, 7),
        Value::Prim(Prim::UInt8, 8),
        Value::Prim(Prim::UInt8, 9),
    ]);
    let bytes = encode(&seq);
    assert_eq!(bytes, vec![3, 0, 0, 0, 7, 8, 9]);
    let shape = Shape::Sequence(Box::new(Shape::Prim(Prim::UInt8)));
    match decode(&shape, &bytes).unwrap() {
        Value::Sequence(vs) => {
            let bits: Vec<u64> = vs
                .iter()
                .map(|v| match v {
                    Value::Prim(_, b) => *b,
                    _ => panic!("not a primitive"),
                })
                .collect();
            assert_eq!(bits, vec![7, 8, 9]);
        }
        _ => panic!("not a sequence"),
    }
}

#[test]
fn primitives_are_aligned_from_the_buffer_start() {
    let rec = Value::Record(vec![
        Value::Prim(Prim::UInt8, 0xaa),
        Value::Prim(Prim::Float64, 1.5f64.to_bits()),
        Value::Prim(Prim::Bool, 1),
        Value::Prim(Prim::Int16, (-2i16) as u16 as u64),
        text("hi"),
        Value::Prim(Prim::Int32, 5),
    ]);
    let bytes = encode(&rec);
    let mut expected = vec![0xaa, 0, 0, 0, 0, 0, 0, 0];
    expected.extend_from_slice(&1.5f64.to_le_bytes());
    expected.extend_from_slice(&[1, 0]);
    expected.extend_from_slice(&(-2i16).to_le_bytes());
    expected.extend_from_slice(&[3, 0, 0, 0, b'h', b'i', 0]);
    expected.extend_from_slice(&[0]);
    expected.extend_from_slice(&5i32.to_le_bytes());
    assert_eq!(bytes, expected);
    let shape = Shape::Record(vec![
        Shape::Prim(Prim::UInt8),
        Shape::Prim(Prim::Float64),
        Shape::Prim(Prim::Bool),
        Shape::Prim(Prim::Int16),
        Shape::Text,
        Shape::Prim(Prim::Int32),
    ]);
    let back = decode(&shape, &bytes).unwrap();
    assert_eq!(encode(&back), bytes);
    assert!(decode(&shape, &bytes[..bytes.len() - 1]).is_none());
}

#[test]
fn uniform_records_end_aligned() {
    let rec = Value::Record(vec![
        Value::Prim(Prim::UInt32, 1),
        Value::Array(vec![Value::Prim(Prim::Float32, 0), Value::Prim(Prim::Int32, 3)]),
    ]);
    assert_eq!(encode(&rec).len() % 4, 0);
}

#[test]
fn nested_values_round_trip() {
    let inner = || Shape::Record(vec![Shape::Text, Shape::Prim(Prim::UInt64)]);
    let shape = Shape::Record(vec![
        Shape::Array(2, Box::new(inner())),
        Shape::Sequence(Box::new(Shape::Sequence(Box::new(Shape::Prim(Prim::Int8))))),
    ]);
    let v = Value::Record(vec![
        Value::Array(vec![
            Value::Record(vec![text("a"), Value::Prim(Prim::UInt64, u64::MAX)]),
            Value::Record(vec![text(""), Value::Prim(Prim::UInt64, 3)]),
        ]),
        Value::Sequence(vec![
            Value::Sequence(vec![Value::Prim(Prim::Int8, 0x80)]),
            Value::Sequence(vec![]),
        ]),
    ]);
    assert!(check_fits(&v));
    let bytes = encode(&v);
    let back = decode(&shape, &bytes).unwrap();
    assert_eq!(encode(&back), bytes);
    assert_eq!(format!("{:?}", back), format!("{:?}", v));
}

#[test]
fn values_out_of_range_do_not_fit() {
    assert!(!check_fits(&Value::Prim(Prim::UInt8, 256)));
    assert!(!check_fits(&Value::Prim(Prim::Bool, 2)));
    assert!(check_fits(&Value::Prim(Prim::UInt32, u32::MAX as u64)));
    assert!(!check_fits(&Value::Array(vec![Value::Prim(Prim::Int16, 1 << 16)])));
}
