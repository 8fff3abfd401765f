//! GGUF images: what is written is read back, and what cannot be read is refused.
use ds4::gguf::{
    gguf_type_index, gguf_type_info, read_bytes, read_gguf_value, skip_gguf_value, GgufArray,
    GgufError, GgufModel, GgufValue, GgufValueType, Shown,
};
use ds4::gguf_writer::{value_byte_size, write_value, GgufWriter};
use ds4::tensor_types::tensor_byte_size;

fn sample() -> GgufWriter {
    let mut w = GgufWriter::new(3, 64);
    w.add_meta("general.architecture", GgufValue::String("ds4".to_string()));
    w.add_meta("general.alignment", GgufValue::Uint32(64));
    w.add_meta("ds4.n_layer", GgufValue::Uint32(1));
    w.add_meta("ds4.big", GgufValue::Uint64(0x1_0000_0007));
    w.add_meta("ds4.int", GgufValue::Int32(-5));
    w.add_meta("ds4.flag", GgufValue::Bool(true));
    w.add_meta("ds4.scale", GgufValue::Float32(1.5f32.to_bits()));
    w.add_meta("ds4.wide", GgufValue::Float64(2.5f64.to_bits()));
    w.add_meta(
        "other.skipped",
        GgufValue::Array(GgufArray {
            element_type: 8,
            elements: vec![GgufValue::String("ä".to_string()), GgufValue::String(String::new())],
        }),
    );
    w.add_meta(
        "ds4.nested",
        GgufValue::Array(GgufArray {
            element_type: 9,
            elements: vec![GgufValue::Array(GgufArray {
                element_type: 1,
                elements: vec![GgufValue::Int8(-1), GgufValue::Int8(127)],
            })],
        }),
    );
    w.add_tensor("a", vec![3], 24, vec![1, 2, 3]);
    w.add_tensor("b", vec![2, 2], 1, vec![9; 8]);
    w.add_tensor("empty", vec![0, 4], 24, vec![7; 4]);
    w
}

#[test]
fn written_files_are_read_back() {
    let image = sample().finish().unwrap();
    let m = GgufModel::open(&image).unwrap();
    assert_eq!((m.version, m.alignment), (3, 64));
    assert_eq!(m.get_string("general.architecture"), Some("ds4"));
    assert_eq!(m.get_u32("ds4.n_layer"), Some(1));
    assert_eq!(m.get_u64("ds4.n_layer"), Some(1));
    assert_eq!(m.get_u64("ds4.big"), Some(0x1_0000_0007));
    assert_eq!(m.get_u32("ds4.big"), Some(7));
    assert_eq!(m.get_i32("ds4.int"), Some(-5));
    assert_eq!(m.get_bool("ds4.flag"), Some(true));
    assert_eq!(m.get_f32("ds4.scale").map(f32::from_bits), Some(1.5));
    assert_eq!(m.get_string("ds4.n_layer"), None);
    assert_eq!(m.get_u32("ds4.flag"), None);
    assert_eq!(m.get_u64("ds4.flag"), None);
    assert_eq!(m.get_i32("ds4.flag"), None);
    assert_eq!(m.get_bool("ds4.int"), None);
    assert_eq!(m.get_f32("ds4.wide"), None);
    // Keys of other families are passed over.
    assert!(m.get_array("other.skipped").is_none());
    let nested = m.get_array("ds4.nested").unwrap();
    assert_eq!(nested.element_type, 9);
    match &nested.elements[0] {
        GgufValue::Array(a) => {
            assert!(matches!(a.elements[0], GgufValue::Int8(-1)));
            assert!(matches!(a.elements[1], GgufValue::Int8(127)));
        }
        other => panic!("{:?}", other),
    }
    assert_eq!(m.tensors.len(), 3);
    let b = m.tensor("b").unwrap();
    assert_eq!((b.ndim, b.tensor_type, b.elements, b.bytes), (2, 1, 4, 8));
    assert_eq!(b.offset % 64, 0);
    assert_eq!(m.tensor_data("a"), Some(&[1u8, 2, 3][..]));
    assert_eq!(m.tensor_data("b"), Some(&[9u8; 8][..]));
    // A dimension of zero gives no elements, and counts for nothing in the size of the data.
    let e = m.tensor("empty").unwrap();
    assert_eq!((e.elements, e.bytes), (0, 4));
    assert!(m.tensor("c").is_none());
    assert_eq!(m.tensor_data("c"), None);
}

#[test]
fn every_value_type_survives() {
    let values = vec![
        ("Uint8(200)", GgufValue::Uint8(200)),
        ("Int8(-100)", GgufValue::Int8(-100)),
        ("Uint16(60000)", GgufValue::Uint16(60000)),
        ("Int16(-30000)", GgufValue::Int16(-30000)),
        ("Uint32(4000000000)", GgufValue::Uint32(4_000_000_000)),
        ("Int32(-2000000000)", GgufValue::Int32(-2_000_000_000)),
        ("Float32(3)", GgufValue::Float32(3)),
        ("Bool(false)", GgufValue::Bool(false)),
        ("String(\"x\")", GgufValue::String("x".to_string())),
        ("Uint64(18446744073709551615)", GgufValue::Uint64(u64::MAX)),
        ("Int64(-9223372036854775808)", GgufValue::Int64(i64::MIN)),
        ("Float64(4)", GgufValue::Float64(4)),
    ];
    let mut w = GgufWriter::new(2, 0);
    let mut expected = Vec::new();
    for (i, (text, v)) in values.into_iter().enumerate() {
        w.add_meta(&format!("ds4.{}", i), v);
        expected.push(text);
    }
    let image = w.finish().unwrap();
    let m = GgufModel::open(&image).unwrap();
    for (i, text) in expected.iter().enumerate() {
        let v = m.kv.get(&format!("ds4.{}", i)).unwrap();
        assert_eq!(&format!("{:?}", v), text);
    }
}

#[test]
fn the_last_of_a_name_wins() {
    let mut w = GgufWriter::new(3, 32);
    w.add_meta("ds4.x", GgufValue::Uint32(1));
    w.add_meta("ds4.x", GgufValue::Uint32(2));
    w.add_tensor("t", vec![1], 24, vec![1]);
    w.add_tensor("t", vec![1], 24, vec![2]);
    let image = w.finish().unwrap();
    let m = GgufModel::open(&image).unwrap();
    assert_eq!(m.get_u32("ds4.x"), Some(2));
    assert_eq!(m.tensor_data("t"), Some(&[2u8][..]));
}

fn fault(image: &[u8]) -> String {
    match GgufModel::open(image) {
        Ok(_) => "read".to_string(),
        Err(e) => format!("{:?}", e),
    }
}

fn header(version: u32, n_tensors: u64, n_kv: u64) -> Vec<u8> {
    let mut b = 0x46554747u32.to_le_bytes().to_vec();
    b.extend(version.to_le_bytes());
    b.extend(n_tensors.to_le_bytes());
    b.extend(n_kv.to_le_bytes());
    b
}

fn text(s: &str) -> Vec<u8> {
    let mut b = (s.len() as u64).to_le_bytes().to_vec();
    b.extend(s.as_bytes());
    b
}

#[test]
fn unreadable_files() {
    assert_eq!(fault(&[0; 39]), "TooSmall");
    assert_eq!(fault(&[0; 40]), "BadMagic(0)");
    let mut b = header(4, 0, 0);
    b.resize(40, 0);
    assert_eq!(fault(&b), "UnsupportedVersion(4)");
    let mut b = header(1, 0, 0);
    b.resize(40, 0);
    assert_eq!(fault(&b), "UnsupportedVersion(1)");
    let mut b = header(3, 0, 1);
    b.extend(u64::MAX.to_le_bytes());
    b.resize(40, 0);
    assert_eq!(fault(&b), "UnexpectedEnd(32)");

    // A kept key is read, so its value must be there; another is passed over.
    let mut b = header(3, 0, 1);
    b.extend(text("ds4.xxxx"));
    b.extend(10u32.to_le_bytes());
    assert_eq!(fault(&b), "UnexpectedEnd(44)");
    let mut b = header(3, 0, 1);
    b.extend(text("other.xx"));
    b.extend(10u32.to_le_bytes());
    assert_eq!(fault(&b), "read");
    let mut b = header(3, 0, 1);
    b.extend(text("other.xx"));
    b.extend(8u32.to_le_bytes());
    b.extend(u64::MAX.to_le_bytes());
    assert_eq!(fault(&b), "PositionOverflow");

    for key in ["ds4.xxxx", "other.xx"] {
        let mut b = header(3, 0, 1);
        b.extend(text(key));
        b.extend(13u32.to_le_bytes());
        assert_eq!(fault(&b), "UnknownValueType(13)");

        // Nine arrays inside each other are one too many.
        let mut b = header(3, 0, 1);
        b.extend(text(key));
        for _ in 0..9 {
            b.extend(9u32.to_le_bytes());
            b.extend(if b.len() < 48 { vec![] } else { 1u64.to_le_bytes().to_vec() });
        }
        b.extend(9u32.to_le_bytes());
        b.extend(1u64.to_le_bytes());
        assert_eq!(fault(&b), "NestingTooDeep");
    }

    let mut b = header(3, 1, 0);
    b.extend(text("tensor"));
    b.extend(9u32.to_le_bytes());
    assert_eq!(fault(&b), "UnsupportedDims(\"tensor\", 9)");
    let mut b = header(3, 1, 0);
    b.extend(text("t"));
    b.extend(2u32.to_le_bytes());
    b.extend(u64::MAX.to_le_bytes());
    b.extend(2u64.to_le_bytes());
    assert_eq!(fault(&b), "ElementOverflow(\"t\")");
    let mut b = header(3, 1, 0);
    b.extend(text("t"));
    b.extend(1u32.to_le_bytes());
    b.extend(u64::MAX.to_le_bytes());
    b.extend(10u32.to_le_bytes());
    b.extend(0u64.to_le_bytes());
    assert_eq!(fault(&b), "ElementOverflow(\"t\")");
    let mut b = header(3, 1, 0);
    b.extend(text("t"));
    b.extend(1u32.to_le_bytes());
    b.extend(1u64.to_le_bytes());
    b.extend(24u32.to_le_bytes());
    b.extend(u64::MAX.to_le_bytes());
    assert_eq!(fault(&b), "PositionOverflow");
}

#[test]
fn data_past_the_end_is_not_given_out() {
    let mut image = sample().finish().unwrap();
    image.truncate(image.len() - 1);
    let m = GgufModel::open(&image).unwrap();
    assert_eq!(m.tensor_data("empty"), None);
    assert!(m.tensor_data("b").is_some());
}

#[test]
fn bad_utf8_is_replaced() {
    let mut b = header(3, 0, 1);
    b.extend(text("ds4.text"));
    b.extend(8u32.to_le_bytes());
    b.extend(2u64.to_le_bytes());
    b.extend([0x41, 0xff]);
    let m = GgufModel::open(&b).unwrap();
    assert_eq!(m.get_string("ds4.text"), Some("A\u{fffd}"));
}

#[test]
fn tensor_types() {
    assert_eq!(gguf_type_info(8).unwrap().name, "q8_0");
    assert_eq!(gguf_type_info(30).unwrap().block_bytes, 2);
    assert!(gguf_type_info(4).is_none());
    assert!(gguf_type_info(31).is_none());
    assert_eq!(gguf_type_index("iq2_xxs"), Some(16));
    assert_eq!(gguf_type_index("unk5"), Some(5));
    assert_eq!(gguf_type_index("nothing"), None);
    assert_eq!(tensor_byte_size(256, 10), Some(84));
    assert_eq!(tensor_byte_size(257, 10), Some(168));
    assert_eq!(tensor_byte_size(10, 0), Some(40));
    assert_eq!(tensor_byte_size(10, 5), None);
    assert_eq!(tensor_byte_size(u64::MAX - 1, 0), None);
    assert_eq!(GgufValueType::Uint8.code(), 0);
    assert_eq!(GgufValueType::Array.code(), 9);
    assert_eq!(GgufValueType::Float64.code(), 12);
}

fn shown(v: GgufValue) -> String {
    match v.shown() {
        Shown::Text(s) => s,
        Shown::Float32(b) => format!("{}", f32::from_bits(b)),
        Shown::Float64(b) => format!("{}", f64::from_bits(b)),
    }
}

#[test]
fn values_are_shown() {
    assert_eq!(shown(GgufValue::Uint8(0)), "0");
    assert_eq!(shown(GgufValue::Int8(-128)), "-128");
    assert_eq!(shown(GgufValue::Int64(i64::MIN)), "-9223372036854775808");
    assert_eq!(shown(GgufValue::Uint64(u64::MAX)), "18446744073709551615");
    assert_eq!(shown(GgufValue::Bool(true)), "true");
    assert_eq!(shown(GgufValue::String("a b".to_string())), "\"a b\"");
    assert_eq!(shown(GgufValue::Float32(0.5f32.to_bits())), "0.5");
    assert_eq!(shown(GgufValue::Float64((-2.0f64).to_bits())), "-2");
    let arr = GgufArray { element_type: 0, elements: vec![GgufValue::Uint8(1), GgufValue::Uint8(2)] };
    assert_eq!(shown(GgufValue::Array(arr)), "[2 elements]");
}

#[test]
fn layouts_that_do_not_fit_are_refused() {
    let mut w = GgufWriter::new(3, u64::MAX);
    w.add_meta("ds4.x", GgufValue::Uint8(1));
    assert!(matches!(w.finish(), Err(GgufError::PositionOverflow)));
}

#[test]
fn type_lookups_undo_each_other() {
    for t in 0..31u32 {
        if let Some(info) = gguf_type_info(t) {
            assert_eq!(gguf_type_index(info.name), Some(t as usize));
        }
    }
}

#[test]
fn a_failed_read_keeps_the_position() {
    let data = [1u8, 2, 3];
    let mut pos = 1u64;
    assert_eq!(read_bytes(&data, &mut pos, 2).unwrap(), &[2, 3]);
    assert_eq!(pos, 3);
    pos = 1;
    assert!(read_bytes(&data, &mut pos, 3).is_err());
    assert_eq!(pos, 1);
    assert!(read_bytes(&data, &mut pos, u64::MAX).is_err());
    assert_eq!(pos, 1);
    for (value_type, depth) in [(13, 0), (0, 9), (4, 0), (9, 77)] {
        assert!(read_gguf_value(&data, &mut pos, value_type, depth).is_err());
        assert_eq!(pos, 1);
    }
    for (value_type, depth) in [(13, 0), (0, 9), (9, 77)] {
        assert!(skip_gguf_value(&data, &mut pos, value_type, depth).is_err());
        assert_eq!(pos, 1);
    }
}

#[test]
fn a_failed_read_stops_behind_what_was_there() {
    let stops = |data: &[u8], value_type: u32| {
        let (mut p, mut q) = (0u64, 0u64);
        let read = read_gguf_value(data, &mut p, value_type, 0).is_ok();
        let skipped = skip_gguf_value(data, &mut q, value_type, 0).is_ok();
        (read, p, skipped, q)
    };
    // A string of five bytes, of which two are there.
    assert_eq!(stops(&[5, 0, 0, 0, 0, 0, 0, 0, 1, 2], 8), (false, 8, true, 13));
    // No room for the length of a string.
    assert_eq!(stops(&[5, 0, 0], 8), (false, 0, false, 0));
    // An array without a length.
    assert_eq!(stops(&[2, 0, 0, 0, 1], 9), (false, 4, false, 4));
    // Three numbers of two bytes, of which one is there.
    let data = [2, 0, 0, 0, 3, 0, 0, 0, 0, 0, 0, 0, 7, 7, 8];
    assert_eq!(stops(&data, 9), (false, 14, true, 18));
    // Elements of a type that does not exist.
    let data = [99, 0, 0, 0, 1, 0, 0, 0, 0, 0, 0, 0, 7];
    assert_eq!(stops(&data, 9), (false, 12, false, 12));
}

#[test]
fn values_are_passed_over_as_they_are_read() {
    let values = [
        (0u32, GgufValue::Uint8(7)),
        (3, GgufValue::Int16(-2)),
        (6, GgufValue::Float32(0x7fc0_0001)),
        (7, GgufValue::Bool(true)),
        (8, GgufValue::String("añb".to_string())),
        (11, GgufValue::Int64(-5)),
        (
            9,
            GgufValue::Array(GgufArray {
                element_type: 8,
                elements: vec![
                    GgufValue::String("x".to_string()),
                    GgufValue::String(String::new()),
                ],
            }),
        ),
    ];
    for (code, v) in values {
        let mut data = vec![0u8; 3];
        write_value(&mut data, &v);
        let size = value_byte_size(&v).unwrap();
        assert_eq!(data.len() as u64, 3 + size);
        data.extend([1, 2, 3]);
        let (mut p, mut q) = (3u64, 3u64);
        let back = read_gguf_value(&data, &mut p, code, 0).unwrap();
        skip_gguf_value(&data, &mut q, code, 0).unwrap();
        assert_eq!(format!("{:?}", back), format!("{:?}", v));
        assert_eq!((p, q), (3 + size, 3 + size));
    }
}
