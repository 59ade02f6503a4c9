use hclua::protocol::wire::{
    decode_msg, decode_msg_map, encode_msg, encode_msg_map, from_wire, is_msg_frame,
    is_msg_map_frame, to_wire,
};
use hclua::TypedValue;

fn text(s: &str) -> TypedValue {
    TypedValue::Str(s.to_string())
}

fn sample_tree() -> TypedValue {
    TypedValue::Dict(vec![
        (text("a"), TypedValue::I64(1)),
        (
            text("b"),
            TypedValue::Arr(vec![TypedValue::I64(1), TypedValue::I64(2), TypedValue::I64(3)]),
        ),
    ])
}

fn next_random(state: &mut u64) -> u64 {
    let mut x = *state;
    x ^= x << 13;
    x ^= x >> 7;
    x ^= x << 17;
    *state = x;
    x
}

#[test]
fn message_of_leaves_comes_back() {
    let values = vec![
        TypedValue::Nil,
        TypedValue::Bool(true),
        TypedValue::Bool(false),
        TypedValue::U8(200),
        TypedValue::I8(-100),
        text("hello"),
        text(""),
        TypedValue::Raw(vec![140, 150, 141, 151, 0, 255]),
        TypedValue::F32(1.5f32.to_bits()),
        TypedValue::F64((-2.25f64).to_bits()),
        TypedValue::Varint(-300),
    ];
    let bytes = encode_msg(&values).unwrap();
    assert_eq!(decode_msg(&bytes), Some(values));
}

#[test]
fn wide_numbers_come_back_as_varint() {
    let values = vec![
        TypedValue::U16(40000),
        TypedValue::I16(-2),
        TypedValue::U32(4000000000),
        TypedValue::I32(-70000),
        TypedValue::I64(i64::MIN),
        TypedValue::I64(i64::MAX),
        TypedValue::U64(7),
        TypedValue::Varint(0),
    ];
    let bytes = encode_msg(&values).unwrap();
    let expected = vec![
        TypedValue::Varint(40000),
        TypedValue::Varint(-2),
        TypedValue::Varint(4000000000),
        TypedValue::Varint(-70000),
        TypedValue::Varint(i64::MIN),
        TypedValue::Varint(i64::MAX),
        TypedValue::Varint(7),
        TypedValue::Varint(0),
    ];
    assert_eq!(decode_msg(&bytes), Some(expected));
}

#[test]
fn message_has_the_bytes_of_the_codec() {
    let values = vec![TypedValue::U8(5), text("x"), TypedValue::F64(1.5f64.to_bits())];
    let bytes = encode_msg(&values).unwrap();
    let mut buffer = hcproto::Buffer::new();
    hcproto::encode_msg(
        &mut buffer,
        vec![
            hcproto::Value::U8(5),
            hcproto::Value::Str("x".to_string()),
            hcproto::Value::F64(1.5),
        ],
    )
    .unwrap();
    assert_eq!(bytes, buffer.buf.as_slice().to_vec());
    // text table: one text "x"; then an array of three values
    assert_eq!(
        bytes,
        vec![2, 2, 120, 16, 6, 2, 5, 14, 0, 12, 0x3f, 0xf8, 0, 0, 0, 0, 0, 0]
    );
}

#[test]
fn nested_tree_comes_back() {
    let tree = TypedValue::Arr(vec![
        TypedValue::Arr(vec![text("deep"), TypedValue::Arr(vec![TypedValue::U8(1)])]),
        TypedValue::Dict(vec![(TypedValue::U8(7), text("seven"))]),
    ]);
    let bytes = encode_msg(&vec![tree]).unwrap();
    let back = decode_msg(&bytes).unwrap();
    assert_eq!(
        back,
        vec![TypedValue::Arr(vec![
            TypedValue::Arr(vec![text("deep"), TypedValue::Arr(vec![TypedValue::U8(1)])]),
            TypedValue::Dict(vec![(TypedValue::U8(7), text("seven"))]),
        ])]
    );
}

#[test]
fn dictionary_comes_back_with_its_pairs() {
    let bytes = encode_msg(&vec![sample_tree()]).unwrap();
    let back = decode_msg(&bytes).unwrap();
    assert_eq!(back.len(), 1);
    match &back[0] {
        TypedValue::Dict(pairs) => {
            assert_eq!(pairs.len(), 2);
            for (k, v) in pairs {
                if *k == text("a") {
                    assert_eq!(*v, TypedValue::Varint(1));
                } else {
                    assert_eq!(*k, text("b"));
                    assert_eq!(
                        *v,
                        TypedValue::Arr(vec![
                            TypedValue::Varint(1),
                            TypedValue::Varint(2),
                            TypedValue::Varint(3)
                        ])
                    );
                }
            }
        }
        other => panic!("not a dictionary: {:?}", other),
    }
}

#[test]
fn later_pair_replaces_equal_key() {
    let tree = TypedValue::Dict(vec![
        (TypedValue::U8(1), text("first")),
        (TypedValue::U8(1), text("second")),
    ]);
    let bytes = encode_msg(&vec![tree]).unwrap();
    let back = decode_msg(&bytes).unwrap();
    assert_eq!(back, vec![TypedValue::Dict(vec![(TypedValue::U8(1), text("second"))])]);
}

#[test]
fn every_cut_of_a_message_is_refused_or_read() {
    let values = vec![
        sample_tree(),
        text("some text"),
        TypedValue::Raw(vec![1, 2, 3]),
        TypedValue::F64(3.25f64.to_bits()),
        TypedValue::Arr(vec![TypedValue::I64(-1), TypedValue::Arr(vec![])]),
        TypedValue::U32(77),
    ];
    let bytes = encode_msg(&values).unwrap();
    for cut in 0..bytes.len() {
        let part = bytes[..cut].to_vec();
        let read = decode_msg(&part);
        if read.is_some() {
            assert!(is_msg_frame(&part));
        }
        let _ = decode_msg_map(&part);
    }
    assert!(decode_msg(&bytes).is_some());
}

#[test]
fn cut_messages_are_no_frames() {
    let bytes = encode_msg(&vec![text("abc"), TypedValue::U8(1)]).unwrap();
    assert!(is_msg_frame(&bytes));
    assert!(!is_msg_frame(&bytes[..bytes.len() - 1].to_vec()));
    assert!(!is_msg_frame(&vec![]));
    // no texts, then nothing where a value must begin
    assert!(!is_msg_frame(&vec![0]));
    assert_eq!(decode_msg(&vec![0]), None);
    // no texts, an array of one value, and nothing where it must begin
    assert!(!is_msg_frame(&vec![0, 16, 2]));
    assert_eq!(decode_msg(&vec![0, 16, 2]), None);
    // no texts and an empty array
    assert!(is_msg_frame(&vec![0, 16, 0]));
    assert_eq!(decode_msg(&vec![0, 16, 0]), Some(vec![]));
}

#[test]
fn frame_that_is_no_array_is_refused() {
    // no texts, then a single byte value: a frame, but no message
    assert!(is_msg_frame(&vec![0, 2, 9]));
    assert_eq!(decode_msg(&vec![0, 2, 9]), None);
    // tags 8 and 9 are not taken
    assert!(!is_msg_frame(&vec![0, 16, 2, 8, 0, 0, 0, 0, 0, 0, 0, 1]));
    assert_eq!(decode_msg(&vec![0, 16, 2, 9, 0, 0, 0, 0, 0, 0, 0, 1]), None);
}

#[test]
fn unknown_tags_read_as_nil() {
    assert_eq!(
        decode_msg(&vec![0, 16, 4, 0, 200]),
        Some(vec![TypedValue::Nil, TypedValue::Nil])
    );
}

#[test]
fn text_that_is_not_utf8_is_refused() {
    // one text of one byte 0xff in the table
    assert_eq!(decode_msg(&vec![2, 2, 0xff, 16, 0]), None);
    // a text index beyond the table
    assert_eq!(decode_msg(&vec![0, 16, 2, 14, 0]), None);
}

#[test]
fn long_numbers_of_variable_length() {
    // ten bytes are taken, an eleventh is refused
    let mut ten = vec![0u8, 16, 2, 10];
    ten.extend(vec![0xffu8; 9]);
    ten.push(0x01);
    assert!(is_msg_frame(&ten));
    assert_eq!(decode_msg(&ten), Some(vec![TypedValue::Varint(i64::MIN)]));
    let mut eleven = vec![0u8, 16, 2, 10];
    eleven.extend(vec![0xffu8; 10]);
    eleven.push(0x01);
    assert!(!is_msg_frame(&eleven));
    assert_eq!(decode_msg(&eleven), None);
}

#[test]
fn random_bytes_never_fault() {
    let mut state: u64 = 0x9e3779b97f4a7c15;
    for round in 0..4000 {
        let len = (next_random(&mut state) % 24) as usize;
        let mut bytes = Vec::new();
        for _ in 0..len {
            let r = next_random(&mut state);
            // favour small bytes: they are tags, counts and lengths
            let b = if r % 3 == 0 { (r >> 8) as u8 } else { ((r >> 8) % 20) as u8 };
            bytes.push(b);
        }
        let framed = is_msg_frame(&bytes);
        let read = decode_msg(&bytes);
        assert!(framed || read.is_none(), "round {}", round);
        let framed_map = is_msg_map_frame(&bytes);
        let read_map = decode_msg_map(&bytes);
        assert!(framed_map || read_map.is_none(), "round {}", round);
    }
}

#[test]
fn changed_messages_never_fault() {
    let values = vec![
        sample_tree(),
        TypedValue::Arr(vec![text("p"), text("q"), TypedValue::Raw(vec![9; 5])]),
        TypedValue::I32(-5),
    ];
    let bytes = encode_msg(&values).unwrap();
    let mut state: u64 = 12345;
    for _ in 0..3000 {
        let mut changed = bytes.clone();
        let at = (next_random(&mut state) as usize) % changed.len();
        changed[at] = (next_random(&mut state) >> 16) as u8;
        if next_random(&mut state) % 2 == 0 {
            let cut = (next_random(&mut state) as usize) % (changed.len() + 1);
            changed.truncate(cut);
        }
        let _ = decode_msg(&changed);
        let _ = decode_msg_map(&changed);
    }
}

#[test]
fn deep_nesting_is_refused() {
    // arrays of one item each, 200 deep
    let mut bytes = vec![0u8];
    for _ in 0..200 {
        bytes.push(16);
        bytes.push(2);
    }
    bytes.push(0);
    assert!(!is_msg_frame(&bytes));
    assert_eq!(decode_msg(&bytes), None);
    let mut shallow = vec![0u8];
    for _ in 0..100 {
        shallow.push(16);
        shallow.push(2);
    }
    shallow.push(0);
    assert!(is_msg_frame(&shallow));
    assert!(decode_msg(&shallow).is_some());
}

#[test]
fn oversize_trees_are_not_encoded() {
    let long_text = TypedValue::Str("a".repeat(65536));
    assert_eq!(encode_msg(&vec![long_text]), None);
    let longest_text = TypedValue::Str("a".repeat(65535));
    assert!(encode_msg(&vec![longest_text]).is_some());
    assert_eq!(encode_msg(&vec![TypedValue::Raw(vec![0; 65536])]), None);
    let mut many = Vec::new();
    for _ in 0..65536 {
        many.push(TypedValue::Nil);
    }
    assert_eq!(encode_msg(&vec![TypedValue::Arr(many)]), None);
    assert_eq!(encode_msg_map(&TypedValue::Raw(vec![0; 65536])), None);
}

#[test]
fn too_many_texts_are_not_encoded() {
    let mut items = Vec::new();
    for i in 0..65535 {
        items.push(TypedValue::Str(format!("{}", i)));
    }
    let mut more = Vec::new();
    more.push(TypedValue::Str("one more".to_string()));
    assert!(encode_msg(&vec![TypedValue::Arr(items), TypedValue::Arr(vec![])]).is_some());
    let mut items = Vec::new();
    for i in 0..65535 {
        items.push(TypedValue::Str(format!("{}", i)));
    }
    assert_eq!(encode_msg(&vec![TypedValue::Arr(items), TypedValue::Arr(more)]), None);
}

#[test]
fn map_message_is_written_as_the_codec_writes_it() {
    let tree = TypedValue::Dict(vec![(text("k"), TypedValue::U8(3))]);
    let bytes = encode_msg_map(&tree).unwrap();
    let mut map = std::collections::HashMap::new();
    map.insert(hcproto::Value::Str("k".to_string()), hcproto::Value::U8(3));
    let mut buffer = hcproto::Buffer::new();
    hcproto::encode_msg_map(&mut buffer, hcproto::Value::Map(map)).unwrap();
    assert_eq!(bytes, buffer.buf.as_slice().to_vec());
    assert_eq!(bytes, vec![2, 2, 107, 17, 4, 14, 0, 2, 3]);
}

#[test]
fn bare_dictionary_is_read() {
    // no texts, four keys and values, byte values
    let bytes = vec![0, 8, 2, 1, 2, 10, 2, 2, 2, 20];
    assert!(is_msg_map_frame(&bytes));
    let tree = decode_msg_map(&bytes).unwrap();
    match tree {
        TypedValue::Dict(pairs) => {
            assert_eq!(pairs.len(), 2);
            assert!(pairs.contains(&(TypedValue::U8(1), TypedValue::U8(10))));
            assert!(pairs.contains(&(TypedValue::U8(2), TypedValue::U8(20))));
        }
        other => panic!("not a dictionary: {:?}", other),
    }
    assert!(!is_msg_map_frame(&vec![0, 8, 2, 1, 2, 10, 2, 2]));
    assert_eq!(decode_msg_map(&vec![0, 8, 2, 1, 2, 10, 2, 2]), None);
}

#[test]
fn trees_of_the_codec_turn_node_by_node() {
    let tree = TypedValue::Arr(vec![
        TypedValue::Nil,
        TypedValue::Bool(true),
        TypedValue::U8(1),
        TypedValue::I8(-1),
        TypedValue::U16(2),
        TypedValue::I16(-2),
        TypedValue::U32(3),
        TypedValue::I32(-3),
        TypedValue::U64(4),
        TypedValue::I64(-4),
        TypedValue::Varint(5),
        TypedValue::F32(0.5f32.to_bits()),
        TypedValue::F64(0.25f64.to_bits()),
        text("t"),
        TypedValue::Raw(vec![7]),
        TypedValue::Dict(vec![(TypedValue::U8(9), TypedValue::Arr(vec![]))]),
    ]);
    let wire = to_wire(&tree);
    let expected = hcproto::Value::Arr(vec![
        hcproto::Value::Nil,
        hcproto::Value::Bool(true),
        hcproto::Value::U8(1),
        hcproto::Value::I8(-1),
        hcproto::Value::U16(2),
        hcproto::Value::I16(-2),
        hcproto::Value::U32(3),
        hcproto::Value::I32(-3),
        hcproto::Value::U64(4),
        hcproto::Value::I64(-4),
        hcproto::Value::Varint(5),
        hcproto::Value::F32(0.5),
        hcproto::Value::F64(0.25),
        hcproto::Value::Str("t".to_string()),
        hcproto::Value::Raw(vec![7]),
        hcproto::Value::Map(
            vec![(hcproto::Value::U8(9), hcproto::Value::Arr(vec![]))].into_iter().collect(),
        ),
    ]);
    assert!(wire == expected);
    match &wire {
        hcproto::Value::Arr(items) => {
            assert!(matches!(items[4], hcproto::Value::U16(2)));
            assert!(matches!(items[10], hcproto::Value::Varint(5)));
            assert!(matches!(items[9], hcproto::Value::I64(-4)));
        }
        _ => panic!("not an array"),
    }
    assert_eq!(from_wire(wire, 8), Some(tree));
}

#[test]
fn turning_back_stops_at_its_depth() {
    let wire = hcproto::Value::Arr(vec![hcproto::Value::Arr(vec![hcproto::Value::Nil])]);
    assert_eq!(from_wire(wire.clone(), 1), None);
    assert_eq!(
        from_wire(wire, 2),
        Some(TypedValue::Arr(vec![TypedValue::Arr(vec![TypedValue::Nil])]))
    );
}

#[test]
fn random_structures_never_fault() {
    // bytes drawn from tags, small counts and continuation bytes, which reach deep into
    // the reader of the codec
    let alphabet: [u8; 24] = [
        0, 1, 2, 4, 6, 10, 11, 12, 13, 14, 15, 16, 17, 16, 17, 2, 4, 6, 8, 0x80, 0x81, 0xff, 3, 9,
    ];
    let mut state: u64 = 0x1234_5678_9abc_def1;
    let mut read_some = 0;
    for _ in 0..60000 {
        let len = (next_random(&mut state) % 14) as usize;
        let mut bytes = vec![0u8];
        if next_random(&mut state) % 8 == 0 {
            bytes = vec![2, 2, 97];
        }
        bytes.push(16);
        for _ in 0..len {
            let r = next_random(&mut state);
            bytes.push(alphabet[(r % 24) as usize]);
        }
        let framed = is_msg_frame(&bytes);
        let read = decode_msg(&bytes);
        assert!(framed || read.is_none());
        if read.is_some() {
            read_some += 1;
        }
        let _ = decode_msg_map(&bytes);
    }
    assert!(read_some > 100);
}

fn random_tree(state: &mut u64, depth: u32) -> TypedValue {
    let pick = next_random(state) % if depth == 0 { 13 } else { 15 };
    let r = next_random(state);
    match pick {
        0 => TypedValue::Nil,
        1 => TypedValue::Bool(r % 2 == 0),
        2 => TypedValue::U8(r as u8),
        3 => TypedValue::I8(r as i8),
        4 => TypedValue::U16(r as u16),
        5 => TypedValue::I16(r as i16),
        6 => TypedValue::U32(r as u32),
        7 => TypedValue::I32(r as i32),
        8 => TypedValue::I64(r as i64),
        9 => TypedValue::F64(((r % 1000) as f64 / 8.0).to_bits()),
        10 => TypedValue::F32(((r % 1000) as f32 / 4.0).to_bits()),
        11 => TypedValue::Str(format!("s{}", r % 50)),
        12 => TypedValue::Raw((0..(r % 300)).map(|i| (i * 7) as u8).collect()),
        13 => {
            let n = r % 5;
            TypedValue::Arr((0..n).map(|_| random_tree(state, depth - 1)).collect())
        }
        _ => {
            let n = r % 4;
            TypedValue::Dict(
                (0..n)
                    .map(|i| (TypedValue::Str(format!("k{}", i)), random_tree(state, depth - 1)))
                    .collect(),
            )
        }
    }
}

// What a tree reads as after it has travelled: wide whole numbers as numbers of
// variable length, all else as it was.
fn travelled(tree: &TypedValue) -> TypedValue {
    match tree {
        TypedValue::U16(x) => TypedValue::Varint(*x as i64),
        TypedValue::I16(x) => TypedValue::Varint(*x as i64),
        TypedValue::U32(x) => TypedValue::Varint(*x as i64),
        TypedValue::I32(x) => TypedValue::Varint(*x as i64),
        TypedValue::U64(x) => TypedValue::Varint(*x as i64),
        TypedValue::I64(x) => TypedValue::Varint(*x),
        TypedValue::Arr(items) => TypedValue::Arr(items.iter().map(travelled).collect()),
        TypedValue::Dict(pairs) => {
            TypedValue::Dict(pairs.iter().map(|(k, v)| (travelled(k), travelled(v))).collect())
        }
        TypedValue::Nil => TypedValue::Nil,
        TypedValue::Bool(b) => TypedValue::Bool(*b),
        TypedValue::U8(x) => TypedValue::U8(*x),
        TypedValue::I8(x) => TypedValue::I8(*x),
        TypedValue::Varint(x) => TypedValue::Varint(*x),
        TypedValue::F32(x) => TypedValue::F32(*x),
        TypedValue::F64(x) => TypedValue::F64(*x),
        TypedValue::Str(x) => TypedValue::Str(x.clone()),
        TypedValue::Raw(x) => TypedValue::Raw(x.clone()),
    }
}

fn same_tree(a: &TypedValue, b: &TypedValue) -> bool {
    match (a, b) {
        (TypedValue::Arr(x), TypedValue::Arr(y)) => {
            x.len() == y.len() && x.iter().zip(y.iter()).all(|(p, q)| same_tree(p, q))
        }
        (TypedValue::Dict(x), TypedValue::Dict(y)) => {
            x.len() == y.len()
                && x.iter().all(|(k, v)| y.iter().any(|(k2, v2)| k == k2 && same_tree(v, v2)))
        }
        _ => a == b,
    }
}

#[test]
fn random_trees_come_back() {
    let mut state: u64 = 0xfeed_beef_cafe_0001;
    for round in 0..1500 {
        let count = (next_random(&mut state) % 4) as usize;
        let values: Vec<TypedValue> = (0..count).map(|_| random_tree(&mut state, 4)).collect();
        let bytes = encode_msg(&values).unwrap();
        assert!(is_msg_frame(&bytes), "round {}", round);
        let back = decode_msg(&bytes).unwrap();
        assert_eq!(back.len(), values.len());
        for (sent, got) in values.iter().zip(back.iter()) {
            assert!(same_tree(&travelled(sent), got), "round {}: {:?} / {:?}", round, sent, got);
        }
    }
}

#[test]
fn every_frame_within_the_nesting_is_read() {
    let mut deepest = 0;
    for depth in 1..140 {
        let mut bytes = vec![0u8];
        for _ in 0..depth {
            bytes.push(16);
            bytes.push(2);
        }
        bytes.push(0);
        if is_msg_frame(&bytes) {
            assert!(decode_msg(&bytes).is_some(), "depth {}", depth);
            deepest = depth;
        } else {
            assert_eq!(decode_msg(&bytes), None);
        }
    }
    assert_eq!(deepest, 127);
}

#[test]
fn written_messages_are_read_back_within_the_nesting() {
    let mut tree = TypedValue::Arr(vec![]);
    for _ in 1..126 {
        tree = TypedValue::Arr(vec![tree]);
    }
    // 126 arrays within one another
    let bytes = encode_msg(&vec![tree.duplicate()]).unwrap();
    assert!(is_msg_frame(&bytes));
    assert_eq!(decode_msg(&bytes), Some(vec![tree.duplicate()]));
    let deeper = TypedValue::Arr(vec![tree]);
    let bytes = encode_msg(&vec![deeper]).unwrap();
    assert!(!is_msg_frame(&bytes));
    assert_eq!(decode_msg(&bytes), None);
}

#[test]
fn pair_with_an_equal_key_keeps_the_first_key() {
    let tree = TypedValue::Dict(vec![
        (text("k"), TypedValue::Bool(true)),
        (TypedValue::U8(7), text("first")),
        (text("k"), TypedValue::Bool(false)),
    ]);
    let wire = to_wire(&tree);
    let back = from_wire(wire, 4).unwrap();
    match back {
        TypedValue::Dict(pairs) => {
            assert_eq!(pairs.len(), 2);
            assert!(pairs.contains(&(text("k"), TypedValue::Bool(false))));
            assert!(pairs.contains(&(TypedValue::U8(7), text("first"))));
        }
        _ => panic!("no dictionary"),
    }
}

#[test]
fn edge_leaves_are_read_back_as_they_are_spelled() {
    let values = vec![
        TypedValue::U64(u64::MAX),
        TypedValue::U64(1u64 << 63),
        TypedValue::U64(i64::MAX as u64),
        TypedValue::F32(0x7fa0_0001),
        TypedValue::F32(0xffc0_0000),
        TypedValue::F32(0x8000_0000),
        TypedValue::F64(0x7ff4_0000_0000_0001),
        TypedValue::F64(0x8000_0000_0000_0000),
        text(""),
        text("twice"),
        text("twice"),
        TypedValue::Raw(vec![]),
        TypedValue::Raw(vec![7; 65535]),
        TypedValue::Str("x".repeat(65535)),
        TypedValue::Arr(vec![]),
        TypedValue::Arr(vec![text("twice"), TypedValue::Arr(vec![TypedValue::U8(0)])]),
        TypedValue::U8(255),
        TypedValue::I8(-128),
        TypedValue::Nil,
    ];
    let bytes = encode_msg(&values).unwrap();
    assert!(is_msg_frame(&bytes));
    let expected = vec![
        TypedValue::Varint(-1),
        TypedValue::Varint(i64::MIN),
        TypedValue::Varint(i64::MAX),
        TypedValue::F32(0x7fa0_0001),
        TypedValue::F32(0xffc0_0000),
        TypedValue::F32(0x8000_0000),
        TypedValue::F64(0x7ff4_0000_0000_0001),
        TypedValue::F64(0x8000_0000_0000_0000),
        text(""),
        text("twice"),
        text("twice"),
        TypedValue::Raw(vec![]),
        TypedValue::Raw(vec![7; 65535]),
        TypedValue::Str("x".repeat(65535)),
        TypedValue::Arr(vec![]),
        TypedValue::Arr(vec![text("twice"), TypedValue::Arr(vec![TypedValue::U8(0)])]),
        TypedValue::U8(255),
        TypedValue::I8(-128),
        TypedValue::Nil,
    ];
    assert_eq!(decode_msg(&bytes), Some(expected));
}

#[test]
fn text_keys_keep_their_pairs() {
    let made = || -> Vec<(TypedValue, TypedValue)> {
        (0..40).map(|i| (text(&format!("key{}", i)), TypedValue::U8(i as u8))).collect()
    };
    let pairs = made();
    let tree = TypedValue::Dict(made());
    let bytes = encode_msg(&vec![tree, TypedValue::Dict(vec![])]).unwrap();
    let back = decode_msg(&bytes).unwrap();
    assert_eq!(back.len(), 2);
    assert_eq!(back[1], TypedValue::Dict(vec![]));
    match &back[0] {
        TypedValue::Dict(got) => {
            assert_eq!(got.len(), 40);
            for pair in pairs.iter() {
                assert!(got.contains(pair));
            }
        }
        _ => panic!("no dictionary"),
    }
}
