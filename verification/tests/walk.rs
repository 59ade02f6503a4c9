use hclua::protocol::proto_lua::SerFault;
use hclua::protocol::ser_utils::walk_script_value;
use hclua::protocol::wire::{decode_msg, encode_msg};
use hclua::protocol::wrapper::value_to_script;
use hclua::protocol::{fields_to_map, ProtoLua};
use hclua::sys::lua_State;
use hclua::{LuaPush, LuaWrapperTableValue, LuaWrapperValue, LuaWrapperVecValue, ScriptValue, SerUtils, TypedValue};

fn string(s: &str) -> ScriptValue {
    ScriptValue::Str(s.as_bytes().to_vec())
}

fn text(s: &str) -> TypedValue {
    TypedValue::Str(s.to_string())
}

fn nested(levels: usize) -> ScriptValue {
    let mut value = ScriptValue::Integer(7);
    for _ in 0..levels {
        value = ScriptValue::Table(vec![(ScriptValue::Integer(1), value)]);
    }
    value
}

#[test]
fn table_with_keys_one_to_three_is_an_array() {
    let table = ScriptValue::Table(vec![
        (ScriptValue::Integer(1), string("a")),
        (ScriptValue::Integer(2), string("b")),
        (ScriptValue::Integer(3), string("c")),
    ]);
    assert_eq!(
        walk_script_value(&table, 0),
        Some(TypedValue::Arr(vec![text("a"), text("b"), text("c")]))
    );
}

#[test]
fn array_items_follow_their_keys() {
    let table = ScriptValue::Table(vec![
        (ScriptValue::Integer(3), ScriptValue::Integer(30)),
        (ScriptValue::Integer(1), ScriptValue::Integer(10)),
        (ScriptValue::Integer(2), ScriptValue::Integer(20)),
    ]);
    assert_eq!(
        walk_script_value(&table, 0),
        Some(TypedValue::Arr(vec![
            TypedValue::I64(10),
            TypedValue::I64(20),
            TypedValue::I64(30)
        ]))
    );
}

#[test]
fn table_with_a_string_key_is_a_map() {
    let table = ScriptValue::Table(vec![
        (ScriptValue::Integer(1), ScriptValue::Boolean(true)),
        (ScriptValue::Integer(2), ScriptValue::Boolean(false)),
        (string("x"), ScriptValue::Integer(9)),
    ]);
    assert_eq!(
        walk_script_value(&table, 0),
        Some(TypedValue::Dict(vec![
            (TypedValue::U32(1), TypedValue::Bool(true)),
            (TypedValue::U32(2), TypedValue::Bool(false)),
            (text("x"), TypedValue::I64(9)),
        ]))
    );
}

#[test]
fn table_with_a_gap_is_a_map() {
    let table = ScriptValue::Table(vec![
        (ScriptValue::Integer(1), ScriptValue::Integer(1)),
        (ScriptValue::Integer(3), ScriptValue::Integer(3)),
    ]);
    assert_eq!(
        walk_script_value(&table, 0),
        Some(TypedValue::Dict(vec![
            (TypedValue::U32(1), TypedValue::I64(1)),
            (TypedValue::U32(3), TypedValue::I64(3)),
        ]))
    );
}

#[test]
fn empty_table_is_an_empty_map() {
    assert_eq!(
        walk_script_value(&ScriptValue::Table(vec![]), 0),
        Some(TypedValue::Dict(vec![]))
    );
}

#[test]
fn leaves_become_leaves() {
    assert_eq!(walk_script_value(&ScriptValue::Nil, 0), Some(TypedValue::Nil));
    assert_eq!(walk_script_value(&ScriptValue::Boolean(true), 0), Some(TypedValue::Bool(true)));
    assert_eq!(walk_script_value(&ScriptValue::Integer(-4), 0), Some(TypedValue::I64(-4)));
    assert_eq!(
        walk_script_value(&ScriptValue::Float(2.5f64.to_bits()), 0),
        Some(TypedValue::F64(2.5f64.to_bits()))
    );
    assert_eq!(walk_script_value(&ScriptValue::Function(3), 0), Some(TypedValue::Nil));
    assert_eq!(walk_script_value(&ScriptValue::Thread, 0), Some(TypedValue::Nil));
}

#[test]
fn strings_become_text_or_blob() {
    assert_eq!(walk_script_value(&string("héllo"), 0), Some(text("héllo")));
    assert_eq!(walk_script_value(&string(""), 0), Some(text("")));
    let broken = ScriptValue::Str(vec![0xff, 0xfe, 0x41]);
    assert_eq!(walk_script_value(&broken, 0), Some(TypedValue::Raw(vec![0xff, 0xfe, 0x41])));
    let marked = ScriptValue::Str(vec![140, 150, 141, 151, 104, 105]);
    assert_eq!(walk_script_value(&marked, 0), Some(TypedValue::Raw(vec![104, 105])));
}

#[test]
fn blob_mark_alone_is_not_stripped() {
    let mark = ScriptValue::Str(vec![140, 150, 141, 151]);
    assert_eq!(walk_script_value(&mark, 0), Some(TypedValue::Raw(vec![140, 150, 141, 151])));
    let pushed = value_to_script(&TypedValue::Raw(vec![140, 150, 141, 151]));
    assert_eq!(pushed, ScriptValue::Str(vec![140, 150, 141, 151, 140, 150, 141, 151]));
    assert_eq!(walk_script_value(&pushed, 0), Some(TypedValue::Raw(vec![140, 150, 141, 151])));
}

#[test]
fn blob_survives_the_whole_way() {
    let from_script = ScriptValue::Str(vec![0x80, 0x00, 0xc3]);
    let tree = walk_script_value(&from_script, 0).unwrap();
    assert_eq!(tree, TypedValue::Raw(vec![0x80, 0x00, 0xc3]));
    let bytes = encode_msg(&vec![tree]).unwrap();
    let back = decode_msg(&bytes).unwrap();
    let pushed = value_to_script(&back[0]);
    assert_eq!(pushed, ScriptValue::Str(vec![140, 150, 141, 151, 0x80, 0x00, 0xc3]));
    assert_eq!(walk_script_value(&pushed, 0), Some(TypedValue::Raw(vec![0x80, 0x00, 0xc3])));
}

#[test]
fn depth_guard_stops_deep_tables() {
    assert_eq!(walk_script_value(&nested(150), 0), None);
    assert_eq!(walk_script_value(&nested(101), 0), None);
    assert!(walk_script_value(&nested(100), 0).is_some());
    assert_eq!(walk_script_value(&ScriptValue::Nil, 101), None);
    assert_eq!(walk_script_value(&ScriptValue::Nil, 100), Some(TypedValue::Nil));
    assert_eq!(walk_script_value(&nested(1), 100), None);
}

#[test]
fn failing_entry_fails_the_table() {
    let table = ScriptValue::Table(vec![
        (string("ok"), ScriptValue::Integer(1)),
        (string("deep"), nested(101)),
    ]);
    assert_eq!(walk_script_value(&table, 0), None);
}

#[test]
fn keys_that_cannot_be_taken_fail_the_table() {
    let table = ScriptValue::Table(vec![(ScriptValue::Boolean(true), ScriptValue::Integer(1))]);
    assert_eq!(walk_script_value(&table, 0), None);
    let table =
        ScriptValue::Table(vec![(ScriptValue::Float(1.5f64.to_bits()), ScriptValue::Integer(1))]);
    assert_eq!(walk_script_value(&table, 0), None);
}

#[test]
fn keys_are_cut_to_32_bits_and_read_lossily() {
    let table = ScriptValue::Table(vec![
        (ScriptValue::Integer(0x1_0000_0005), ScriptValue::Integer(1)),
        (ScriptValue::Integer(-1), ScriptValue::Integer(2)),
        (ScriptValue::Str(vec![0xff]), ScriptValue::Integer(3)),
    ]);
    assert_eq!(
        walk_script_value(&table, 0),
        Some(TypedValue::Dict(vec![
            (TypedValue::U32(5), TypedValue::I64(1)),
            (TypedValue::U32(4294967295), TypedValue::I64(2)),
            (text("raw binary string..."), TypedValue::I64(3)),
        ]))
    );
}

#[test]
fn value_tree_becomes_script_value() {
    assert_eq!(value_to_script(&TypedValue::Nil), ScriptValue::Nil);
    assert_eq!(value_to_script(&TypedValue::U8(200)), ScriptValue::Integer(200));
    assert_eq!(value_to_script(&TypedValue::I8(-3)), ScriptValue::Integer(-3));
    assert_eq!(value_to_script(&TypedValue::U64(u64::MAX)), ScriptValue::Integer(-1));
    assert_eq!(value_to_script(&TypedValue::Varint(12)), ScriptValue::Integer(12));
    assert_eq!(value_to_script(&TypedValue::F32(7)), ScriptValue::Single(7));
    assert_eq!(value_to_script(&TypedValue::F64(9)), ScriptValue::Float(9));
    assert_eq!(value_to_script(&text("ab")), string("ab"));
    assert_eq!(value_to_script(&text("a\0b")), string("UNVAILED STRING"));
    assert_eq!(
        value_to_script(&TypedValue::Raw(vec![1, 2])),
        ScriptValue::Str(vec![140, 150, 141, 151, 1, 2])
    );
    assert_eq!(
        value_to_script(&TypedValue::Arr(vec![TypedValue::Bool(true), text("z")])),
        ScriptValue::Table(vec![
            (ScriptValue::Integer(1), ScriptValue::Boolean(true)),
            (ScriptValue::Integer(2), string("z")),
        ])
    );
    assert_eq!(
        value_to_script(&TypedValue::Dict(vec![(text("k"), TypedValue::I64(1))])),
        ScriptValue::Table(vec![(string("k"), ScriptValue::Integer(1))])
    );
}

#[test]
fn faithful_tree_comes_back_from_the_script() {
    let tree = TypedValue::Dict(vec![
        (text("name"), text("point")),
        (TypedValue::U32(7), TypedValue::Arr(vec![TypedValue::I64(1), TypedValue::Bool(false)])),
        (text("blob"), TypedValue::Raw(vec![0, 1, 2])),
    ]);
    let script = value_to_script(&tree);
    assert_eq!(walk_script_value(&script, 0), Some(tree));
}

#[test]
fn map_goes_to_a_fresh_table_and_is_read_back() {
    let tree = TypedValue::Dict(vec![
        (text("a"), TypedValue::I64(1)),
        (text("b"), TypedValue::Arr(vec![TypedValue::I64(1), TypedValue::I64(2), TypedValue::I64(3)])),
    ]);
    let bytes = encode_msg(&vec![tree]).unwrap();
    let mut lua = lua_State::new();
    assert_eq!(ProtoLua::unpack_protocol(&mut lua, &bytes), 1);
    assert_eq!(lua.stack.len(), 1);
    // the message is a table that holds the map under the key 1
    let message = hclua::LuaTable::from_value(lua.get_global(&"none".to_string()));
    assert!(message.is_none());
    let outer = match &lua.stack[0] {
        ScriptValue::Table(entries) => entries,
        other => panic!("not a table: {:?}", other),
    };
    assert_eq!(outer.len(), 1);
    assert_eq!(outer[0].0, ScriptValue::Integer(1));
    let t = match &outer[0].1 {
        ScriptValue::Table(entries) => hclua::LuaTable { entries: entries.iter().map(|(k, v)| (k.duplicate(), v.duplicate())).collect() },
        other => panic!("not a table: {:?}", other),
    };
    assert_eq!(t.query(&b"a".to_vec()), ScriptValue::Integer(1));
    let b = match t.query(&b"b".to_vec()) {
        ScriptValue::Table(entries) => entries,
        other => panic!("not a table: {:?}", other),
    };
    let second = b.iter().find(|(k, _)| *k == ScriptValue::Integer(2)).unwrap();
    assert_eq!(second.1, ScriptValue::Integer(2));
}

#[test]
fn pack_and_unpack_by_way_of_the_stack() {
    let mut lua = lua_State::new();
    lua.push(ScriptValue::Integer(5));
    lua.push(string("five"));
    lua.push(ScriptValue::Table(vec![(ScriptValue::Integer(1), ScriptValue::Boolean(true))]));
    let bytes = ProtoLua::pack_protocol(&lua, 1).unwrap();
    let mut other = lua_State::new();
    assert_eq!(ProtoLua::unpack_protocol(&mut other, &bytes), 1);
    assert_eq!(
        other.stack[0],
        ScriptValue::Table(vec![
            (ScriptValue::Integer(1), ScriptValue::Integer(5)),
            (ScriptValue::Integer(2), string("five")),
            (
                ScriptValue::Integer(3),
                ScriptValue::Table(vec![(ScriptValue::Integer(1), ScriptValue::Boolean(true))])
            ),
        ])
    );
    assert_eq!(ProtoLua::unpack_protocol(&mut other, &vec![0, 16, 2]), 0);
    assert_eq!(other.stack.len(), 1);
}

#[test]
fn pack_fails_on_a_deep_table() {
    let mut lua = lua_State::new();
    lua.push(nested(150));
    assert_eq!(ProtoLua::pack_protocol(&lua, 1), None);
}

#[test]
fn pack_keeps_to_the_ceiling() {
    // 300 blobs of 60000 bytes make more than 16777215 bytes
    let mut lua = lua_State::new();
    for _ in 0..300 {
        lua.push(ScriptValue::Str(vec![0xff; 60000]));
    }
    assert_eq!(ProtoLua::pack_protocol(&lua, 1), None);
    assert_eq!(hclua::protocol::proto_lua::within_ceiling(vec![0; 16777216]), None);
    assert_eq!(
        hclua::protocol::proto_lua::within_ceiling(vec![0; 16777215]).map(|b| b.len()),
        Some(16777215)
    );
}

#[test]
fn conversion_reads_from_the_index_up() {
    let mut lua = lua_State::new();
    lua.push(ScriptValue::Integer(1));
    lua.push(ScriptValue::Integer(2));
    lua.push(ScriptValue::Integer(3));
    assert_eq!(
        SerUtils::lua_convert_value(&lua, 2),
        Some(vec![TypedValue::I64(2), TypedValue::I64(3)])
    );
    assert_eq!(SerUtils::lua_convert_value(&lua, 4), Some(vec![]));
    // a negative index reads downwards, and what is not there reads as nil
    assert_eq!(
        SerUtils::lua_convert_value(&lua, -2),
        Some(vec![TypedValue::I64(2), TypedValue::I64(1)])
    );
    assert_eq!(
        SerUtils::lua_convert_value(&lua, -3),
        Some(vec![TypedValue::I64(1), TypedValue::Nil, TypedValue::Nil])
    );
    assert_eq!(SerUtils::lua_read_value(&lua, 9, 0), Some(TypedValue::Nil));
    assert_eq!(SerUtils::lua_read_value(&lua, 1, 101), None);
    assert_eq!(SerUtils::read_str_to_vec(&lua, 1), None);
    lua.push(string("s"));
    assert_eq!(SerUtils::read_str_to_vec(&lua, -1), Some(vec![115]));
}

#[test]
fn ser_protocol_takes_tables_only() {
    let mut lua = lua_State::new();
    lua.push(ScriptValue::Nil);
    lua.push(ScriptValue::Integer(1));
    lua.push(ScriptValue::Table(vec![(string("k"), ScriptValue::Integer(3))]));
    lua.push(nested(150));
    lua.push(ScriptValue::Table(vec![(string("k"), ScriptValue::Str(vec![0xff; 70000]))]));
    assert_eq!(ProtoLua::ser_protocol(&lua, 1), Ok(None));
    assert_eq!(ProtoLua::ser_protocol(&lua, 2), Err(SerFault::NotTable));
    assert_eq!(ProtoLua::ser_protocol(&lua, 9), Err(SerFault::NotTable));
    assert!(matches!(ProtoLua::ser_protocol(&lua, 3), Ok(Some(_))));
    assert_eq!(ProtoLua::ser_protocol(&lua, 4), Ok(None));
    assert_eq!(ProtoLua::ser_protocol(&lua, 5), Err(SerFault::Oversize));
    assert_eq!(SerFault::NotTable.message(), "类型必须为table");
    assert_eq!(SerFault::TooLong.message(), "pack message(lua msg) size > 0xFFFF fail!");
}

#[test]
fn des_protocol_puts_a_dictionary_on_the_stack() {
    let mut lua = lua_State::new();
    assert_eq!(ProtoLua::des_protocol(&mut lua, &vec![0, 4, 2, 1, 2, 10]), 1);
    assert_eq!(
        lua.stack[0],
        ScriptValue::Table(vec![(ScriptValue::Integer(1), ScriptValue::Integer(10))])
    );
    assert_eq!(ProtoLua::des_protocol(&mut lua, &vec![0, 4, 2, 1]), 0);
    assert_eq!(lua.stack.len(), 1);
}

#[test]
fn wrappers_push_one_slot_or_many() {
    let mut lua = lua_State::new();
    assert_eq!(LuaWrapperValue(TypedValue::Bool(true)).push_to_lua(&mut lua), 1);
    assert_eq!(
        LuaWrapperVecValue(vec![TypedValue::I64(1), text("t"), TypedValue::Nil]).push_to_lua(&mut lua),
        3
    );
    assert_eq!(LuaWrapperVecValue(vec![]).push_to_lua(&mut lua), 0);
    assert_eq!(LuaWrapperTableValue(vec![TypedValue::I64(4)]).push_to_lua(&mut lua), 1);
    assert_eq!(
        lua.stack,
        vec![
            ScriptValue::Boolean(true),
            ScriptValue::Integer(1),
            string("t"),
            ScriptValue::Nil,
            ScriptValue::Table(vec![(ScriptValue::Integer(1), ScriptValue::Integer(4))]),
        ]
    );
}

#[test]
fn record_fields_fold_into_a_map() {
    let fields = vec![text("x"), TypedValue::I64(1), text("y"), TypedValue::I64(2)];
    assert_eq!(
        fields_to_map(fields),
        TypedValue::Dict(vec![(text("y"), TypedValue::I64(2)), (text("x"), TypedValue::I64(1))])
    );
    assert_eq!(
        fields_to_map(vec![text("odd"), text("k"), TypedValue::Nil]),
        TypedValue::Dict(vec![(text("k"), TypedValue::Nil)])
    );
    assert_eq!(fields_to_map(vec![]), TypedValue::Dict(vec![]));
}

#[test]
fn ser_protocol_keeps_to_the_ceiling() {
    let mut entries = Vec::new();
    for i in 0..300 {
        entries.push((ScriptValue::Integer(i + 1), ScriptValue::Str(vec![0xff; 60000])));
    }
    let mut lua = lua_State::new();
    lua.push(ScriptValue::Table(entries));
    assert_eq!(ProtoLua::ser_protocol(&lua, 1), Err(SerFault::TooLong));
    assert_eq!(SerFault::Oversize.message(), "序列化错误:length over limit");
}
