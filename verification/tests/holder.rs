use hclua::extra::ExtraData;
use hclua::module::{dotted_name, entry_point_name, register_name};
use hclua::sys::lua_State;
use hclua::{Lua, LuaTable, ScriptValue};

fn string(text: &str) -> ScriptValue {
    ScriptValue::Str(text.as_bytes().to_vec())
}

fn with_package(entries: Vec<(ScriptValue, ScriptValue)>) -> Lua {
    let mut state = lua_State::new();
    state.set_global("package".to_string(), ScriptValue::Table(entries));
    Lua::from_existing_state(state, true)
}

fn package_field(lua: &Lua, name: &str) -> ScriptValue {
    let table = LuaTable::from_value(lua.lua.get_global(&"package".to_string())).unwrap();
    table.query(&name.as_bytes().to_vec())
}

#[test]
fn search_paths_grow() {
    let mut lua = with_package(vec![(string("path"), string("./?.lua"))]);
    assert_eq!(lua.add_path(false, "mods".to_string(), false), 0);
    assert_eq!(package_field(&lua, "path"), string("./?.lua;./mods/?.lua;./mods/?/init.lua"));
    assert_eq!(lua.add_path(true, "bin".to_string(), false), 0);
    assert_eq!(package_field(&lua, "cpath"), string(";./bin/?.so;"));
    assert_eq!(lua.add_path(true, "win".to_string(), true), 0);
    assert_eq!(package_field(&lua, "cpath"), string(";./bin/?.so;;./win/?.dll;"));
    assert_eq!(package_field(&lua, "path"), string("./?.lua;./mods/?.lua;./mods/?/init.lua"));
}

#[test]
fn search_path_that_is_no_text_starts_anew() {
    let mut lua = with_package(vec![(string("path"), ScriptValue::Str(vec![0xff]))]);
    lua.add_path(false, "m".to_string(), false);
    assert_eq!(package_field(&lua, "path"), string(";./m/?.lua;./m/?/init.lua"));
    let mut bare = Lua::new();
    assert_eq!(bare.add_path(false, "m".to_string(), false), 0);
    assert_eq!(bare.lua.globals.len(), 0);
}

#[test]
fn loader_goes_to_the_second_place() {
    let loaders = ScriptValue::Table(vec![
        (ScriptValue::Integer(1), ScriptValue::Function(11)),
        (ScriptValue::Integer(2), ScriptValue::Function(12)),
        (ScriptValue::Integer(3), ScriptValue::Function(13)),
    ]);
    let mut lua = with_package(vec![(string("searchers"), loaders), (string("path"), string("p"))]);
    assert_eq!(lua.add_lualoader(99), 0);
    let list = LuaTable::from_value(package_field(&lua, "searchers")).unwrap();
    assert_eq!(list.raw_len(), 4);
    assert_eq!(list.index(1), ScriptValue::Function(11));
    assert_eq!(list.index(2), ScriptValue::Function(99));
    assert_eq!(list.index(3), ScriptValue::Function(12));
    assert_eq!(list.index(4), ScriptValue::Function(13));
    assert_eq!(list.index(5), ScriptValue::Nil);
    assert_eq!(package_field(&lua, "path"), string("p"));
}

#[test]
fn loader_in_short_lists() {
    let mut lua = with_package(vec![(string("searchers"), ScriptValue::Table(vec![]))]);
    lua.add_lualoader(5);
    let list = LuaTable::from_value(package_field(&lua, "searchers")).unwrap();
    assert_eq!(list.index(1), ScriptValue::Nil);
    assert_eq!(list.index(2), ScriptValue::Function(5));
    let one = ScriptValue::Table(vec![(ScriptValue::Integer(1), ScriptValue::Function(1))]);
    let mut lua = with_package(vec![(string("searchers"), one)]);
    lua.add_lualoader(5);
    let list = LuaTable::from_value(package_field(&lua, "searchers")).unwrap();
    assert_eq!(list.raw_len(), 2);
    assert_eq!(list.index(1), ScriptValue::Function(1));
    assert_eq!(list.index(2), ScriptValue::Function(5));
    let mut none = with_package(vec![(string("searchers"), ScriptValue::Integer(1))]);
    none.add_lualoader(5);
    assert_eq!(package_field(&none, "searchers"), ScriptValue::Integer(1));
}

#[test]
fn tables_by_number() {
    let mut table = LuaTable::new();
    assert_eq!(table.raw_len(), 0);
    table.set_index(1, string("a"));
    table.set_index(3, string("c"));
    table.set(b"k".to_vec(), ScriptValue::Integer(9));
    assert_eq!(table.raw_len(), 1);
    table.set_index(2, string("b"));
    assert_eq!(table.raw_len(), 3);
    table.set_index(2, string("B"));
    assert_eq!(table.index(2), string("B"));
    assert_eq!(table.index(7), ScriptValue::Nil);
    assert_eq!(table.query(&b"k".to_vec()), ScriptValue::Integer(9));
    assert_eq!(table.entries.len(), 4);
}

#[test]
fn protected_call_is_set_up_and_taken_down() {
    let mut state = lua_State::new();
    state.set_global("error_handle".to_string(), ScriptValue::Function(1));
    state.set_global("work".to_string(), ScriptValue::Function(2));
    state.push(ScriptValue::Integer(10));
    state.push(ScriptValue::Integer(20));
    let mut lua = Lua::from_existing_state(state, true);
    assert_eq!(lua.begin_call(&"work".to_string()), 2);
    assert_eq!(
        lua.lua.stack,
        vec![
            ScriptValue::Function(1),
            ScriptValue::Function(2),
            ScriptValue::Integer(10),
            ScriptValue::Integer(20),
        ]
    );
    // the runtime has made the call: the handler and the result are left
    lua.set_top(1);
    lua.lua.push(ScriptValue::Integer(30));
    assert_eq!(lua.end_call::<i32>(0), Some(30));
    assert_eq!(lua.get_top(), 0);
    lua.lua.push(ScriptValue::Function(1));
    lua.lua.push(string("it failed"));
    assert_eq!(lua.end_call::<String>(2), None);
    assert_eq!(lua.get_top(), 0);
    lua.lua.push(ScriptValue::Integer(7));
    lua.lua.push(ScriptValue::Function(1));
    lua.lua.push(string("not a number"));
    assert_eq!(lua.end_call::<i32>(0), None);
    assert_eq!(lua.lua.stack, vec![ScriptValue::Integer(7)]);
}

#[test]
fn pointers_hang_on_interpreters() {
    let mut extra = ExtraData::new();
    assert_eq!(extra.read_from_extraspace(1), 0);
    extra.copy_to_extraspace(1, 0x100);
    extra.copy_to_extraspace(2, 0x200);
    extra.copy_to_extraspace(1, 0x300);
    assert_eq!(extra.read_from_extraspace(1), 0x300);
    assert_eq!(extra.read_from_extraspace(2), 0x200);
    extra.close_extraspace(1);
    assert_eq!(extra.read_from_extraspace(1), 0);
    assert_eq!(extra.read_from_extraspace(2), 0x200);
    extra.close_extraspace(3);
    assert_eq!(extra.read_from_extraspace(2), 0x200);
}

#[test]
fn native_modules_have_their_names() {
    assert_eq!(entry_point_name(&"net_tcp".to_string()), "luaopen_net_tcp");
    assert_eq!(register_name(&"net_tcp".to_string()), "luareg_net_tcp");
    assert_eq!(dotted_name(&"net_tcp_v2".to_string()), Some(b"net.tcp.v2".to_vec()));
    assert_eq!(dotted_name(&"net".to_string()), None);
    assert_eq!(dotted_name(&"_".to_string()), Some(b".".to_vec()));
}

#[test]
fn chunks_are_named_after_their_files() {
    assert_eq!(Lua::chunk_name(&"main.lua".to_string()), b"main.lua".to_vec());
    assert_eq!(
        Lua::chunk_name(&"0123456789012345678901234567890123456789".to_string()),
        b"012345678901234567890123456789".to_vec()
    );
    let thirty = "a".repeat(30);
    assert_eq!(Lua::chunk_name(&thirty), thirty.as_bytes().to_vec());
    assert_eq!(
        Lua::load_error(&"a.lua".to_string(), &"bad".to_string()),
        "error loading from file a.lua :\n\tbad"
    );
}
