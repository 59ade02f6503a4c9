use hclua::object::{FieldRegistry, ObjectState, TrapAction, FN_DEL_BAD, FN_DEL_LIGHT, FN_FINALIZER, FN_INDEX, FN_NEW, FN_NEWINDEX, FN_NEW_LIGHT};
use hclua::sys::lua_State;
use hclua::userdata::{
    destroy_light, push_wrapper_lightuserdata, read_pop_wrapper_light_userdata,
    read_wrapper_light_userdata, BridgeFault,
};
use hclua::{push_lightuserdata, push_userdata, read_userdata, Handle, LuaModule, LuaObject, LuaTable, ScriptValue};

fn s(text: &str) -> String {
    text.to_string()
}

fn string(text: &str) -> ScriptValue {
    ScriptValue::Str(text.as_bytes().to_vec())
}

struct Point {
    x: i32,
    y: i32,
}

// Plays the host's part of a trap: performs the one call that the trap asks for.
fn perform(action: TrapAction, point: &mut Point) -> Result<Option<i64>, String> {
    match action {
        TrapAction::Fault(msg) => Err(msg),
        TrapAction::Nothing => Ok(None),
        TrapAction::Entry(_) => Ok(None),
        TrapAction::Call { callable, args } => match callable {
            ScriptValue::Function(100) => Ok(Some(point.x as i64)),
            ScriptValue::Function(101) => {
                assert_eq!(args.len(), 2);
                match args[1] {
                    ScriptValue::Integer(v) => point.x = v as i32,
                    _ => return Err(s("wrong value")),
                }
                Ok(None)
            }
            ScriptValue::Function(102) => Ok(Some(point.y as i64)),
            ScriptValue::Function(103) => {
                match args[1] {
                    ScriptValue::Integer(v) => point.y = v as i32,
                    _ => return Err(s("wrong value")),
                }
                Ok(None)
            }
            other => Err(format!("not callable: {:?}", other)),
        },
    }
}

fn registered_point(lua: &mut lua_State, fields: &mut FieldRegistry) -> LuaObject {
    let obj = LuaObject::new(s("tag::Point"), s("Point"));
    obj.create(lua);
    obj.add_method_get(lua, &s("x"), ScriptValue::Function(100));
    obj.add_method_set(lua, &s("x"), ScriptValue::Function(101));
    obj.mark_field(fields, s("x"));
    obj.add_method_get(lua, &s("y"), ScriptValue::Function(102));
    obj.add_method_set(lua, &s("y"), ScriptValue::Function(103));
    obj.mark_field(fields, s("y"));
    obj.object_def(lua, &s("get_x"), ScriptValue::Function(100));
    obj
}

#[test]
fn heavy_handle_reads_under_its_own_tag_only() {
    let mut lua = lua_State::new();
    assert_eq!(push_userdata(0x1000, &mut lua, &s("A")), 1);
    assert_eq!(read_userdata(&lua, -1, &s("A")), Some(0x1000));
    assert_eq!(read_userdata(&lua, -1, &s("B")), None);
    assert_eq!(read_userdata(&lua, 1, &s("A")), Some(0x1000));
    assert_eq!(read_userdata(&lua, 2, &s("A")), None);
    assert_eq!(read_wrapper_light_userdata(&lua, -1, &s("A")), None);
}

#[test]
fn bare_pointer_reads_under_its_own_tag_only() {
    let mut lua = lua_State::new();
    assert_eq!(push_lightuserdata(0x2000, &mut lua, &s("A")), 1);
    assert_eq!(lua.stack[0], ScriptValue::UserData(Handle::Raw { tag: Some(s("A")), ptr: 0x2000 }));
    assert_eq!(read_userdata(&lua, 1, &s("A")), Some(0x2000));
    assert_eq!(read_userdata(&lua, 1, &s("AA")), None);
}

#[test]
fn null_and_untagged_handles_read_as_nothing() {
    let mut lua = lua_State::new();
    lua.push(ScriptValue::UserData(Handle::Heavy { tag: None, addr: 0x10 }));
    lua.push(ScriptValue::UserData(Handle::Heavy { tag: Some(s("A")), addr: 0 }));
    lua.push(ScriptValue::Integer(5));
    assert_eq!(read_userdata(&lua, 1, &s("A")), None);
    assert_eq!(read_userdata(&lua, 2, &s("A")), None);
    assert_eq!(read_userdata(&lua, 3, &s("A")), None);
}

#[test]
fn light_handle_needs_a_registered_type() {
    let mut lua = lua_State::new();
    assert_eq!(
        push_wrapper_lightuserdata(0x3000, &mut lua, &s("A")),
        Err(BridgeFault::UnregisteredType)
    );
    assert_eq!(lua.stack.len(), 0);
    let obj = LuaObject::new_light(s("A"), s("TypeA"));
    assert!(!obj.ensure_matetable(&mut lua));
    assert_eq!(push_wrapper_lightuserdata(0x3000, &mut lua, &s("A")), Ok(1));
    assert_eq!(
        lua.stack[0],
        ScriptValue::UserData(Handle::Shadow { name: s("A"), ptr: 0x3000, linked: true })
    );
    assert_eq!(read_wrapper_light_userdata(&lua, 1, &s("A")), Some(0x3000));
    assert_eq!(read_wrapper_light_userdata(&lua, 1, &s("B")), None);
    assert_eq!(read_userdata(&lua, 1, &s("A")), None);
}

#[test]
fn destroyed_light_handle_is_dead() {
    let mut lua = lua_State::new();
    let obj = LuaObject::new_light(s("A"), s("TypeA"));
    obj.create(&mut lua);
    assert_eq!(obj.constructor_light_wrapper(&mut lua, 0x4000), Ok(1));
    assert_eq!(destroy_light(&mut lua, 1, &s("B")), None);
    assert_eq!(read_wrapper_light_userdata(&lua, 1, &s("A")), Some(0x4000));
    assert_eq!(destroy_light(&mut lua, 1, &s("A")), Some(0x4000));
    assert_eq!(
        lua.stack[0],
        ScriptValue::UserData(Handle::Shadow { name: s("A"), ptr: 0, linked: false })
    );
    assert_eq!(read_wrapper_light_userdata(&lua, 1, &s("A")), None);
    assert_eq!(destroy_light(&mut lua, 1, &s("A")), None);
    assert_eq!(obj.destructor_light_wrapper(&mut lua), None);
    assert_eq!(
        lua.stack[0],
        ScriptValue::UserData(Handle::Shadow { name: s("A"), ptr: 0, linked: false })
    );
}

#[test]
fn taken_light_handle_keeps_its_link() {
    let mut lua = lua_State::new();
    lua.push(ScriptValue::Integer(0));
    lua.push(ScriptValue::UserData(Handle::Shadow { name: s("A"), ptr: 0x5000, linked: true }));
    assert_eq!(read_pop_wrapper_light_userdata(&mut lua, 2, &s("B")), None);
    assert_eq!(read_pop_wrapper_light_userdata(&mut lua, 2, &s("A")), Some(0x5000));
    assert_eq!(
        lua.stack[1],
        ScriptValue::UserData(Handle::Shadow { name: s("A"), ptr: 0, linked: true })
    );
    assert_eq!(lua.stack[0], ScriptValue::Integer(0));
    assert_eq!(read_pop_wrapper_light_userdata(&mut lua, 2, &s("A")), None);
}

#[test]
fn registration_builds_the_tables_once() {
    let mut lua = lua_State::new();
    let obj = LuaObject::new(s("tag::P"), s("P"));
    assert_eq!(obj.state_in(&lua), ObjectState::Unregistered);
    assert!(!obj.ensure_matetable(&mut lua));
    assert_eq!(obj.state_in(&lua), ObjectState::MetatableBuilt);
    assert!(obj.ensure_matetable(&mut lua));
    let meta = LuaTable::from_value(lua.get_global(&s("tag::P"))).unwrap();
    assert_eq!(meta.entries.len(), 4);
    assert_eq!(meta.query(&b"__typeid".to_vec()), string("tag::P"));
    assert_eq!(meta.query(&b"__gc".to_vec()), ScriptValue::Function(FN_FINALIZER));
    assert_eq!(meta.query(&b"__index".to_vec()), ScriptValue::Function(FN_INDEX));
    assert_eq!(meta.query(&b"__newindex".to_vec()), ScriptValue::Function(FN_NEWINDEX));
    assert_eq!(lua.get_global(&s("tag::P_real")), ScriptValue::Table(vec![]));
    obj.ensure_table(&mut lua);
    assert_eq!(obj.state_in(&lua), ObjectState::TableExposed);
    let exposed = LuaTable::from_value(lua.get_global(&s("P"))).unwrap();
    assert_eq!(exposed.query(&b"new".to_vec()), ScriptValue::Function(FN_NEW));
    assert_eq!(exposed.query(&b"del".to_vec()), ScriptValue::Function(FN_DEL_BAD));
    obj.object_def(&mut lua, &s("m"), ScriptValue::Function(50));
    assert_eq!(obj.state_in(&lua), ObjectState::MethodsBound);
    obj.create(&mut lua);
    assert_eq!(obj.state_in(&lua), ObjectState::MethodsBound);
    assert_eq!(lua.globals.len(), 3);
}

#[test]
fn light_type_has_no_finalizer_and_a_real_destructor() {
    let mut lua = lua_State::new();
    let obj = LuaObject::new_light(s("L"), s("Light"));
    obj.create(&mut lua);
    let meta = LuaTable::from_value(lua.get_global(&s("L"))).unwrap();
    assert_eq!(meta.entries.len(), 3);
    assert_eq!(meta.query(&b"__gc".to_vec()), ScriptValue::Nil);
    let exposed = LuaTable::from_value(lua.get_global(&s("Light"))).unwrap();
    assert_eq!(exposed.query(&b"new".to_vec()), ScriptValue::Function(FN_NEW_LIGHT));
    assert_eq!(exposed.query(&b"del".to_vec()), ScriptValue::Function(FN_DEL_LIGHT));
}

#[test]
fn definitions_without_tables_change_nothing() {
    let mut lua = lua_State::new();
    let obj = LuaObject::new(s("T"), s("Name"));
    obj.object_def(&mut lua, &s("m"), ScriptValue::Function(1));
    obj.add_method_set(&mut lua, &s("f"), ScriptValue::Function(2));
    obj.object_register(&mut lua, &s("r"), 3);
    assert_eq!(lua.globals.len(), 0);
    assert_eq!(lua.stack.len(), 0);
}

#[test]
fn static_definitions_go_to_the_exposed_table() {
    let mut lua = lua_State::new();
    let obj = LuaObject::new(s("T"), s("Name"));
    obj.static_def(&mut lua, &s("make"), ScriptValue::Function(60));
    obj.static_register(&mut lua, &s("count"), 61);
    let exposed = LuaTable::from_value(lua.get_global(&s("Name"))).unwrap();
    assert_eq!(exposed.query(&b"make".to_vec()), ScriptValue::Function(60));
    assert_eq!(exposed.query(&b"count".to_vec()), ScriptValue::Function(61));
    assert_eq!(exposed.query(&b"new".to_vec()), ScriptValue::Function(FN_NEW));
    assert_eq!(lua.stack.len(), 0);
}

#[test]
fn point_scenario() {
    let mut lua = lua_State::new();
    let mut fields = FieldRegistry::new();
    let obj = registered_point(&mut lua, &mut fields);
    let mut point = Point { x: 0, y: 0 };
    // p = Point.new()
    let mut call = lua_State::new();
    call.globals = lua.duplicate().globals;
    assert_eq!(obj.constructor_wrapper(&mut call, 0x7000), 1);
    let p = call.stack[0].duplicate();
    assert_eq!(p, ScriptValue::UserData(Handle::Heavy { tag: Some(s("tag::Point")), addr: 0x7000 }));
    // p.x = 5
    let mut call = lua.duplicate();
    call.push(p.duplicate());
    call.push(string("x"));
    call.push(ScriptValue::Integer(5));
    let action = obj.newindex_metatable(&call, &fields);
    assert_eq!(
        action,
        TrapAction::Call {
            callable: ScriptValue::Function(101),
            args: vec![p.duplicate(), ScriptValue::Integer(5)]
        }
    );
    assert_eq!(perform(action, &mut point), Ok(None));
    // print(p.x)
    let mut call = lua.duplicate();
    call.push(p.duplicate());
    call.push(string("x"));
    let action = obj.index_metatable(&call, &fields);
    assert_eq!(
        action,
        TrapAction::Call { callable: ScriptValue::Function(100), args: vec![p.duplicate()] }
    );
    assert_eq!(perform(action, &mut point), Ok(Some(5)));
    // p:get_x()
    let mut call = lua.duplicate();
    call.push(p.duplicate());
    call.push(string("get_x"));
    let action = obj.index_metatable(&call, &fields);
    assert_eq!(action, TrapAction::Entry(ScriptValue::Function(100)));
    let callable = match action {
        TrapAction::Entry(f) => f,
        _ => unreachable!(),
    };
    let explicit = perform(TrapAction::Call { callable, args: vec![p] }, &mut point);
    assert_eq!(explicit, Ok(Some(5)));
    assert_eq!(point.y, 0);
}

#[test]
fn unregistered_key_is_refused_and_nothing_is_called() {
    let mut lua = lua_State::new();
    let mut fields = FieldRegistry::new();
    let obj = registered_point(&mut lua, &mut fields);
    let mut point = Point { x: 1, y: 2 };
    lua.push(ScriptValue::UserData(Handle::Heavy { tag: Some(s("tag::Point")), addr: 0x7000 }));
    lua.push(string("z"));
    lua.push(ScriptValue::Integer(9));
    let before = lua.duplicate();
    let action = obj.newindex_metatable(&lua, &fields);
    assert_eq!(action, TrapAction::Fault(s("key z not a field")));
    assert_eq!(perform(action, &mut point), Err(s("key z not a field")));
    assert_eq!((point.x, point.y), (1, 2));
    assert_eq!(lua.stack, before.stack);
    assert_eq!(lua.globals, before.globals);
}

#[test]
fn traps_on_odd_arguments() {
    let mut lua = lua_State::new();
    let mut fields = FieldRegistry::new();
    let obj = registered_point(&mut lua, &mut fields);
    assert_eq!(
        obj.index_metatable(&lua, &fields),
        TrapAction::Fault(s("index field must use 2 top"))
    );
    lua.push(ScriptValue::Nil);
    lua.push(ScriptValue::Integer(3));
    assert_eq!(
        obj.index_metatable(&lua, &fields),
        TrapAction::Fault(s("key must be a string"))
    );
    assert_eq!(
        obj.newindex_metatable(&lua, &fields),
        TrapAction::Fault(s("key must be a string"))
    );
    let short = lua_State::new();
    assert_eq!(
        obj.newindex_metatable(&short, &fields),
        TrapAction::Fault(s("key must be a string"))
    );
    let mut lua2 = lua.duplicate();
    lua2.set_top(1);
    lua2.push(string("nothing_here"));
    assert_eq!(obj.index_metatable(&lua2, &fields), TrapAction::Entry(ScriptValue::Nil));
    // a registered field without a setter gives nothing
    obj.mark_field(&mut fields, s("w"));
    lua2.set_top(1);
    lua2.push(string("w"));
    lua2.push(ScriptValue::Integer(1));
    assert_eq!(obj.newindex_metatable(&lua2, &fields), TrapAction::Nothing);
    // a value that is missing is handed to the setter as nil
    lua2.set_top(1);
    lua2.push(string("y"));
    assert_eq!(
        obj.newindex_metatable(&lua2, &fields),
        TrapAction::Call {
            callable: ScriptValue::Function(103),
            args: vec![ScriptValue::Nil, ScriptValue::Nil]
        }
    );
}

#[test]
fn field_registry_keeps_types_apart() {
    let mut fields = FieldRegistry::new();
    let a = LuaObject::new(s("A"), s("NameA"));
    let b = LuaObject::new(s("B"), s("NameB"));
    assert!(!a.is_field(&fields, &s("x")));
    a.set_field(&mut fields, s("x"));
    assert!(a.is_field(&fields, &s("x")));
    assert!(!a.is_field(&fields, &s("y")));
    assert!(!b.is_field(&fields, &s("x")));
    assert!(fields.is_field(&s("A"), &s("x")));
}

#[test]
fn keys_of_a_type() {
    let obj = LuaObject::new(s("T"), s("N"));
    assert_eq!(obj.get_metatable_base_key(), "T");
    assert_eq!(obj.get_metatable_real_key(), "T_real");
    assert_eq!(LuaObject::get_set_field_key(&s("x")), "x__set");
    assert!(!obj.light);
    assert!(LuaObject::new_light(s("T"), s("N")).light);
}

#[test]
fn heavy_destructor_refuses_and_finalizer_finds_the_block() {
    assert_eq!(
        LuaObject::destructor_bad_wrapper(),
        TrapAction::Fault(s("usedata object must not del, beacuse it belong to lua gc"))
    );
    let mut lua = lua_State::new();
    assert_eq!(LuaObject::destructor_wrapper(&lua), None);
    let obj = LuaObject::new(s("T"), s("N"));
    assert_eq!(obj.constructor_wrapper(&mut lua, 0x900), 1);
    assert_eq!(lua.stack[0], ScriptValue::UserData(Handle::Heavy { tag: None, addr: 0x900 }));
    assert_eq!(LuaObject::destructor_wrapper(&lua), Some(0x900));
    lua.push(ScriptValue::Integer(1));
    assert_eq!(LuaObject::destructor_wrapper(&lua), None);
}

#[test]
fn module_holds_what_is_defined() {
    let mut lua = lua_State::new();
    let module = LuaModule::new(s("net"));
    assert_eq!(module.ensure(&mut lua), LuaTable { entries: vec![] });
    module.def(&mut lua, &s("port"), 8080i32);
    module.def(&mut lua, &s("name"), s("srv"));
    module.register(&mut lua, &s("send"), 77);
    module.def(&mut lua, &s("port"), 9090i32);
    let table = module.ensure(&mut lua);
    assert_eq!(table.entries.len(), 3);
    assert_eq!(table.query(&b"port".to_vec()), ScriptValue::Integer(9090));
    assert_eq!(table.query(&b"name".to_vec()), string("srv"));
    assert_eq!(table.query(&b"send".to_vec()), ScriptValue::Function(77));
    assert_eq!(table.query(&b"none".to_vec()), ScriptValue::Nil);
    assert_eq!(lua.stack.len(), 0);
    assert_eq!(lua.globals.len(), 1);
}

#[test]
fn field_registry_holds_no_pair_twice() {
    let mut fields = FieldRegistry::new();
    assert_eq!(fields.fields.len(), 0);
    fields.set_field(s("A"), s("x"));
    fields.set_field(s("A"), s("x"));
    fields.set_field(s("A"), s("y"));
    fields.set_field(s("B"), s("x"));
    fields.set_field(s("A"), s("y"));
    assert_eq!(
        fields.fields,
        vec![(s("A"), s("x")), (s("A"), s("y")), (s("B"), s("x"))]
    );
    let a = LuaObject::new(s("A"), s("NameA"));
    a.set_field(&mut fields, s("x"));
    a.mark_field(&mut fields, s("z"));
    a.mark_field(&mut fields, s("z"));
    assert_eq!(fields.fields.len(), 4);
}

#[test]
fn a_second_registration_changes_nothing() {
    let mut lua = lua_State::new();
    let mut fields = FieldRegistry::new();
    let obj = registered_point(&mut lua, &mut fields);
    let before = lua.duplicate();
    obj.create(&mut lua);
    assert_eq!(lua.globals, before.globals);
    assert_eq!(lua.stack, before.stack);
}

#[test]
fn key_text_is_read_with_a_placeholder() {
    let mut lua = lua_State::new();
    lua.push(string("name"));
    lua.push(ScriptValue::Str(vec![0xff, 0xfe]));
    lua.push(ScriptValue::Integer(1));
    assert_eq!(hclua::object::read_text(&lua, 1), Some(s("name")));
    assert_eq!(hclua::object::read_text(&lua, 2), Some(s("raw binary string...")));
    assert_eq!(hclua::object::read_text(&lua, 3), None);
    assert_eq!(hclua::object::read_text(&lua, 4), None);
    assert_eq!(hclua::object::read_text(&lua, -3), Some(s("name")));
}
