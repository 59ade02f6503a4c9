use hclua::functions::read_arguments;
use hclua::object::TrapAction;
use hclua::sys::{lua_State, LUA_TBOOLEAN, LUA_TNIL, LUA_TNONE, LUA_TNUMBER, LUA_TSTRING, LUA_TTABLE, LUA_TUSERDATA};
use hclua::{function0, function1, function2, FunctionExt, Handle, Lua, LuaGuard, LuaPush, LuaRead, RawString, ScriptValue};

fn string(text: &str) -> ScriptValue {
    ScriptValue::Str(text.as_bytes().to_vec())
}

fn stack_of(values: Vec<ScriptValue>) -> lua_State {
    let mut lua = lua_State::new();
    for v in values {
        lua.push(v);
    }
    lua
}

#[test]
fn indexes_count_from_both_ends() {
    let lua = stack_of(vec![ScriptValue::Integer(1), ScriptValue::Integer(2), ScriptValue::Integer(3)]);
    assert_eq!(lua.top(), 3);
    assert_eq!(lua.slot(1), Some(&ScriptValue::Integer(1)));
    assert_eq!(lua.slot(3), Some(&ScriptValue::Integer(3)));
    assert_eq!(lua.slot(-1), Some(&ScriptValue::Integer(3)));
    assert_eq!(lua.slot(-3), Some(&ScriptValue::Integer(1)));
    assert_eq!(lua.slot(0), None);
    assert_eq!(lua.slot(4), None);
    assert_eq!(lua.slot(-4), None);
    assert_eq!(lua.slot(i32::MIN), None);
    assert_eq!(lua.slot(i32::MAX), None);
    assert_eq!(lua.position(-1), Some(2));
}

#[test]
fn type_codes() {
    let lua = stack_of(vec![
        ScriptValue::Nil,
        ScriptValue::Boolean(false),
        ScriptValue::Integer(0),
        ScriptValue::Float(0),
        string(""),
        ScriptValue::Table(vec![]),
        ScriptValue::Function(1),
        ScriptValue::UserData(Handle::Heavy { tag: None, addr: 1 }),
        ScriptValue::UserData(Handle::Raw { tag: None, ptr: 1 }),
        ScriptValue::Thread,
    ]);
    let codes: Vec<i32> = (1..=11).map(|i| lua.type_at(i)).collect();
    assert_eq!(codes, vec![0, 1, 3, 3, 4, 5, 6, 7, 2, 8, -1]);
    assert_eq!(LUA_TNONE, -1);
    assert_eq!((LUA_TNIL, LUA_TBOOLEAN, LUA_TNUMBER, LUA_TSTRING, LUA_TTABLE, LUA_TUSERDATA), (0, 1, 3, 4, 5, 7));
}

#[test]
fn holder_tells_types() {
    let mut lua = Lua::from_existing_state(
        stack_of(vec![
            ScriptValue::Nil,
            ScriptValue::Boolean(true),
            ScriptValue::Integer(1),
            string("s"),
            ScriptValue::Table(vec![]),
            ScriptValue::Function(9),
            ScriptValue::UserData(Handle::Shadow { name: "T".to_string(), ptr: 1, linked: true }),
            ScriptValue::UserData(Handle::Raw { tag: None, ptr: 1 }),
        ]),
        false,
    );
    assert_eq!(lua.get_top(), 8);
    assert!(lua.is_nil(1) && !lua.is_nil(2) && !lua.is_nil(9));
    assert!(lua.is_boolean(2) && !lua.is_boolean(1));
    assert!(lua.is_number(3) && !lua.is_number(4));
    assert!(lua.is_string(4) && !lua.is_string(3));
    assert!(lua.is_table(5) && !lua.is_table(6));
    assert!(lua.is_function(6) && !lua.is_function(5));
    assert!(lua.is_userdata(7) && !lua.is_userdata(8));
    assert!(lua.is_lightuserdata(8) && !lua.is_lightuserdata(7));
    assert!(lua.is_string(-5));
    assert_eq!(lua.get_luatype(20), -1);
}

#[test]
fn holder_owns_or_borrows() {
    let mut lua = Lua::new();
    assert!(lua.own && lua.closes_at_the_end());
    lua.set("answer".to_string(), 42i32);
    let mut second = lua.clone();
    assert!(!second.own);
    assert_eq!(second.query::<i32>(&"answer".to_string()), Some(42));
    second.set_own(true);
    assert!(second.own);
    assert_eq!(lua.state().stack.len(), 0);
    let held = Lua::from_existing_state(lua_State::new(), true);
    assert!(held.own);
}

#[test]
fn globals_are_set_and_queried() {
    let mut lua = Lua::new();
    lua.set("a".to_string(), 1i64);
    lua.set("b".to_string(), "text".to_string());
    lua.set("a".to_string(), 2i64);
    assert_eq!(lua.query::<i64>(&"a".to_string()), Some(2));
    assert_eq!(lua.query::<String>(&"b".to_string()), Some("text".to_string()));
    assert_eq!(lua.query::<i64>(&"b".to_string()), None);
    assert_eq!(lua.query::<i64>(&"c".to_string()), None);
    assert_eq!(lua.query::<Option<i64>>(&"c".to_string()), Some(None));
    assert_eq!(lua.get_top(), 0);
    // of several values the topmost is bound, the others stay
    lua.set("pair".to_string(), (1i32, 2i32));
    assert_eq!(lua.query::<i32>(&"pair".to_string()), Some(2));
    assert_eq!(lua.get_top(), 1);
    let table = lua.empty_table("t".to_string());
    assert_eq!(table.entries.len(), 0);
    assert_eq!(lua.state().get_global(&"t".to_string()), ScriptValue::Table(vec![]));
    assert_eq!(lua.create_table().entries.len(), 0);
}

#[test]
fn set_top_drops_and_fills() {
    let mut lua = Lua::from_existing_state(stack_of(vec![ScriptValue::Integer(1), ScriptValue::Integer(2)]), true);
    lua.set_top(4);
    assert_eq!(
        lua.state().stack,
        vec![ScriptValue::Integer(1), ScriptValue::Integer(2), ScriptValue::Nil, ScriptValue::Nil]
    );
    lua.set_top(-1);
    assert_eq!(lua.get_top(), 4);
    lua.set_top(-3);
    assert_eq!(lua.state().stack, vec![ScriptValue::Integer(1), ScriptValue::Integer(2)]);
    lua.set_top(0);
    assert_eq!(lua.get_top(), 0);
}

#[test]
fn guard_pops_what_it_holds() {
    let mut lua = stack_of(vec![ScriptValue::Integer(1), ScriptValue::Integer(2), ScriptValue::Integer(3)]);
    let guard = LuaGuard::new(2);
    assert_eq!(guard.size, 2);
    assert_eq!(guard.empty().size, 0);
    guard.release(&mut lua);
    assert_eq!(lua.stack, vec![ScriptValue::Integer(1)]);
    LuaGuard::new_empty().release(&mut lua);
    assert_eq!(lua.stack.len(), 1);
    assert_eq!(LuaGuard::new(1).forget(), 1);
    assert_eq!(lua.stack.len(), 1);
}

#[test]
fn read_with_pop_pops_on_success_and_failure() {
    let mut lua = stack_of(vec![ScriptValue::Integer(7), string("x")]);
    assert_eq!(i32::lua_read_with_pop(&mut lua, -1, 1), None);
    assert_eq!(lua.stack, vec![ScriptValue::Integer(7)]);
    assert_eq!(i32::lua_read_with_pop(&mut lua, -1, 1), Some(7));
    assert_eq!(lua.stack.len(), 0);
    let mut lua = stack_of(vec![ScriptValue::Integer(7), string("x")]);
    assert_eq!(String::lua_read(&mut lua), Some("x".to_string()));
    assert_eq!(i64::lua_read_at_position(&mut lua, 1), Some(7));
    assert_eq!(lua.stack.len(), 2);
}

#[test]
fn whole_numbers_push_and_read() {
    let mut lua = lua_State::new();
    assert_eq!(5i8.push_to_lua(&mut lua), 1);
    assert_eq!((-6i16).push_to_lua(&mut lua), 1);
    assert_eq!(7i32.push_to_lua(&mut lua), 1);
    assert_eq!((-8i64).push_to_lua(&mut lua), 1);
    assert_eq!(9u8.push_to_lua(&mut lua), 1);
    assert_eq!(10u16.push_to_lua(&mut lua), 1);
    assert_eq!(11u32.push_to_lua(&mut lua), 1);
    assert_eq!(u64::MAX.push_to_lua(&mut lua), 1);
    assert_eq!(13usize.push_to_lua(&mut lua), 1);
    let numbers: Vec<i64> = vec![5, -6, 7, -8, 9, 10, 11, -1, 13];
    let expected: Vec<ScriptValue> = numbers.iter().map(|n| ScriptValue::Integer(*n)).collect();
    assert_eq!(lua.stack, expected);
    assert_eq!(u64::lua_read_at_position(&mut lua, 8), Some(u64::MAX));
    assert_eq!(u8::lua_read_at_position(&mut lua, 8), Some(255));
    assert_eq!(i8::lua_read_at_position(&mut lua, 2), Some(-6));
    assert_eq!(u16::lua_read_at_position(&mut lua, 2), Some(65530));
    assert_eq!(u32::lua_read_at_position(&mut lua, 2), Some(4294967290));
    assert_eq!(i16::lua_read_at_position(&mut lua, 1), Some(5));
    assert_eq!(usize::lua_read_at_position(&mut lua, 9), Some(13));
    let mut wide = stack_of(vec![ScriptValue::Integer(0x1_0000_0001), ScriptValue::Float(0)]);
    assert_eq!(i32::lua_read_at_position(&mut wide, 1), Some(1));
    assert_eq!(i64::lua_read_at_position(&mut wide, 1), Some(0x1_0000_0001));
    assert_eq!(i64::lua_read_at_position(&mut wide, 2), None);
    assert_eq!(i64::lua_read_at_position(&mut wide, 3), None);
}

#[test]
fn other_leaves_push_and_read() {
    let mut lua = lua_State::new();
    true.push_to_lua(&mut lua);
    ().push_to_lua(&mut lua);
    "hi".to_string().push_to_lua(&mut lua);
    "a\0b".to_string().push_to_lua(&mut lua);
    RawString(vec![0xff, 0]).push_to_lua(&mut lua);
    Some(3i32).push_to_lua(&mut lua);
    None::<i32>.push_to_lua(&mut lua);
    Box::new(4i32).push_to_lua(&mut lua);
    ScriptValue::Function(5).push_to_lua(&mut lua);
    assert_eq!(
        lua.stack,
        vec![
            ScriptValue::Boolean(true),
            ScriptValue::Nil,
            string("hi"),
            string("UNVAILED STRING"),
            ScriptValue::Str(vec![0xff, 0]),
            ScriptValue::Integer(3),
            ScriptValue::Nil,
            ScriptValue::Integer(4),
            ScriptValue::Function(5),
        ]
    );
    assert_eq!(bool::lua_read_at_position(&mut lua, 1), Some(true));
    assert_eq!(bool::lua_read_at_position(&mut lua, 2), None);
    assert_eq!(<()>::lua_read_at_position(&mut lua, 100), Some(()));
    assert_eq!(String::lua_read_at_position(&mut lua, 3), Some("hi".to_string()));
    assert_eq!(String::lua_read_at_position(&mut lua, 5), Some("raw binary string...".to_string()));
    assert_eq!(String::lua_read_at_position(&mut lua, 6), None);
    assert_eq!(RawString::lua_read_at_position(&mut lua, 5), Some(RawString(vec![0xff, 0])));
    assert_eq!(RawString::lua_read_at_position(&mut lua, 1), None);
    assert_eq!(Option::<i32>::lua_read_at_position(&mut lua, 6), Some(Some(3)));
    assert_eq!(Option::<i32>::lua_read_at_position(&mut lua, 7), Some(None));
    assert_eq!(ScriptValue::lua_read_at_position(&mut lua, 9), Some(ScriptValue::Function(5)));
    assert_eq!(ScriptValue::lua_read_at_position(&mut lua, 10), None);
}

#[test]
fn tuples_push_and_read_in_order() {
    let mut lua = lua_State::new();
    assert_eq!((1i32,).push_to_lua(&mut lua), 1);
    assert_eq!((2i32, true).push_to_lua(&mut lua), 2);
    assert_eq!((3i32, "s".to_string(), ()).push_to_lua(&mut lua), 3);
    assert_eq!((4u8, 5u8, 6u8, (7u8, 8u8)).push_to_lua(&mut lua), 5);
    assert_eq!(lua.stack.len(), 11);
    assert_eq!(<(i32,)>::lua_read_at_position(&mut lua, 1), Some((1,)));
    assert_eq!(<(i32, bool)>::lua_read_at_position(&mut lua, 2), Some((2, true)));
    assert_eq!(<(i32, bool)>::lua_read_at_position(&mut lua, 1), None);
    assert_eq!(
        <(i32, String, ())>::lua_read_at_position(&mut lua, 4),
        Some((3, "s".to_string(), ()))
    );
    assert_eq!(<(u8, u8, u8, u8)>::lua_read_at_position(&mut lua, 7), Some((4, 5, 6, 7)));
    assert_eq!(<(u8, u8)>::lua_read_at_position(&mut lua, 11), None);
    assert_eq!(<(Option<u8>, Option<u8>)>::lua_read_at_position(&mut lua, 11), Some((Some(8), None)));
    assert_eq!(<((), ())>::lua_read_at_position(&mut lua, i32::MAX), None);
}

#[test]
fn arguments_of_a_call_are_checked() {
    let mut lua = stack_of(vec![ScriptValue::Integer(4)]);
    assert_eq!(
        read_arguments::<(i32, i32)>(&mut lua, 2),
        Err("must have arguments num 2, but only is 1".to_string())
    );
    lua.push(string("x"));
    assert_eq!(
        read_arguments::<(i32, i32)>(&mut lua, 2),
        Err("wrong parameter types for callback function arguments_count is 2".to_string())
    );
    assert_eq!(read_arguments::<(i32, String)>(&mut lua, 2), Ok((4, "x".to_string())));
    assert_eq!(read_arguments::<(i32,)>(&mut lua, 1), Ok((4,)));
    assert_eq!(lua.stack.len(), 2);
    let mut empty = lua_State::new();
    assert_eq!(read_arguments::<()>(&mut empty, 0), Ok(()));
}

#[test]
fn wrapped_functions_are_called() {
    let mut count = 0;
    let mut f0 = function0(|| {
        count += 1;
        count
    });
    assert_eq!(f0.call_mut(()), 1);
    assert_eq!(f0.call_mut(()), 2);
    let mut f1 = function1(|a: i32| a * 2);
    assert_eq!(f1.call_mut((21,)), 42);
    let mut f2 = function2(|a: i32, b: String| format!("{}{}", b, a));
    assert_eq!(f2.call_mut((1, "n".to_string())), "n1");
    let mut f3 = hclua::function3(|a: u8, b: u8, c: u8| a + b + c);
    assert_eq!(f3.call_mut((1, 2, 3)), 6);
    let mut f4 = hclua::function4(|a: u8, b: u8, c: u8, d: u8| a * b * c * d);
    assert_eq!(f4.call_mut((1, 2, 3, 4)), 24);
}

#[test]
fn errors_are_asked_for() {
    let mut lua = Lua::new();
    assert_eq!(lua.error("boom".to_string()), TrapAction::Fault("boom".to_string()));
    assert_eq!(Lua::lua_error("bang".to_string()), TrapAction::Fault("bang".to_string()));
}

#[test]
fn wide_tuples_push_and_read_in_order() {
    let mut lua = lua_State::new();
    let wide = (1u8, 2u8, 3u8, 4u8, 5u8, 6u8, 7u8, 8u8, 9u8, 10u8, 11u8, 12u8, 13u8);
    assert_eq!(wide.push_to_lua(&mut lua), 13);
    assert_eq!(lua.stack.len(), 13);
    assert_eq!(lua.stack[0], ScriptValue::Integer(1));
    assert_eq!(lua.stack[12], ScriptValue::Integer(13));
    assert_eq!(
        <(u8, u8, u8, u8, u8)>::lua_read_at_position(&mut lua, 1),
        Some((1, 2, 3, 4, 5))
    );
    assert_eq!(
        <(u8, u8, u8, u8, u8, u8)>::lua_read_at_position(&mut lua, 8),
        Some((8, 9, 10, 11, 12, 13))
    );
    assert_eq!(<(u8, u8, u8, u8, u8, u8)>::lua_read_at_position(&mut lua, 9), None);
    assert_eq!(
        <(u8, u8, u8, u8, u8, u8, u8)>::lua_read_at_position(&mut lua, 7),
        Some((7, 8, 9, 10, 11, 12, 13))
    );
    assert_eq!(
        <(u8, u8, u8, u8, u8, u8, u8, u8)>::lua_read_at_position(&mut lua, 1),
        Some((1, 2, 3, 4, 5, 6, 7, 8))
    );
    assert_eq!(
        <(u8, u8, u8, u8, u8, u8, u8, u8, u8)>::lua_read_at_position(&mut lua, 5),
        Some((5, 6, 7, 8, 9, 10, 11, 12, 13))
    );
    assert_eq!(
        <(u8, u8, u8, u8, u8, u8, u8, u8, u8, u8)>::lua_read_at_position(&mut lua, 4),
        Some((4, 5, 6, 7, 8, 9, 10, 11, 12, 13))
    );
    assert_eq!(
        <(u8, u8, u8, u8, u8, u8, u8, u8, u8, u8, u8)>::lua_read_at_position(&mut lua, 3),
        Some((3, 4, 5, 6, 7, 8, 9, 10, 11, 12, 13))
    );
    assert_eq!(
        <(u8, u8, u8, u8, u8, u8, u8, u8, u8, u8, u8, u8)>::lua_read_at_position(&mut lua, 2),
        Some((2, 3, 4, 5, 6, 7, 8, 9, 10, 11, 12, 13))
    );
    let all = <(u8, u8, u8, u8, u8, u8, u8, u8, u8, u8, u8, u8, u8)>::lua_read_at_position(
        &mut lua, 1,
    )
    .unwrap();
    assert_eq!((all.0, all.1, all.2, all.3, all.4, all.5), (1, 2, 3, 4, 5, 6));
    assert_eq!((all.6, all.7, all.8, all.9, all.10, all.11, all.12), (7, 8, 9, 10, 11, 12, 13));
    assert!(
        <(u8, u8, u8, u8, u8, u8, u8, u8, u8, u8, u8, u8, u8)>::lua_read_at_position(&mut lua, 2)
            .is_none()
    );
    let mut mixed = lua_State::new();
    assert_eq!((1u8, true, 2i64, "t".to_string(), (), 3u32).push_to_lua(&mut mixed), 6);
    assert_eq!(
        <(u8, bool, i64, String, (), u32)>::lua_read_at_position(&mut mixed, 1),
        Some((1, true, 2, "t".to_string(), (), 3))
    );
    assert_eq!(<(u8, bool, i64, String, u32)>::lua_read_at_position(&mut mixed, 1), None);
}

#[test]
fn wide_functions_are_called() {
    let mut f5 = hclua::function5(|a: u8, b: u8, c: u8, d: u8, e: u8| a + b + c + d + e);
    assert_eq!(f5.call_mut((1, 2, 3, 4, 5)), 15);
    let mut f6 = hclua::function6(|a: u8, b: u8, c: u8, d: u8, e: u8, f: u8| a + b + c + d + e + f);
    assert_eq!(f6.call_mut((1, 2, 3, 4, 5, 6)), 21);
    let mut f7 = hclua::function7(|a: u8, b: u8, c: u8, d: u8, e: u8, f: u8, g: u8| {
        a + b + c + d + e + f + g
    });
    assert_eq!(f7.call_mut((1, 2, 3, 4, 5, 6, 7)), 28);
    let mut f8 = hclua::function8(|a: u8, b: u8, c: u8, d: u8, e: u8, f: u8, g: u8, h: u8| {
        a + b + c + d + e + f + g + h
    });
    assert_eq!(f8.call_mut((1, 2, 3, 4, 5, 6, 7, 8)), 36);
    let mut f9 = hclua::function9(
        |a: u8, b: u8, c: u8, d: u8, e: u8, f: u8, g: u8, h: u8, i: u8| {
            a + b + c + d + e + f + g + h + i
        },
    );
    assert_eq!(f9.call_mut((1, 2, 3, 4, 5, 6, 7, 8, 9)), 45);
    let mut f10 = hclua::function10(
        |a: u8, b: u8, c: u8, d: u8, e: u8, f: u8, g: u8, h: u8, i: u8, j: String| {
            format!("{}{}", j, a + b + c + d + e + f + g + h + i)
        },
    );
    assert_eq!(f10.call_mut((1, 2, 3, 4, 5, 6, 7, 8, 9, "n".to_string())), "n45");
}
