//! Host values behind handles.
//!
//! A script never sees a host value, only a handle to it. A heavy handle is a
//! block that the runtime owns; a light handle is a shadow record around a
//! pointer that the host owns. Every handle carries the tag of its type, and
//! a read gives the address behind a handle only where the tag is the one the
//! reader expects: the host then reinterprets what lies there, so this check
//! is all that stands between a script and foreign memory.
use crate::sys::{lua_State, Handle, ScriptValue, ScriptView, MAX_STACK};
use vstd::prelude::*;

verus! {

/// The bridge cannot go on without leaving the stack in disorder.
#[derive(PartialEq, Eq, Structural, Debug, Clone, Copy)]
pub enum BridgeFault {
    /// A light handle was asked for a type whose metatable was never built.
    UnregisteredType,
}

/// The type whose tag is `tag` has its metatable: the global of that name is
/// a table.
pub open spec fn has_metatable(lua: &lua_State, tag: Seq<char>) -> bool {
    lua.global(tag) is Table
}

/// The address that a reader of heavy handles gets from a value: that of a
/// block or bare pointer that is not null and carries the expected tag.
pub open spec fn heavy_read(v: ScriptView, expected: Seq<char>) -> Option<usize> {
    match v {
        ScriptView::UserData(Handle::Heavy { tag: Some(t), addr }) => if addr != 0 && t@
            == expected {
            Some(addr)
        } else {
            None
        },
        ScriptView::UserData(Handle::Raw { tag: Some(t), ptr }) => if ptr != 0 && t@ == expected {
            Some(ptr)
        } else {
            None
        },
        _ => None,
    }
}

/// The pointer that a reader of light handles gets from a value: that of a
/// shadow record that carries the expected tag and was not released.
pub open spec fn light_read(v: ScriptView, expected: Seq<char>) -> Option<usize> {
    match v {
        ScriptView::UserData(Handle::Shadow { name, ptr, linked }) => if ptr != 0 && name@
            == expected {
            Some(ptr)
        } else {
            None
        },
        _ => None,
    }
}

/// A shadow record after its value was taken: the pointer is null.
pub open spec fn taken(v: ScriptView) -> ScriptView {
    match v {
        ScriptView::UserData(Handle::Shadow { name, ptr, linked }) => ScriptView::UserData(
            Handle::Shadow { name, ptr: 0, linked },
        ),
        _ => v,
    }
}

/// A shadow record after its value was released: the pointer is null and the
/// record is cut off from its metatable.
pub open spec fn released(v: ScriptView) -> ScriptView {
    match v {
        ScriptView::UserData(Handle::Shadow { name, ptr, linked }) => ScriptView::UserData(
            Handle::Shadow { name, ptr: 0, linked: false },
        ),
        _ => v,
    }
}

/// Puts a heavy handle on the stack: a block at `addr` that the runtime
/// owns from now on, under the tag of its type. Returns the one slot taken.
pub fn push_userdata(addr: usize, lua: &mut lua_State, tag: &String) -> (n: i32)
    requires
        old(lua).depth() < MAX_STACK,
    ensures
        n == 1,
        final(lua).slots() == old(lua).slots().push(
            ScriptView::UserData(Handle::Heavy { tag: Some(*tag), addr }),
        ),
        final(lua).globals == old(lua).globals,
{
    lua.push(ScriptValue::UserData(Handle::Heavy { tag: Some(tag.clone()), addr }));
    1
}

/// Puts a bare host pointer on the stack under the tag of its type. Returns
/// the one slot taken.
pub fn push_lightuserdata(ptr: usize, lua: &mut lua_State, tag: &String) -> (n: i32)
    requires
        old(lua).depth() < MAX_STACK,
    ensures
        n == 1,
        final(lua).slots() == old(lua).slots().push(
            ScriptView::UserData(Handle::Raw { tag: Some(*tag), ptr }),
        ),
        final(lua).globals == old(lua).globals,
{
    lua.push(ScriptValue::UserData(Handle::Raw { tag: Some(tag.clone()), ptr }));
    1
}

/// Puts a light handle on the stack: a shadow record around `ptr`, which the
/// host keeps owning, linked to the metatable of its type. Fails, and leaves
/// the stack as it is, where that metatable was never built.
pub fn push_wrapper_lightuserdata(ptr: usize, lua: &mut lua_State, tag: &String) -> (r: Result<
    i32,
    BridgeFault,
>)
    requires
        old(lua).depth() < MAX_STACK,
    ensures
        final(lua).globals == old(lua).globals,
        match r {
            Ok(n) => n == 1 && has_metatable(old(lua), tag@) && final(lua).slots() == old(
                lua,
            ).slots().push(
                ScriptView::UserData(Handle::Shadow { name: *tag, ptr, linked: true }),
            ),
            Err(_) => !has_metatable(old(lua), tag@) && final(lua).slots() == old(lua).slots(),
        },
{
    match lua.get_global(tag) {
        ScriptValue::Table(_) => {
            lua.push(
                ScriptValue::UserData(Handle::Shadow { name: tag.clone(), ptr, linked: true }),
            );
            Ok(1)
        },
        _ => Err(BridgeFault::UnregisteredType),
    }
}

/// Reads a heavy handle: the address behind the handle in the slot that
/// `index` names, where the handle carries the tag `expected` and the
/// address is not null; nothing otherwise.
pub fn read_userdata(lua: &lua_State, index: i32, expected: &String) -> (r: Option<usize>)
    requires
        lua.wf(),
    ensures
        r == match lua.value_at(index as int) {
            Some(v) => heavy_read(v, expected@),
            None => None,
        },
{
    match lua.slot(index) {
        Some(ScriptValue::UserData(Handle::Heavy { tag: Some(t), addr })) => {
            if *addr != 0 && *t == *expected {
                Some(*addr)
            } else {
                None
            }
        },
        Some(ScriptValue::UserData(Handle::Raw { tag: Some(t), ptr })) => {
            if *ptr != 0 && *t == *expected {
                Some(*ptr)
            } else {
                None
            }
        },
        _ => None,
    }
}

/// Reads a light handle: the pointer in the shadow record in the slot that
/// `index` names, where the record carries the tag `expected` and was not
/// released; nothing otherwise.
pub fn read_wrapper_light_userdata(lua: &lua_State, index: i32, expected: &String) -> (r: Option<
    usize,
>)
    requires
        lua.wf(),
    ensures
        r == match lua.value_at(index as int) {
            Some(v) => light_read(v, expected@),
            None => None,
        },
{
    match lua.slot(index) {
        Some(ScriptValue::UserData(Handle::Shadow { name, ptr, linked })) => {
            if *ptr != 0 && *name == *expected {
                Some(*ptr)
            } else {
                None
            }
        },
        _ => None,
    }
}

/// Takes the value out of a light handle: gives the pointer as a read would,
/// and where it gives one, leaves the record with a null pointer. Every
/// other slot, and the record where nothing is given, stay as they are.
pub fn read_pop_wrapper_light_userdata(lua: &mut lua_State, index: i32, expected: &String) -> (r:
    Option<usize>)
    requires
        old(lua).wf(),
    ensures
        final(lua).globals == old(lua).globals,
        r == match old(lua).value_at(index as int) {
            Some(v) => light_read(v, expected@),
            None => None,
        },
        match r {
            Some(_) => final(lua).slots() == old(lua).slots().update(
                crate::sys::slot_position(old(lua).depth(), index as int)->0,
                taken(old(lua).value_at(index as int)->0),
            ),
            None => final(lua).slots() == old(lua).slots(),
        },
{
    let record = match lua.slot(index) {
        Some(ScriptValue::UserData(Handle::Shadow { name, ptr, linked })) => {
            if *ptr != 0 && *name == *expected {
                Some((name.clone(), *ptr, *linked))
            } else {
                None
            }
        },
        _ => None,
    };
    match record {
        Some((name, ptr, linked)) => {
            let position = lua.position(index).unwrap();
            lua.replace(position, ScriptValue::UserData(Handle::Shadow { name, ptr: 0, linked }));
            Some(ptr)
        },
        None => None,
    }
}

/// Releases the value behind a light handle: gives the pointer as a read
/// would, for the host to free what lies there, and where it gives one,
/// leaves the record with a null pointer and cut off from its metatable.
/// Every other slot, and the record where nothing is given, stay as they
/// are.
pub fn destroy_light(lua: &mut lua_State, index: i32, expected: &String) -> (r: Option<usize>)
    requires
        old(lua).wf(),
    ensures
        final(lua).globals == old(lua).globals,
        r == match old(lua).value_at(index as int) {
            Some(v) => light_read(v, expected@),
            None => None,
        },
        match r {
            Some(_) => final(lua).slots() == old(lua).slots().update(
                crate::sys::slot_position(old(lua).depth(), index as int)->0,
                released(old(lua).value_at(index as int)->0),
            ),
            None => final(lua).slots() == old(lua).slots(),
        },
{
    let record = match lua.slot(index) {
        Some(ScriptValue::UserData(Handle::Shadow { name, ptr, linked })) => {
            if *ptr != 0 && *name == *expected {
                Some((name.clone(), *ptr))
            } else {
                None
            }
        },
        _ => None,
    };
    match record {
        Some((name, ptr)) => {
            let position = lua.position(index).unwrap();
            lua.replace(
                position,
                ScriptValue::UserData(Handle::Shadow { name, ptr: 0, linked: false }),
            );
            Some(ptr)
        },
        None => None,
    }
}

/// A handle of one type read as another gives nothing: a reader of heavy
/// handles that expects the tag `b` gets nothing from a handle that carries
/// the tag `a`, whatever lies behind it.
pub proof fn lemma_foreign_tag_reads_nothing(a: String, b: String, addr: usize)
    requires
        a@ != b@,
    ensures
        heavy_read(ScriptView::UserData(Handle::Heavy { tag: Some(a), addr }), b@) is None,
        heavy_read(ScriptView::UserData(Handle::Raw { tag: Some(a), ptr: addr }), b@) is None,
        light_read(ScriptView::UserData(Handle::Shadow { name: a, ptr: addr, linked: true }), b@)
            is None,
{
}

/// A heavy handle gives its address to the reader that expects its own tag.
pub proof fn lemma_own_tag_reads(a: String, addr: usize)
    requires
        addr != 0,
    ensures
        heavy_read(ScriptView::UserData(Handle::Heavy { tag: Some(a), addr }), a@) == Some(addr),
        light_read(ScriptView::UserData(Handle::Shadow { name: a, ptr: addr, linked: true }), a@)
            == Some(addr),
{
}

/// After a release nothing can be read from a light handle, by a reader of
/// any type, so that a second release gives nothing; and a released record
/// stays as it is under a further release. The same holds after a take.
pub proof fn lemma_released_handle_is_dead(v: ScriptView, own: Seq<char>, reader: Seq<char>)
    requires
        light_read(v, own) is Some,
    ensures
        light_read(released(v), reader) is None,
        light_read(taken(v), reader) is None,
        released(released(v)) == released(v),
        taken(taken(v)) == taken(v),
{
}

} // verus!
