//! A bridge between a host and an embedded scripting runtime.
//!
//! The runtime is driven through a value stack. This crate holds the rules of
//! the bridge over the stack as the bridge sees it: how host values are put
//! on the stack and read from it, how host objects are exposed to scripts
//! under type tags, and how script values travel as value trees.
use vstd::prelude::*;
use vstd::string::{StrSliceExecFns, StringExecFns};

pub mod config;
pub mod extra;
pub mod functions;
pub mod lua_tables;
pub mod luajit_build;
pub mod mem;
pub mod module;
pub mod object;
pub mod protocol;
pub mod sys;
pub mod text;
pub mod tuples;
pub mod userdata;
pub mod values;

pub use functions::{
    function0, function1, function10, function2, function3, function4, function5, function6,
    function7, function8, function9, Function, FunctionExt,
};
pub use lua_tables::LuaTable;
pub use module::LuaModule;
pub use object::{LuaObject, WrapObject};
pub use protocol::{
    LuaWrapperTableValue, LuaWrapperValue, LuaWrapperVecValue, ProtoLua, SerUtils, TypedValue,
    TypedView, WrapSerde,
};
pub use sys::{lua_State, Handle, ScriptValue, ScriptView};
pub use userdata::{push_lightuserdata, push_userdata, read_userdata};
pub use values::{RawString, WrapperObject};

verus! {

/// A promise to take `size` slots off the stack when a scope ends.
pub struct LuaGuard {
    pub size: i32,
}

impl LuaGuard {
    /// Gives the promise up: the slots stay, and their number is returned.
    pub fn forget(self) -> (r: i32)
        ensures
            r == self.size,
    {
        self.size
    }

    /// A guard on the same stack that holds no slot.
    pub fn empty(&self) -> (r: LuaGuard)
        ensures
            r.size == 0,
    {
        LuaGuard { size: 0 }
    }

    /// A guard that holds no slot.
    pub fn new_empty() -> (r: LuaGuard)
        ensures
            r.size == 0,
    {
        LuaGuard { size: 0 }
    }

    /// A guard that holds the `size` topmost slots.
    pub fn new(size: i32) -> (r: LuaGuard)
        ensures
            r.size == size,
    {
        LuaGuard { size }
    }

    /// Ends the scope: takes the held slots off the stack.
    pub fn release(self, lua: &mut lua_State)
        requires
            0 <= self.size <= old(lua).depth(),
        ensures
            final(lua).slots() == old(lua).slots().take(old(lua).depth() - self.size),
            final(lua).stack@ == old(lua).stack@.take(old(lua).depth() - self.size),
            final(lua).globals == old(lua).globals,
    {
        if self.size != 0 {
            lua.pop(self.size);
        } else {
            assert(lua.stack@ =~= lua.stack@.take(lua.depth()));
            assert(lua.slots() =~= lua.slots().take(lua.depth()));
        }
    }
}

/// Types that can be put on the stack of the runtime.
pub trait LuaPush: Sized {
    /// The slots that the value puts on the stack, lowest first.
    spec fn pushed(&self) -> Seq<ScriptView>;

    /// Puts the value on top of the stack and returns the number of slots
    /// that it took.
    fn push_to_lua(self, lua: &mut lua_State) -> (n: i32)
        requires
            old(lua).depth() + self.pushed().len() <= sys::MAX_STACK,
        ensures
            n == self.pushed().len(),
            final(lua).slots() == old(lua).slots() + self.pushed(),
            final(lua).depth() == old(lua).depth() + self.pushed().len(),
            final(lua).globals == old(lua).globals,
    ;
}

/// Types that can be read from the stack of the runtime.
pub trait LuaRead: Sized {
    /// Whether `r` is what a read of the slot that `index` names gives:
    /// nothing where the slot does not hold a value of this type.
    spec fn reads_as(lua: &lua_State, index: int, r: Option<Self>) -> bool;

    /// Reads the topmost slot.
    fn lua_read(lua: &mut lua_State) -> (r: Option<Self>)
        requires
            old(lua).wf(),
        ensures
            Self::reads_as(old(lua), -1, r),
            final(lua).slots() == old(lua).slots(),
            final(lua).globals == old(lua).globals,
    {
        Self::lua_read_at_position(lua, -1)
    }

    /// Reads the slot that `index` names.
    fn lua_read_at_position(lua: &mut lua_State, index: i32) -> (r: Option<Self>)
        requires
            old(lua).wf(),
        ensures
            Self::reads_as(old(lua), index as int, r),
            final(lua).slots() == old(lua).slots(),
            final(lua).globals == old(lua).globals,
    {
        let r = Self::lua_read_with_pop(lua, index, 0);
        assert(lua.slots() =~= old(lua).slots());
        r
    }

    /// Reads the slot that `index` names, then takes the `pop` topmost slots
    /// off the stack, whether the read gave a value or not.
    fn lua_read_with_pop(lua: &mut lua_State, index: i32, pop: i32) -> (r: Option<Self>)
        requires
            old(lua).wf(),
            0 <= pop <= old(lua).depth(),
        ensures
            Self::reads_as(old(lua), index as int, r),
            final(lua).slots() == old(lua).slots().take(old(lua).depth() - pop),
            final(lua).globals == old(lua).globals,
    {
        let guard = LuaGuard::new(pop);
        let r = Self::lua_read_with_pop_impl(lua, index, pop);
        guard.release(lua);
        r
    }

    /// Reads the slot that `index` names and leaves the stack as it is.
    fn lua_read_with_pop_impl(lua: &lua_State, index: i32, pop: i32) -> (r: Option<Self>)
        requires
            lua.wf(),
        ensures
            Self::reads_as(lua, index as int, r),
    ;
}

/// One interpreter as the host holds it: its state, and whether the state
/// is closed when the holder goes.
pub struct Lua {
    pub lua: lua_State,
    pub own: bool,
}

impl Lua {
    /// A fresh interpreter, owned by its holder: nothing on the stack, no
    /// global bound.
    pub fn new() -> (r: Lua)
        ensures
            r.own,
            r.lua.wf(),
            r.lua.slots() == Seq::<ScriptView>::empty(),
            forall|name: Seq<char>| r.lua.global(name) == ScriptView::Nil,
    {
        Lua { lua: lua_State::new(), own: true }
    }

    /// The state of the interpreter.
    pub fn state(&self) -> (r: &lua_State)
        ensures
            *r == self.lua,
    {
        &self.lua
    }

    /// A second holder of a copy of the state, which does not own it.
    pub fn clone(&mut self) -> (r: Lua)
        ensures
            *final(self) == *old(self),
            !r.own,
            r.lua.slots() == old(self).lua.slots(),
            forall|name: Seq<char>| r.lua.global(name) == old(self).lua.global(name),
    {
        Lua { lua: self.lua.duplicate(), own: false }
    }

    /// Says whether the state is closed when the holder goes.
    pub fn set_own(&mut self, own: bool)
        ensures
            final(self).own == own,
            final(self).lua == old(self).lua,
    {
        self.own = own;
    }

    /// Takes a state that is there already; `close_at_the_end` says whether
    /// the holder owns it.
    pub fn from_existing_state(lua: lua_State, close_at_the_end: bool) -> (r: Lua)
        ensures
            r.lua == lua,
            r.own == close_at_the_end,
    {
        Lua { lua, own: close_at_the_end }
    }

    /// Whether the state is to be closed when this holder goes: a holder that
    /// owns its state closes it, any other leaves it open.
    pub fn closes_at_the_end(&self) -> (r: bool)
        ensures
            r == self.own,
    {
        self.own
    }

    /// The number of slots on the stack.
    pub fn get_top(&mut self) -> (r: i32)
        requires
            old(self).lua.wf(),
        ensures
            *final(self) == *old(self),
            r == old(self).lua.depth(),
    {
        self.lua.top()
    }

    /// Sets the depth of the stack: slots above `top` are dropped, missing
    /// ones are filled with nil. A negative `top` counts from the present top.
    pub fn set_top(&mut self, top: i32)
        requires
            old(self).lua.wf(),
            -(old(self).lua.depth() + 1) <= top <= sys::MAX_STACK,
        ensures
            final(self).own == old(self).own,
            final(self).lua.wf(),
            final(self).lua.globals == old(self).lua.globals,
            final(self).lua.depth() == (if top >= 0 {
                top as int
            } else {
                old(self).lua.depth() + top + 1
            }),
            forall|i: int|
                0 <= i < final(self).lua.depth() ==> #[trigger] final(self).lua.slots()[i] == (if i
                    < old(self).lua.depth() {
                    old(self).lua.slots()[i]
                } else {
                    ScriptView::Nil
                }),
    {
        self.lua.set_top(top);
    }

    /// The type code of the slot that `index` names; `LUA_TNONE` where it
    /// names none.
    pub fn get_luatype(&mut self, index: i32) -> (r: i32)
        requires
            old(self).lua.wf(),
        ensures
            *final(self) == *old(self),
            r == match old(self).lua.value_at(index as int) {
                Some(v) => v.type_code(),
                None => sys::LUA_TNONE,
            },
    {
        self.lua.type_at(index)
    }

    /// Whether the slot that `index` names holds nil.
    pub fn is_nil(&mut self, index: i32) -> (r: bool)
        requires
            old(self).lua.wf(),
        ensures
            *final(self) == *old(self),
            r == (old(self).lua.value_at(index as int) matches Some(v) && v.type_code()
                == sys::LUA_TNIL),
    {
        self.get_luatype(index) == sys::LUA_TNIL
    }

    /// Whether the slot that `index` names holds a boolean.
    pub fn is_boolean(&mut self, index: i32) -> (r: bool)
        requires
            old(self).lua.wf(),
        ensures
            *final(self) == *old(self),
            r == (old(self).lua.value_at(index as int) matches Some(v) && v.type_code()
                == sys::LUA_TBOOLEAN),
    {
        self.get_luatype(index) == sys::LUA_TBOOLEAN
    }

    /// Whether the slot that `index` names holds a bare host pointer.
    pub fn is_lightuserdata(&mut self, index: i32) -> (r: bool)
        requires
            old(self).lua.wf(),
        ensures
            *final(self) == *old(self),
            r == (old(self).lua.value_at(index as int) matches Some(v) && v.type_code()
                == sys::LUA_TLIGHTUSERDATA),
    {
        self.get_luatype(index) == sys::LUA_TLIGHTUSERDATA
    }

    /// Whether the slot that `index` names holds a number.
    pub fn is_number(&mut self, index: i32) -> (r: bool)
        requires
            old(self).lua.wf(),
        ensures
            *final(self) == *old(self),
            r == (old(self).lua.value_at(index as int) matches Some(v) && v.type_code()
                == sys::LUA_TNUMBER),
    {
        self.get_luatype(index) == sys::LUA_TNUMBER
    }

    /// Whether the slot that `index` names holds a string.
    pub fn is_string(&mut self, index: i32) -> (r: bool)
        requires
            old(self).lua.wf(),
        ensures
            *final(self) == *old(self),
            r == (old(self).lua.value_at(index as int) matches Some(v) && v.type_code()
                == sys::LUA_TSTRING),
    {
        self.get_luatype(index) == sys::LUA_TSTRING
    }

    /// Whether the slot that `index` names holds a table.
    pub fn is_table(&mut self, index: i32) -> (r: bool)
        requires
            old(self).lua.wf(),
        ensures
            *final(self) == *old(self),
            r == (old(self).lua.value_at(index as int) matches Some(v) && v.type_code()
                == sys::LUA_TTABLE),
    {
        self.get_luatype(index) == sys::LUA_TTABLE
    }

    /// Whether the slot that `index` names holds a function.
    pub fn is_function(&mut self, index: i32) -> (r: bool)
        requires
            old(self).lua.wf(),
        ensures
            *final(self) == *old(self),
            r == (old(self).lua.value_at(index as int) matches Some(v) && v.type_code()
                == sys::LUA_TFUNCTION),
    {
        self.get_luatype(index) == sys::LUA_TFUNCTION
    }

    /// Whether the slot that `index` names holds a handle in a block of the
    /// runtime.
    pub fn is_userdata(&mut self, index: i32) -> (r: bool)
        requires
            old(self).lua.wf(),
        ensures
            *final(self) == *old(self),
            r == (old(self).lua.value_at(index as int) matches Some(v) && v.type_code()
                == sys::LUA_TUSERDATA),
    {
        self.get_luatype(index) == sys::LUA_TUSERDATA
    }

    /// Reads the global `index`: what a read gives of the value that the
    /// global is bound to. The stack is left as it was.
    pub fn query<V: LuaRead>(&mut self, index: &String) -> (r: Option<V>)
        requires
            old(self).lua.wf(),
            old(self).lua.depth() < sys::MAX_STACK,
        ensures
            final(self).own == old(self).own,
            final(self).lua.slots() == old(self).lua.slots(),
            final(self).lua.globals == old(self).lua.globals,
            exists|after: lua_State|
                after.slots() == old(self).lua.slots().push(old(self).lua.global(index@))
                    && #[trigger] V::reads_as(&after, -1, r),
    {
        let value = self.lua.get_global(index);
        self.lua.push(value);
        let r = V::lua_read_with_pop(&mut self.lua, -1, 1);
        assert(self.lua.slots() =~= old(self).lua.slots());
        r
    }

    /// Binds the global `index` to the topmost value that `value` puts on
    /// the stack, and takes that one value off the stack again. Where
    /// `value` puts nothing on the stack, nothing changes.
    pub fn set<V: LuaPush>(&mut self, index: String, value: V)
        requires
            old(self).lua.wf(),
            old(self).lua.depth() + value.pushed().len() <= sys::MAX_STACK,
        ensures
            final(self).own == old(self).own,
            value.pushed().len() == 0 ==> final(self).lua.slots() == old(self).lua.slots()
                && final(self).lua.globals == old(self).lua.globals,
            value.pushed().len() >= 1 ==> final(self).lua.slots() == old(self).lua.slots()
                + value.pushed().drop_last() && forall|n: Seq<char>|
                #[trigger] final(self).lua.global(n) == (if n == index@ {
                    value.pushed().last()
                } else {
                    old(self).lua.global(n)
                }),
    {
        let ghost pushed = value.pushed();
        let n = value.push_to_lua(&mut self.lua);
        if n >= 1 {
            let top = match self.lua.slot(-1) {
                Some(v) => v.duplicate(),
                None => ScriptValue::Nil,
            };
            assert(self.lua.slots()[self.lua.depth() - 1] == pushed.last());
            self.lua.pop(1);
            assert(self.lua.slots() =~= old(self).lua.slots() + pushed.drop_last());
            let ghost slots = self.lua.slots();
            self.lua.set_global(index, top);
            assert(self.lua.slots() =~= slots);
        } else {
            assert(self.lua.slots() =~= old(self).lua.slots());
        }
    }

    /// Binds the global `index` to a table without entries and gives that
    /// table.
    pub fn empty_table(&mut self, index: String) -> (r: lua_tables::LuaTable)
        ensures
            final(self).own == old(self).own,
            final(self).lua.stack == old(self).lua.stack,
            r@ == Seq::<(ScriptView, ScriptView)>::empty(),
            forall|n: Seq<char>|
                #[trigger] final(self).lua.global(n) == (if n == index@ {
                    ScriptView::Table(Seq::empty())
                } else {
                    old(self).lua.global(n)
                }),
    {
        self.lua.set_global(index, lua_tables::LuaTable::new().into_value());
        lua_tables::LuaTable::new()
    }

    /// A table without entries, bound to nothing.
    pub fn create_table(&mut self) -> (r: lua_tables::LuaTable)
        ensures
            *final(self) == *old(self),
            r@ == Seq::<(ScriptView, ScriptView)>::empty(),
    {
        lua_tables::LuaTable::new()
    }

    /// Asks for an error to be raised in the script, with the message `val`.
    pub fn error(&mut self, val: String) -> (r: object::TrapAction)
        ensures
            *final(self) == *old(self),
            r matches object::TrapAction::Fault(msg) && msg == val,
    {
        Lua::lua_error(val)
    }

    /// Asks for an error to be raised in the script, with the message `val`.
    pub fn lua_error(val: String) -> (r: object::TrapAction)
        ensures
            r matches object::TrapAction::Fault(msg) && msg == val,
    {
        object::TrapAction::Fault(val)
    }
}

/// What is put behind a search path of the runtime to let it find modules
/// in the directory `path`: for native modules the pattern of shared
/// libraries, by the kind of the system; for script modules the patterns of
/// a script file and of a package directory.
pub open spec fn path_suffix(is_cpath: bool, path: Seq<char>, windows: bool) -> Seq<char> {
    if is_cpath {
        if windows {
            ";./"@ + path + "/?.dll;"@
        } else {
            ";./"@ + path + "/?.so;"@
        }
    } else {
        ";./"@ + path + "/?.lua;./"@ + path + "/?/init.lua"@
    }
}

/// The text of a search path as the host takes it: that of a string of
/// valid UTF-8, and no text for anything else.
pub open spec fn path_text(v: ScriptView) -> Seq<char> {
    match v {
        ScriptView::Str(bytes) => if vstd::utf8::valid_utf8(bytes) {
            vstd::utf8::decode_utf8(bytes)
        } else {
            Seq::empty()
        },
        _ => Seq::empty(),
    }
}

/// The name of the search path for native modules, or of that for script
/// modules.
pub open spec fn path_field(is_cpath: bool) -> Seq<u8> {
    if is_cpath {
        vstd::utf8::encode_utf8("cpath"@)
    } else {
        vstd::utf8::encode_utf8("path"@)
    }
}

impl Lua {
    /// Lets the runtime find modules in the directory `path`: puts
    /// `path_suffix` behind the search path that `is_cpath` names, in the
    /// table `package`. Where `package` is no table nothing changes. Always
    /// returns 0.
    pub fn add_path(&mut self, is_cpath: bool, path: String, windows: bool) -> (r: i32)
        ensures
            r == 0,
            final(self).own == old(self).own,
            final(self).lua.stack == old(self).lua.stack,
            forall|n: Seq<char>|
                n != "package"@ ==> #[trigger] final(self).lua.global(n) == old(self).lua.global(n),
            !(old(self).lua.global("package"@) is Table) ==> final(self).lua.globals
                == old(self).lua.globals,
            old(self).lua.global("package"@) matches ScriptView::Table(before)
                ==> final(self).lua.global("package"@) is Table && forall|n: Seq<u8>|
                #[trigger] lua_tables::field_value(
                    final(self).lua.global("package"@)->Table_0,
                    n,
                ) == (if n == path_field(is_cpath) {
                    ScriptView::Str(
                        protocol::wrapper::pushed_text(
                            path_text(lua_tables::field_value(before, path_field(is_cpath)))
                                + path_suffix(is_cpath, path@, windows),
                        ),
                    )
                } else {
                    lua_tables::field_value(before, n)
                }),
    {
        let package = "package".to_string();
        let mut table = match lua_tables::LuaTable::from_value(self.lua.get_global(&package)) {
            Some(table) => table,
            None => {
                return 0;
            },
        };
        let field = if is_cpath {
            "cpath".as_bytes_vec()
        } else {
            "path".as_bytes_vec()
        };
        let ori_path = match table.query(&field) {
            ScriptValue::Str(bytes) => match text::text_from_bytes(bytes) {
                Ok(text) => text,
                Err(_) => String::new(),
            },
            _ => String::new(),
        };
        let suffix = if is_cpath {
            if windows {
                ";./".to_string().concat(path.as_str()).concat("/?.dll;")
            } else {
                ";./".to_string().concat(path.as_str()).concat("/?.so;")
            }
        } else {
            ";./".to_string().concat(path.as_str()).concat("/?.lua;./").concat(
                path.as_str(),
            ).concat("/?/init.lua")
        };
        let joined = ori_path.concat(suffix.as_str());
        table.set(field, protocol::wrapper::text_to_script(&joined));
        self.lua.set_global(package, table.into_value());
        0
    }

    /// Sets the stack up for a protected call of the global function
    /// `name` with the slots of the stack as its arguments: below the
    /// arguments come the error handler, which is the global
    /// `error_handle`, and above it the function. Returns the number of
    /// arguments.
    pub fn begin_call(&mut self, name: &String) -> (r: i32)
        requires
            old(self).lua.wf(),
            old(self).lua.depth() + 2 <= sys::MAX_STACK,
        ensures
            final(self).own == old(self).own,
            final(self).lua.globals == old(self).lua.globals,
            r == old(self).lua.depth(),
            final(self).lua.wf(),
            final(self).lua.slots() == seq![
                old(self).lua.global("error_handle"@),
                old(self).lua.global(name@),
            ] + old(self).lua.slots(),
    {
        let top = self.lua.top();
        let function = self.lua.get_global(name);
        let handler = self.lua.get_global(&"error_handle".to_string());
        self.lua.stack.insert(0, function);
        self.lua.stack.insert(0, handler);
        assert(self.lua.slots() =~= seq![
            old(self).lua.global("error_handle"@),
            old(self).lua.global(name@),
        ] + old(self).lua.slots());
        top
    }

    /// Takes the outcome of a protected call off the stack, which holds the
    /// error handler and, above it, the result or the error message.
    ///
    /// After a call that failed, `success` being other than 0, both slots
    /// are dropped and nothing is given. After a call that went well the
    /// result is read, and both slots are dropped whether it reads as an
    /// `R` or not.
    pub fn end_call<R: LuaRead>(&mut self, success: i32) -> (r: Option<R>)
        requires
            old(self).lua.wf(),
            old(self).lua.depth() >= 2,
        ensures
            final(self).own == old(self).own,
            final(self).lua.globals == old(self).lua.globals,
            final(self).lua.slots() == old(self).lua.slots().take(old(self).lua.depth() - 2),
            success != 0 ==> r is None,
            success == 0 ==> exists|after: lua_State|
                after.slots() == old(self).lua.slots().remove(old(self).lua.depth() - 2)
                    && #[trigger] R::reads_as(&after, -1, r),
    {
        if success != 0 {
            let guard = LuaGuard::new(2);
            guard.release(&mut self.lua);
            return None;
        }
        let handler = self.lua.stack.len() - 2;
        self.lua.stack.remove(handler);
        assert(self.lua.slots() =~= old(self).lua.slots().remove(old(self).lua.depth() - 2));
        let r = R::lua_read_with_pop(&mut self.lua, -1, 1);
        assert(self.lua.slots() =~= old(self).lua.slots().take(old(self).lua.depth() - 2));
        r
    }
}

/// The list of loaders after a loader was put in its second place: the
/// new loader stands under 2, what stood under 2 to `n` stands one higher,
/// and everything else stands where it stood.
pub open spec fn loader_inserted(
    before: Seq<(ScriptView, ScriptView)>,
    after: Seq<(ScriptView, ScriptView)>,
    n: int,
    func: u64,
) -> bool {
    forall|k: int|
        #[trigger] lua_tables::index_value(after, k) == (if k == 2 {
            ScriptView::Function(func)
        } else if 3 <= k <= n + 1 {
            lua_tables::index_value(before, k - 1)
        } else {
            lua_tables::index_value(before, k)
        })
}

/// The table `package` after a loader was added to its list of loaders,
/// `searchers`: every other field stands as it stood, and the list holds
/// the loader in its second place, `n` being the length of the list before.
/// A list too long to number its places stays as it is.
pub open spec fn loader_added(
    before: Seq<(ScriptView, ScriptView)>,
    after: Seq<(ScriptView, ScriptView)>,
    list: Seq<(ScriptView, ScriptView)>,
    func: u64,
) -> bool {
    let key = vstd::utf8::encode_utf8("searchers"@);
    &&& forall|n: Seq<u8>|
        n != key ==> #[trigger] lua_tables::field_value(after, n) == lua_tables::field_value(
            before,
            n,
        )
    &&& lua_tables::field_value(after, key) is Table
    &&& (list.len() >= i64::MAX && lua_tables::field_value(after, key)->Table_0 == list)
        || exists|n: int|
        0 <= n <= list.len() && lua_tables::holds_run(list, n)
            && crate::protocol::ser_utils::index_position(list, n + 1, 0) == list.len()
            && #[trigger] loader_inserted(
            list,
            lua_tables::field_value(after, key)->Table_0,
            n,
            func,
        )
}

impl Lua {
    /// The moves that make room in the second place of a list of `n`
    /// loaders, in the order in which they are made: the last loader moves
    /// one place up first, the second last.
    pub fn loader_moves(n: usize) -> (r: Vec<(i64, i64)>)
        requires
            n < 0x7fff_ffff_ffff_ffff,
        ensures
            r@.len() == (if n >= 2 {
                n - 1
            } else {
                0
            }),
            forall|m: int|
                0 <= m < r@.len() ==> #[trigger] r@[m] == ((n - m) as i64, (n - m + 1) as i64),
    {
        let mut moves: Vec<(i64, i64)> = Vec::new();
        let mut from: i64 = n as i64;
        while from >= 2
            invariant
                n < 0x7fff_ffff_ffff_ffff,
                from <= n,
                from >= 1 || from == n,
                moves@.len() == n - from,
                forall|m: int|
                    0 <= m < moves@.len() ==> #[trigger] moves@[m] == (
                        (n - m) as i64,
                        (n - m + 1) as i64,
                    ),
            decreases from,
        {
            moves.push((from, from + 1));
            from = from - 1;
        }
        moves
    }

    /// Puts the host function `func` into the list of module loaders of the
    /// runtime, `package.searchers`, in the second place: the loaders from
    /// the second on move one place up. Where `package` or the list is no
    /// table, nothing changes. Always returns 0.
    pub fn add_lualoader(&mut self, func: u64) -> (r: i32)
        ensures
            r == 0,
            final(self).own == old(self).own,
            final(self).lua.stack == old(self).lua.stack,
            forall|n: Seq<char>|
                n != "package"@ ==> #[trigger] final(self).lua.global(n) == old(self).lua.global(n),
            match old(self).lua.global("package"@) {
                ScriptView::Table(package) => match lua_tables::field_value(
                    package,
                    vstd::utf8::encode_utf8("searchers"@),
                ) {
                    ScriptView::Table(list) => final(self).lua.global("package"@) is Table
                        && loader_added(
                        package,
                        final(self).lua.global("package"@)->Table_0,
                        list,
                        func,
                    ),
                    _ => final(self).lua.globals == old(self).lua.globals,
                },
                _ => final(self).lua.globals == old(self).lua.globals,
            },
    {
        let package_name = "package".to_string();
        let mut package = match lua_tables::LuaTable::from_value(self.lua.get_global(&package_name)) {
            Some(table) => table,
            None => {
                return 0;
            },
        };
        let field = "searchers".as_bytes_vec();
        let mut list = match lua_tables::LuaTable::from_value(package.query(&field)) {
            Some(table) => table,
            None => {
                return 0;
            },
        };
        let ghost before = list@;
        let ghost package_before = package@;
        let ghost key = vstd::utf8::encode_utf8("searchers"@);
        let n = list.raw_len();
        if n as u64 >= 0x7fff_ffff_ffff_ffff {
            package.set(field, list.into_value());
            assert(lua_tables::field_value(package@, key) == ScriptView::Table(before));
            assert(loader_added(package_before, package@, before, func));
            self.lua.set_global(package_name, package.into_value());
            return 0;
        }
        let moves = Lua::loader_moves(n);
        let mut j: usize = 0;
        while j < moves.len()
            invariant
                j <= moves@.len(),
                n < 0x7fff_ffff_ffff_ffff,
                moves@.len() == (if n >= 2 {
                    n - 1
                } else {
                    0
                }),
                forall|m: int|
                    0 <= m < moves@.len() ==> #[trigger] moves@[m] == ((n - m) as i64, (n - m + 1) as i64),
                forall|k: int|
                    #[trigger] lua_tables::index_value(list@, k) == (if n + 1 - j < k <= n + 1 {
                        lua_tables::index_value(before, k - 1)
                    } else {
                        lua_tables::index_value(before, k)
                    }),
            decreases moves.len() - j,
        {
            let from = moves[j].0;
            let to = moves[j].1;
            let moved = list.index(from);
            list.set_index(to, moved);
            j += 1;
        }
        list.set_index(2, ScriptValue::Function(func));
        let ghost after = list@;
        package.set(field, list.into_value());
        assert(lua_tables::field_value(package@, key) == ScriptView::Table(after));
        assert(loader_inserted(
            before,
            lua_tables::field_value(package@, key)->Table_0,
            n as int,
            func,
        ));
        assert(loader_added(package_before, package@, before, func));
        self.lua.set_global(package_name, package.into_value());
        0
    }
}

/// The longest name, in bytes, under which the runtime knows a chunk that
/// was loaded from a file.
pub const CHUNK_NAME_LEN: usize = 30;

impl Lua {
    /// The name under which the runtime knows the chunk of a file: the bytes
    /// of the name of the file, and of a name longer than `CHUNK_NAME_LEN`
    /// bytes the last `CHUNK_NAME_LEN`.
    pub fn chunk_name(file_name: &String) -> (r: Vec<u8>)
        ensures
            r@ == (if vstd::utf8::encode_utf8(file_name@).len() > CHUNK_NAME_LEN {
                vstd::utf8::encode_utf8(file_name@).skip(
                    vstd::utf8::encode_utf8(file_name@).len() - CHUNK_NAME_LEN,
                )
            } else {
                vstd::utf8::encode_utf8(file_name@)
            }),
    {
        let name = text::bytes_of_text(file_name);
        if name.len() <= CHUNK_NAME_LEN {
            return name;
        }
        let start = name.len() - CHUNK_NAME_LEN;
        let mut out: Vec<u8> = Vec::new();
        let mut i: usize = start;
        while i < name.len()
            invariant
                start <= i <= name.len(),
                out@ == name@.subrange(start as int, i as int),
            decreases name.len() - i,
        {
            out.push(name[i]);
            assert(out@ =~= name@.subrange(start as int, i + 1));
            i += 1;
        }
        assert(out@ =~= name@.skip(start as int));
        out
    }

    /// The message of the error that is raised where a file does not load
    /// as a chunk: it names the file and gives the message of the runtime.
    pub fn load_error(file_name: &String, err_msg: &String) -> (r: String)
        ensures
            r@ == "error loading from file "@ + file_name@ + " :\n\t"@ + err_msg@,
    {
        "error loading from file ".to_string().concat(file_name.as_str()).concat(" :\n\t").concat(
            err_msg.as_str(),
        )
    }
}

} // verus!
