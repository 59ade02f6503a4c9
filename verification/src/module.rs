//! Modules of the script: named tables that hold what the host offers.
use crate::lua_tables::{field_value, LuaTable};
use crate::object::pushed_value;
use crate::sys::{lua_State, ScriptValue, ScriptView, MAX_STACK};
use crate::text::bytes_of_text;
use crate::LuaPush;
use vstd::prelude::*;
use vstd::string::StringExecFns;
use vstd::utf8::encode_utf8;

verus! {

/// A module of the script, known by the name of the global that holds it.
pub struct LuaModule {
    pub name: String,
}

/// The entries of the table that a global holds; none where it holds no
/// table.
pub open spec fn entries_of(v: ScriptView) -> Seq<(ScriptView, ScriptView)> {
    match v {
        ScriptView::Table(entries) => entries,
        _ => Seq::empty(),
    }
}

impl LuaModule {
    /// The module of the name `name`.
    pub fn new(name: String) -> (r: LuaModule)
        ensures
            r.name == name,
    {
        LuaModule { name }
    }

    /// Gives the table of the module. Where the global of its name holds no
    /// table, it is bound to a table without entries first; every other
    /// global stays as it is.
    pub fn ensure(&self, lua: &mut lua_State) -> (r: LuaTable)
        ensures
            final(lua).stack == old(lua).stack,
            final(lua).global(self.name@) == ScriptView::Table(r@),
            r@ == entries_of(old(lua).global(self.name@)),
            old(lua).global(self.name@) is Table ==> final(lua).globals == old(lua).globals,
            forall|n: Seq<char>|
                n != self.name@ ==> #[trigger] final(lua).global(n) == old(lua).global(n),
    {
        match LuaTable::from_value(lua.get_global(&self.name)) {
            Some(table) => table,
            None => {
                lua.set_global(self.name.clone(), LuaTable::new().into_value());
                LuaTable::new()
            },
        }
    }

    /// Puts the topmost value that `param` puts on the stack into the module
    /// under `name`; the table of the module is made if it is not there.
    /// Every other entry of the module and every other global stay as they
    /// are, and so does the stack.
    pub fn def<P: LuaPush>(&self, lua: &mut lua_State, name: &String, param: P)
        requires
            old(lua).wf(),
            old(lua).depth() + param.pushed().len() <= MAX_STACK,
        ensures
            final(lua).slots() == old(lua).slots(),
            final(lua).global(self.name@) is Table,
            forall|n: Seq<char>|
                n != self.name@ ==> #[trigger] final(lua).global(n) == old(lua).global(n),
            forall|n: Seq<u8>|
                #[trigger] field_value(entries_of(final(lua).global(self.name@)), n) == (if n
                    == encode_utf8(name@) && param.pushed().len() >= 1 {
                    param.pushed().last()
                } else {
                    field_value(entries_of(old(lua).global(self.name@)), n)
                }),
    {
        let ghost start = lua.slots();
        let mut table = self.ensure(lua);
        assert(lua.slots() =~= start);
        match pushed_value(lua, param) {
            Some(value) => {
                table.set(bytes_of_text(name), value);
                lua.set_global(self.name.clone(), table.into_value());
                assert(lua.slots() =~= start);
            },
            None => {},
        }
    }

    /// Puts the function `func` of the host into the module under `name`;
    /// the table of the module is made if it is not there.
    pub fn register(&self, lua: &mut lua_State, name: &String, func: u64)
        ensures
            final(lua).stack == old(lua).stack,
            final(lua).global(self.name@) is Table,
            forall|n: Seq<char>|
                n != self.name@ ==> #[trigger] final(lua).global(n) == old(lua).global(n),
            forall|n: Seq<u8>|
                #[trigger] field_value(entries_of(final(lua).global(self.name@)), n) == (if n
                    == encode_utf8(name@) {
                    ScriptView::Function(func)
                } else {
                    field_value(entries_of(old(lua).global(self.name@)), n)
                }),
    {
        let mut table = self.ensure(lua);
        table.set(bytes_of_text(name), ScriptValue::Function(func));
        lua.set_global(self.name.clone(), table.into_value());
    }
}

/// The name of the function by which the runtime opens a native module.
pub fn entry_point_name(module: &String) -> (r: String)
    ensures
        r@ == "luaopen_"@ + module@,
{
    "luaopen_".to_string().concat(module.as_str())
}

/// The name of the function by which the host makes a native module known
/// ahead of its first use.
pub fn register_name(module: &String) -> (r: String)
    ensures
        r@ == "luareg_"@ + module@,
{
    "luareg_".to_string().concat(module.as_str())
}

/// The bytes of a module name with each underscore turned into a dot.
pub open spec fn dotted(name: Seq<u8>) -> Seq<u8> {
    Seq::new(
        name.len(),
        |i: int|
            if name[i] == 0x5f {
                0x2eu8
            } else {
                name[i]
            },
    )
}

/// The second name under which a module is made known: where its name
/// holds an underscore, the name with each underscore turned into a dot, as
/// bytes; none where it holds no underscore.
pub fn dotted_name(module: &String) -> (r: Option<Vec<u8>>)
    ensures
        match r {
            Some(bytes) => encode_utf8(module@).contains(0x5fu8) && bytes@ == dotted(
                encode_utf8(module@),
            ),
            None => !encode_utf8(module@).contains(0x5fu8),
        },
{
    let name = bytes_of_text(module);
    let mut out: Vec<u8> = Vec::new();
    let mut found = false;
    let mut i: usize = 0;
    while i < name.len()
        invariant
            i <= name.len(),
            out@.len() == i,
            found == name@.take(i as int).contains(0x5fu8),
            forall|j: int| 0 <= j < i ==> #[trigger] out@[j] == dotted(name@)[j],
        decreases name.len() - i,
    {
        let ghost seen = name@.take(i as int);
        let ghost next = name@.take(i + 1);
        if name[i] == 0x5f {
            found = true;
            out.push(0x2e);
            assert(next[i as int] == 0x5fu8);
        } else {
            out.push(name[i]);
            proof {
                if seen.contains(0x5fu8) {
                    let j = choose|j: int| 0 <= j < seen.len() && seen[j] == 0x5fu8;
                    assert(next[j] == 0x5fu8);
                }
                if next.contains(0x5fu8) {
                    let j = choose|j: int| 0 <= j < next.len() && next[j] == 0x5fu8;
                    assert(seen[j] == 0x5fu8);
                }
            }
        }
        i += 1;
    }
    assert(name@.take(name@.len() as int) =~= name@);
    if found {
        assert(out@ =~= dotted(name@));
        Some(out)
    } else {
        None
    }
}

} // verus!
