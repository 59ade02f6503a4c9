//! Host types as object types of the script.
//!
//! A host type is known to the script under the tag of the type. Under that
//! tag stands the metatable of its handles, whose traps route every field
//! read and write of a script; beside it stands the table of the callables
//! bound to the type, and under the type's script name the table that exposes
//! its constructor and destructor. Which fields a script may write is kept in
//! one registry for the whole process.
use crate::lua_tables::{field_value, LuaTable};
use crate::protocol::ser_utils::lossy_text;
use crate::sys::{lua_State, ScriptValue, ScriptView, MAX_STACK};
use crate::text::{bytes_of_text, text_from_bytes};
use crate::userdata::{destroy_light, has_metatable, light_read, push_wrapper_lightuserdata, released, BridgeFault};
use crate::LuaPush;
use vstd::prelude::*;
use vstd::string::{StrSliceExecFns, StringExecFns};
use vstd::utf8::encode_utf8;

verus! {

/// The trap that reads a field or method of an object.
pub const FN_INDEX: u64 = 1;

/// The trap that writes a field of an object.
pub const FN_NEWINDEX: u64 = 2;

/// The finalizer that the collector calls on a heavy handle.
pub const FN_FINALIZER: u64 = 3;

/// The constructor of heavy handles.
pub const FN_NEW: u64 = 4;

/// The constructor of light handles.
pub const FN_NEW_LIGHT: u64 = 5;

/// The destructor of light handles.
pub const FN_DEL_LIGHT: u64 = 6;

/// The destructor that refuses: heavy handles belong to the collector.
pub const FN_DEL_BAD: u64 = 7;

/// The (type tag, field name) pairs that scripts may read and write as
/// fields. One registry serves every interpreter of the process.
pub struct FieldRegistry {
    pub fields: Vec<(String, String)>,
}

impl FieldRegistry {
    /// No pair stands in the registry twice.
    pub open spec fn wf(&self) -> bool {
        forall|i: int, j: int|
            0 <= i < j < self.fields@.len() ==> !((#[trigger] self.fields@[i]).0@
                == (#[trigger] self.fields@[j]).0@ && self.fields@[i].1@ == self.fields@[j].1@)
    }

    /// The field `name` of the type `tag` is registered.
    pub open spec fn contains(&self, tag: Seq<char>, name: Seq<char>) -> bool {
        exists|i: int|
            0 <= i < self.fields@.len() && (#[trigger] self.fields@[i]).0@ == tag
                && self.fields@[i].1@ == name
    }

    /// A registry without fields.
    pub fn new() -> (r: FieldRegistry)
        ensures
            r.wf(),
            r.fields@.len() == 0,
            forall|tag: Seq<char>, name: Seq<char>| !r.contains(tag, name),
    {
        FieldRegistry { fields: Vec::new() }
    }

    /// Whether the field `name` of the type `tag` is registered.
    pub fn is_field(&self, tag: &String, name: &String) -> (r: bool)
        ensures
            r == self.contains(tag@, name@),
    {
        let mut i: usize = 0;
        while i < self.fields.len()
            invariant
                i <= self.fields.len(),
                forall|j: int|
                    0 <= j < i ==> !((#[trigger] self.fields@[j]).0@ == tag@ && self.fields@[j].1@
                        == name@),
            decreases self.fields.len() - i,
        {
            if self.fields[i].0 == *tag && self.fields[i].1 == *name {
                return true;
            }
            i += 1;
        }
        false
    }

    /// Registers the field `name` of the type `tag`. Every other pair stays
    /// as it was, and a pair that is registered already is not added again.
    pub fn set_field(&mut self, tag: String, name: String)
        ensures
            old(self).wf() ==> final(self).wf(),
            final(self).fields@.len() == (if old(self).contains(tag@, name@) {
                old(self).fields@.len()
            } else {
                old(self).fields@.len() + 1
            }),
            forall|t: Seq<char>, n: Seq<char>|
                #[trigger] final(self).contains(t, n) == (old(self).contains(t, n) || (t == tag@
                    && n == name@)),
    {
        if self.is_field(&tag, &name) {
            return ;
        }
        let ghost before = self.fields@;
        self.fields.push((tag, name));
        proof {
            let after = self.fields@;
            assert forall|t: Seq<char>, n: Seq<char>| #[trigger]
                self.contains(t, n) == (old(self).contains(t, n) || (t == tag@ && n
                    == name@)) by {
                if old(self).contains(t, n) {
                    let i = choose|i: int|
                        0 <= i < before.len() && (#[trigger] before[i]).0@ == t && before[i].1@
                            == n;
                    assert(after[i] == before[i]);
                }
                if t == tag@ && n == name@ {
                    assert(after[before.len() as int].0@ == t);
                }
                if self.contains(t, n) {
                    let i = choose|i: int|
                        0 <= i < after.len() && (#[trigger] after[i]).0@ == t && after[i].1@ == n;
                    if i < before.len() {
                        assert(before[i] == after[i]);
                    }
                }
            }
        }
    }
}

/// What a trap asks the host to do.
#[derive(Debug, PartialEq)]
pub enum TrapAction {
    /// Raise an error in the script, with this message.
    Fault(String),
    /// Hand no value back.
    Nothing,
    /// Hand this value back as it is.
    Entry(ScriptValue),
    /// Call `callable` once with `args`, and hand back what it returns.
    Call { callable: ScriptValue, args: Vec<ScriptValue> },
}

/// How far the registration of a type has come.
#[derive(PartialEq, Eq, Structural, Debug, Clone, Copy)]
pub enum ObjectState {
    /// Nothing stands under the tag of the type.
    Unregistered,
    /// The metatable stands under the tag.
    MetatableBuilt,
    /// The table with the constructor stands under the script name as well.
    TableExposed,
    /// Callables are bound to the type as well.
    MethodsBound,
}

impl ObjectState {
    /// The place of a state in the order of registration.
    pub open spec fn rank(self) -> int {
        match self {
            ObjectState::Unregistered => 0,
            ObjectState::MetatableBuilt => 1,
            ObjectState::TableExposed => 2,
            ObjectState::MethodsBound => 3,
        }
    }
}

/// A host type that is exposed to the script: the tag of the type, whether
/// its handles are light, and its name in the script.
pub struct LuaObject {
    pub tag: String,
    pub light: bool,
    pub name: String,
}

/// A host value that is copied out of its handle when it is read.
pub struct WrapObject<T>(pub T);

/// The name of the global that holds the callables bound to a type.
pub open spec fn real_key(tag: Seq<char>) -> Seq<char> {
    tag + "_real"@
}

/// The name under which the setter of a field is bound.
pub open spec fn set_field_key(name: Seq<char>) -> Seq<char> {
    name + "__set"@
}

/// The entries of the table of the callables bound to a type; none where
/// that table is not there.
pub open spec fn real_entries(lua: &lua_State, tag: Seq<char>) -> Seq<(ScriptView, ScriptView)> {
    match lua.global(real_key(tag)) {
        ScriptView::Table(entries) => entries,
        _ => Seq::empty(),
    }
}

/// What is bound to a type under `name`; nil where nothing is.
pub open spec fn bound(lua: &lua_State, tag: Seq<char>, name: Seq<char>) -> ScriptView {
    field_value(real_entries(lua, tag), encode_utf8(name))
}

/// The text that a trap reads from the slot that `index` names: that of a
/// string, lossily; nothing from any other value.
pub open spec fn text_at(lua: &lua_State, index: int) -> Option<Seq<char>> {
    match lua.value_at(index) {
        Some(ScriptView::Str(bytes)) => Some(lossy_text(bytes)),
        _ => None,
    }
}

/// The value in the slot that `index` names, nil where it names none.
pub open spec fn value_or_nil(lua: &lua_State, index: int) -> ScriptView {
    match lua.value_at(index) {
        Some(v) => v,
        None => ScriptView::Nil,
    }
}

/// The views of a list of script values.
pub open spec fn arg_views(args: Seq<ScriptValue>) -> Seq<ScriptView> {
    Seq::new(args.len(), |i: int| args[i]@)
}

/// Reads the text in the slot that `index` names: the text of a string
/// that is valid UTF-8, a placeholder for any other string, nothing for a
/// slot that holds no string.
pub fn read_text(lua: &lua_State, index: i32) -> (r: Option<String>)
    requires
        lua.wf(),
    ensures
        match r {
            Some(s) => text_at(lua, index as int) == Some(s@),
            None => text_at(lua, index as int) is None,
        },
{
    match lua.slot(index) {
        Some(ScriptValue::Str(bytes)) => match text_from_bytes(bytes.clone()) {
            Ok(text) => Some(text),
            Err(_) => Some("raw binary string...".to_string()),
        },
        _ => None,
    }
}

/// A copy of the value in the slot that `index` names, nil where it names
/// none.
fn copy_or_nil(lua: &lua_State, index: i32) -> (r: ScriptValue)
    requires
        lua.wf(),
    ensures
        r@ == value_or_nil(lua, index as int),
{
    match lua.slot(index) {
        Some(v) => v.duplicate(),
        None => ScriptValue::Nil,
    }
}

/// Puts `param` on the stack and takes it off again, and gives a copy of the
/// topmost value that it had put there; nothing where it put nothing.
pub fn pushed_value<P: LuaPush>(lua: &mut lua_State, param: P) -> (r: Option<ScriptValue>)
    requires
        old(lua).wf(),
        old(lua).depth() + param.pushed().len() <= MAX_STACK,
    ensures
        final(lua).slots() == old(lua).slots(),
        final(lua).globals == old(lua).globals,
        final(lua).wf(),
        match r {
            Some(v) => param.pushed().len() >= 1 && v@ == param.pushed().last(),
            None => param.pushed().len() == 0,
        },
{
    let ghost pushed = param.pushed();
    let n = param.push_to_lua(lua);
    if n >= 1 {
        let top = match lua.slot(-1) {
            Some(v) => v.duplicate(),
            None => ScriptValue::Nil,
        };
        assert(lua.slots()[lua.depth() - 1] == pushed.last());
        lua.pop(n);
        assert(lua.slots() =~= old(lua).slots());
        Some(top)
    } else {
        assert(lua.slots() =~= old(lua).slots());
        None
    }
}

impl LuaObject {
    /// The metatable of the type: its tag, the finalizer where the handles
    /// are heavy, and the two traps.
    pub open spec fn metatable(&self) -> Seq<(ScriptView, ScriptView)> {
        let head = seq![
            (ScriptView::Str(encode_utf8("__typeid"@)), ScriptView::Str(encode_utf8(self.tag@))),
        ];
        let gc = if self.light {
            head
        } else {
            head.push(
                (ScriptView::Str(encode_utf8("__gc"@)), ScriptView::Function(FN_FINALIZER)),
            )
        };
        gc.push((ScriptView::Str(encode_utf8("__index"@)), ScriptView::Function(FN_INDEX))).push(
            (ScriptView::Str(encode_utf8("__newindex"@)), ScriptView::Function(FN_NEWINDEX)),
        )
    }

    /// The table that exposes the type to scripts: `new` builds a handle of
    /// the type's kind; `del` releases a light handle and refuses a heavy one.
    pub open spec fn exposed(&self) -> Seq<(ScriptView, ScriptView)> {
        seq![
            (
                ScriptView::Str(encode_utf8("new"@)),
                ScriptView::Function(
                    if self.light {
                        FN_NEW_LIGHT
                    } else {
                        FN_NEW
                    },
                ),
            ),
            (
                ScriptView::Str(encode_utf8("del"@)),
                ScriptView::Function(
                    if self.light {
                        FN_DEL_LIGHT
                    } else {
                        FN_DEL_BAD
                    },
                ),
            ),
        ]
    }

    /// How far the registration of the type has come in `lua`.
    pub open spec fn state(&self, lua: &lua_State) -> ObjectState {
        if !has_metatable(lua, self.tag@) {
            ObjectState::Unregistered
        } else if !(lua.global(self.name@) is Table) {
            ObjectState::MetatableBuilt
        } else if real_entries(lua, self.tag@).len() == 0 {
            ObjectState::TableExposed
        } else {
            ObjectState::MethodsBound
        }
    }

    /// Whether scripts may read and write `name` as a field of the type.
    pub fn is_field(&self, fields: &FieldRegistry, name: &String) -> (r: bool)
        ensures
            r == fields.contains(self.tag@, name@),
    {
        fields.is_field(&self.tag, name)
    }

    /// Lets scripts read and write `name` as a field of the type.
    pub fn set_field(&self, fields: &mut FieldRegistry, name: String)
        ensures
            old(fields).wf() ==> final(fields).wf(),
            forall|t: Seq<char>, n: Seq<char>|
                #[trigger] final(fields).contains(t, n) == (old(fields).contains(t, n) || (t
                    == self.tag@ && n == name@)),
    {
        fields.set_field(self.tag.clone(), name);
    }

    /// The name of the global that holds the metatable of the type.
    pub fn get_metatable_base_key(&self) -> (r: String)
        ensures
            r@ == self.tag@,
    {
        self.tag.clone()
    }

    /// The name of the global that holds the callables bound to the type.
    pub fn get_metatable_real_key(&self) -> (r: String)
        ensures
            r@ == real_key(self.tag@),
    {
        self.tag.clone().concat("_real")
    }

    /// The name under which the setter of the field `name` is bound.
    pub fn get_set_field_key(name: &String) -> (r: String)
        ensures
            r@ == set_field_key(name@),
    {
        name.clone().concat("__set")
    }

    /// A type with heavy handles: the runtime owns the values.
    pub fn new(tag: String, name: String) -> (r: LuaObject)
        ensures
            r.tag == tag,
            r.name == name,
            !r.light,
    {
        LuaObject { tag, light: false, name }
    }

    /// A type with light handles: the host owns the values.
    pub fn new_light(tag: String, name: String) -> (r: LuaObject)
        ensures
            r.tag == tag,
            r.name == name,
            r.light,
    {
        LuaObject { tag, light: true, name }
    }

    /// Builds the metatable of the type and the table of its callables,
    /// unless the metatable is there. Returns whether it was there; then
    /// nothing changes.
    pub fn ensure_matetable(&self, lua: &mut lua_State) -> (r: bool)
        ensures
            r == has_metatable(old(lua), self.tag@),
            final(lua).stack == old(lua).stack,
            has_metatable(final(lua), self.tag@),
            self.state(final(lua)).rank() >= self.state(old(lua)).rank(),
            self.state(final(lua)).rank() >= 1,
            r ==> final(lua).globals == old(lua).globals,
            !r ==> forall|n: Seq<char>|
                #[trigger] final(lua).global(n) == (if n == real_key(self.tag@) {
                    ScriptView::Table(Seq::empty())
                } else if n == self.tag@ {
                    ScriptView::Table(self.metatable())
                } else {
                    old(lua).global(n)
                }),
    {
        let base = self.get_metatable_base_key();
        match lua.get_global(&base) {
            ScriptValue::Table(_) => true,
            _ => {
                let mut table = LuaTable::new();
                table.entries.push(
                    (
                        ScriptValue::Str("__typeid".as_bytes_vec()),
                        ScriptValue::Str(bytes_of_text(&self.tag)),
                    ),
                );
                if !self.light {
                    table.entries.push(
                        (ScriptValue::Str("__gc".as_bytes_vec()), ScriptValue::Function(FN_FINALIZER)),
                    );
                }
                table.entries.push(
                    (ScriptValue::Str("__index".as_bytes_vec()), ScriptValue::Function(FN_INDEX)),
                );
                table.entries.push(
                    (
                        ScriptValue::Str("__newindex".as_bytes_vec()),
                        ScriptValue::Function(FN_NEWINDEX),
                    ),
                );
                assert(table@ =~= self.metatable());
                lua.set_global(base, table.into_value());
                let side = self.get_metatable_real_key();
                proof {
                    reveal_strlit("_real");
                    assert(side@.len() == self.tag@.len() + 5);
                }
                lua.set_global(side, LuaTable::new().into_value());
                false
            },
        }
    }

    /// Exposes the type to scripts under its name, unless a table stands
    /// there already; then nothing changes.
    pub fn ensure_table(&self, lua: &mut lua_State)
        ensures
            final(lua).stack == old(lua).stack,
            final(lua).global(self.name@) is Table,
            self.state(final(lua)).rank() >= self.state(old(lua)).rank(),
            has_metatable(old(lua), self.tag@) ==> self.state(final(lua)).rank() >= 2,
            old(lua).global(self.name@) is Table ==> final(lua).globals == old(lua).globals,
            !(old(lua).global(self.name@) is Table) ==> forall|n: Seq<char>|
                #[trigger] final(lua).global(n) == (if n == self.name@ {
                    ScriptView::Table(self.exposed())
                } else {
                    old(lua).global(n)
                }),
    {
        match lua.get_global(&self.name) {
            ScriptValue::Table(_) => {},
            _ => {
                let maker: u64 = if self.light {
                    FN_NEW_LIGHT
                } else {
                    FN_NEW
                };
                let breaker: u64 = if self.light {
                    FN_DEL_LIGHT
                } else {
                    FN_DEL_BAD
                };
                let mut table = LuaTable::new();
                table.entries.push(
                    (ScriptValue::Str("new".as_bytes_vec()), ScriptValue::Function(maker)),
                );
                table.entries.push(
                    (ScriptValue::Str("del".as_bytes_vec()), ScriptValue::Function(breaker)),
                );
                assert(table@.len() == 2);
                assert(table@[0] == self.exposed()[0]);
                assert(table@[1] == self.exposed()[1]);
                assert(table@ =~= self.exposed());
                lua.set_global(self.name.clone(), table.into_value());
            },
        }
    }

    /// What the global `n` holds once the metatable of the type was built
    /// in a state where the globals hold `before`: the table of callables
    /// and the metatable are new where the type had no metatable, and
    /// everything else is as before.
    pub open spec fn with_metatable(&self, before: &lua_State, n: Seq<char>) -> ScriptView {
        if has_metatable(before, self.tag@) {
            before.global(n)
        } else if n == real_key(self.tag@) {
            ScriptView::Table(Seq::empty())
        } else if n == self.tag@ {
            ScriptView::Table(self.metatable())
        } else {
            before.global(n)
        }
    }

    /// What the global `n` holds once the type was registered in a state
    /// where the globals hold `before`: as after the building of the
    /// metatable, but that the name of the type holds the table that
    /// exposes it where it held no table then.
    pub open spec fn registered(&self, before: &lua_State, n: Seq<char>) -> ScriptView {
        if n == self.name@ && !(self.with_metatable(before, self.name@) is Table) {
            ScriptView::Table(self.exposed())
        } else {
            self.with_metatable(before, n)
        }
    }

    /// Registers the type: builds its metatable and its table of callables,
    /// then exposes it under its name. What is there already stays as it
    /// is: for a type that has its metatable and whose name holds a table,
    /// no global changes.
    pub fn create(&self, lua: &mut lua_State)
        ensures
            final(lua).stack == old(lua).stack,
            final(lua).global(self.name@) is Table,
            has_metatable(final(lua), self.tag@),
            self.state(final(lua)).rank() >= self.state(old(lua)).rank(),
            self.state(final(lua)).rank() >= 2,
            has_metatable(old(lua), self.tag@) && old(lua).global(self.name@) is Table
                ==> final(lua).globals == old(lua).globals,
            forall|n: Seq<char>| #[trigger] final(lua).global(n) == self.registered(old(lua), n),
    {
        self.ensure_matetable(lua);
        self.ensure_table(lua);
    }

    /// Binds `value` to the type under `name`, where the type has its table
    /// of callables; else nothing changes.
    fn bind(&self, lua: &mut lua_State, name: &String, value: ScriptValue)
        ensures
            final(lua).stack == old(lua).stack,
            self.state(final(lua)).rank() >= self.state(old(lua)).rank(),
            old(lua).global(real_key(self.tag@)) is Table && self.state(old(lua)).rank() >= 2
                ==> self.state(final(lua)) == ObjectState::MethodsBound,
            forall|n: Seq<char>|
                n != real_key(self.tag@) ==> #[trigger] final(lua).global(n) == old(lua).global(n),
            old(lua).global(real_key(self.tag@)) is Table ==> final(lua).global(
                real_key(self.tag@),
            ) is Table && forall|n: Seq<u8>|
                #[trigger] field_value(real_entries(final(lua), self.tag@), n) == (if n
                    == encode_utf8(name@) {
                    value@
                } else {
                    field_value(real_entries(old(lua), self.tag@), n)
                }),
            !(old(lua).global(real_key(self.tag@)) is Table) ==> final(lua).globals == old(
                lua,
            ).globals,
    {
        let key = self.get_metatable_real_key();
        let ghost old_entries = real_entries(lua, self.tag@);
        proof {
            lemma_real_key_differs(self.tag@);
        }
        match LuaTable::from_value(lua.get_global(&key)) {
            Some(mut table) => {
                assert(table@ == old_entries);
                table.set(bytes_of_text(name), value);
                let ghost new_entries = table@;
                lua.set_global(key, table.into_value());
                assert(lua.global(real_key(self.tag@)) == ScriptView::Table(new_entries));
                assert(real_entries(lua, self.tag@) == new_entries);
            },
            None => {},
        }
    }

    /// Binds the getter of the field `name`: the topmost value that `param`
    /// puts on the stack. Nothing changes where the type has no table of
    /// callables or `param` puts nothing on the stack.
    pub fn add_object_method_get<P: LuaPush>(&self, lua: &mut lua_State, name: &String, param: P)
        requires
            old(lua).wf(),
            old(lua).depth() + param.pushed().len() <= MAX_STACK,
        ensures
            final(lua).slots() == old(lua).slots(),
            self.state(final(lua)).rank() >= self.state(old(lua)).rank(),
            forall|n: Seq<char>|
                n != real_key(self.tag@) ==> #[trigger] final(lua).global(n) == old(lua).global(n),
            old(lua).global(real_key(self.tag@)) is Table && param.pushed().len() >= 1
                ==> forall|n: Seq<char>|
                #[trigger] bound(final(lua), self.tag@, n) == (if encode_utf8(n) == encode_utf8(
                    name@,
                ) {
                    param.pushed().last()
                } else {
                    bound(old(lua), self.tag@, n)
                }),
            !(old(lua).global(real_key(self.tag@)) is Table) || param.pushed().len() == 0
                ==> final(lua).globals == old(lua).globals,
    {
        match pushed_value(lua, param) {
            Some(value) => {
                self.bind(lua, name, value);
                assert(lua.slots() =~= old(lua).slots());
            },
            None => {},
        }
    }

    /// Binds the getter of the field `name`; see `add_object_method_get`.
    pub fn add_method_get<P: LuaPush>(&self, lua: &mut lua_State, name: &String, param: P)
        requires
            old(lua).wf(),
            old(lua).depth() + param.pushed().len() <= MAX_STACK,
        ensures
            final(lua).slots() == old(lua).slots(),
            self.state(final(lua)).rank() >= self.state(old(lua)).rank(),
            forall|n: Seq<char>|
                n != real_key(self.tag@) ==> #[trigger] final(lua).global(n) == old(lua).global(n),
            !(old(lua).global(real_key(self.tag@)) is Table) || param.pushed().len() == 0
                ==> final(lua).globals == old(lua).globals,
            old(lua).global(real_key(self.tag@)) is Table && param.pushed().len() >= 1
                ==> forall|n: Seq<char>|
                #[trigger] bound(final(lua), self.tag@, n) == (if encode_utf8(n) == encode_utf8(
                    name@,
                ) {
                    param.pushed().last()
                } else {
                    bound(old(lua), self.tag@, n)
                }),
    {
        self.add_object_method_get(lua, name, param);
    }

    /// Binds the setter of the field `name`, under the name with `__set`
    /// behind it: the topmost value that `param` puts on the stack. Nothing
    /// changes where the type has no table of callables or `param` puts
    /// nothing on the stack.
    pub fn add_object_method_set<P: LuaPush>(&self, lua: &mut lua_State, name: &String, param: P)
        requires
            old(lua).wf(),
            old(lua).depth() + param.pushed().len() <= MAX_STACK,
        ensures
            final(lua).slots() == old(lua).slots(),
            self.state(final(lua)).rank() >= self.state(old(lua)).rank(),
            forall|n: Seq<char>|
                n != real_key(self.tag@) ==> #[trigger] final(lua).global(n) == old(lua).global(n),
            old(lua).global(real_key(self.tag@)) is Table && param.pushed().len() >= 1
                ==> forall|n: Seq<char>|
                #[trigger] bound(final(lua), self.tag@, n) == (if encode_utf8(n) == encode_utf8(
                    set_field_key(name@),
                ) {
                    param.pushed().last()
                } else {
                    bound(old(lua), self.tag@, n)
                }),
            !(old(lua).global(real_key(self.tag@)) is Table) || param.pushed().len() == 0
                ==> final(lua).globals == old(lua).globals,
    {
        let key = LuaObject::get_set_field_key(name);
        match pushed_value(lua, param) {
            Some(value) => {
                self.bind(lua, &key, value);
                assert(lua.slots() =~= old(lua).slots());
            },
            None => {},
        }
    }

    /// Binds the setter of the field `name`; see `add_object_method_set`.
    pub fn add_method_set<P: LuaPush>(&self, lua: &mut lua_State, name: &String, param: P)
        requires
            old(lua).wf(),
            old(lua).depth() + param.pushed().len() <= MAX_STACK,
        ensures
            final(lua).slots() == old(lua).slots(),
            self.state(final(lua)).rank() >= self.state(old(lua)).rank(),
            forall|n: Seq<char>|
                n != real_key(self.tag@) ==> #[trigger] final(lua).global(n) == old(lua).global(n),
            !(old(lua).global(real_key(self.tag@)) is Table) || param.pushed().len() == 0
                ==> final(lua).globals == old(lua).globals,
            old(lua).global(real_key(self.tag@)) is Table && param.pushed().len() >= 1
                ==> forall|n: Seq<char>|
                #[trigger] bound(final(lua), self.tag@, n) == (if encode_utf8(n) == encode_utf8(
                    set_field_key(name@),
                ) {
                    param.pushed().last()
                } else {
                    bound(old(lua), self.tag@, n)
                }),
    {
        self.add_object_method_set(lua, name, param);
    }

    /// Lets scripts read and write `name` as a field of the type.
    pub fn mark_field(&self, fields: &mut FieldRegistry, name: String)
        ensures
            old(fields).wf() ==> final(fields).wf(),
            forall|t: Seq<char>, n: Seq<char>|
                #[trigger] final(fields).contains(t, n) == (old(fields).contains(t, n) || (t
                    == self.tag@ && n == name@)),
    {
        self.set_field(fields, name);
    }

    /// Binds a method of the type under `name`; see `object_def`.
    pub fn def<P: LuaPush>(&self, lua: &mut lua_State, name: &String, param: P)
        requires
            old(lua).wf(),
            old(lua).depth() + param.pushed().len() <= MAX_STACK,
        ensures
            final(lua).slots() == old(lua).slots(),
            self.state(final(lua)).rank() >= self.state(old(lua)).rank(),
            forall|n: Seq<char>|
                n != real_key(self.tag@) ==> #[trigger] final(lua).global(n) == old(lua).global(n),
            !(old(lua).global(real_key(self.tag@)) is Table) || param.pushed().len() == 0
                ==> final(lua).globals == old(lua).globals,
            old(lua).global(real_key(self.tag@)) is Table && param.pushed().len() >= 1
                ==> forall|n: Seq<char>|
                #[trigger] bound(final(lua), self.tag@, n) == (if encode_utf8(n) == encode_utf8(
                    name@,
                ) {
                    param.pushed().last()
                } else {
                    bound(old(lua), self.tag@, n)
                }),
    {
        self.object_def(lua, name, param);
    }

    /// Binds a method of the type under `name`: the topmost value that
    /// `param` puts on the stack. Nothing changes where the type has no table
    /// of callables or `param` puts nothing on the stack.
    pub fn object_def<P: LuaPush>(&self, lua: &mut lua_State, name: &String, param: P)
        requires
            old(lua).wf(),
            old(lua).depth() + param.pushed().len() <= MAX_STACK,
        ensures
            final(lua).slots() == old(lua).slots(),
            self.state(final(lua)).rank() >= self.state(old(lua)).rank(),
            forall|n: Seq<char>|
                n != real_key(self.tag@) ==> #[trigger] final(lua).global(n) == old(lua).global(n),
            old(lua).global(real_key(self.tag@)) is Table && param.pushed().len() >= 1
                ==> forall|n: Seq<char>|
                #[trigger] bound(final(lua), self.tag@, n) == (if encode_utf8(n) == encode_utf8(
                    name@,
                ) {
                    param.pushed().last()
                } else {
                    bound(old(lua), self.tag@, n)
                }),
            !(old(lua).global(real_key(self.tag@)) is Table) || param.pushed().len() == 0
                ==> final(lua).globals == old(lua).globals,
    {
        self.add_object_method_get(lua, name, param);
    }

    /// Puts a function of the type itself, not of its objects, into the
    /// table that exposes the type, which is built if it is not there: the
    /// topmost value that `param` puts on the stack, under `name`. Where
    /// `param` puts nothing on the stack, the table is built and nothing is
    /// put into it.
    pub fn static_def<P: LuaPush>(&self, lua: &mut lua_State, name: &String, param: P)
        requires
            old(lua).wf(),
            old(lua).depth() + param.pushed().len() <= MAX_STACK,
        ensures
            final(lua).slots() == old(lua).slots(),
            final(lua).global(self.name@) is Table,
            forall|n: Seq<char>|
                n != self.name@ ==> #[trigger] final(lua).global(n) == old(lua).global(n),
            param.pushed().len() >= 1 ==> forall|n: Seq<u8>|
                #[trigger] field_value(final(lua).global(self.name@)->Table_0, n) == (if n
                    == encode_utf8(name@) {
                    param.pushed().last()
                } else if old(lua).global(self.name@) is Table {
                    field_value(old(lua).global(self.name@)->Table_0, n)
                } else {
                    field_value(self.exposed(), n)
                }),
            param.pushed().len() == 0 ==> final(lua).global(self.name@) == (if old(lua).global(
                self.name@,
            ) is Table {
                old(lua).global(self.name@)
            } else {
                ScriptView::Table(self.exposed())
            }),
    {
        let ghost start = lua.slots();
        self.ensure_table(lua);
        assert(lua.slots() =~= start);
        match pushed_value(lua, param) {
            Some(value) => {
                match LuaTable::from_value(lua.get_global(&self.name)) {
                    Some(mut table) => {
                        table.set(bytes_of_text(name), value);
                        lua.set_global(self.name.clone(), table.into_value());
                    },
                    None => {},
                }
                assert(lua.slots() =~= start);
            },
            None => {},
        }
    }

    /// Binds the function `func` of the host to the type under `name`.
    pub fn register(&self, lua: &mut lua_State, name: &String, func: u64)
        ensures
            final(lua).stack == old(lua).stack,
            self.state(final(lua)).rank() >= self.state(old(lua)).rank(),
            forall|n: Seq<char>|
                n != real_key(self.tag@) ==> #[trigger] final(lua).global(n) == old(lua).global(n),
            !(old(lua).global(real_key(self.tag@)) is Table) ==> final(lua).globals == old(
                lua,
            ).globals,
            old(lua).global(real_key(self.tag@)) is Table ==> forall|n: Seq<char>|
                #[trigger] bound(final(lua), self.tag@, n) == (if encode_utf8(n) == encode_utf8(
                    name@,
                ) {
                    ScriptView::Function(func)
                } else {
                    bound(old(lua), self.tag@, n)
                }),
    {
        self.object_register(lua, name, func);
    }

    /// Binds the function `func` of the host to the type under `name`.
    /// Nothing changes where the type has no table of callables.
    pub fn object_register(&self, lua: &mut lua_State, name: &String, func: u64)
        ensures
            final(lua).stack == old(lua).stack,
            self.state(final(lua)).rank() >= self.state(old(lua)).rank(),
            forall|n: Seq<char>|
                n != real_key(self.tag@) ==> #[trigger] final(lua).global(n) == old(lua).global(n),
            old(lua).global(real_key(self.tag@)) is Table ==> forall|n: Seq<char>|
                #[trigger] bound(final(lua), self.tag@, n) == (if encode_utf8(n) == encode_utf8(
                    name@,
                ) {
                    ScriptView::Function(func)
                } else {
                    bound(old(lua), self.tag@, n)
                }),
            !(old(lua).global(real_key(self.tag@)) is Table) ==> final(lua).globals == old(
                lua,
            ).globals,
    {
        self.bind(lua, name, ScriptValue::Function(func));
    }

    /// Puts the function `func` of the host into the table that exposes the
    /// type, which is built if it is not there.
    pub fn static_register(&self, lua: &mut lua_State, name: &String, func: u64)
        ensures
            final(lua).stack == old(lua).stack,
            final(lua).global(self.name@) is Table,
            forall|n: Seq<char>|
                n != self.name@ ==> #[trigger] final(lua).global(n) == old(lua).global(n),
            forall|n: Seq<u8>|
                #[trigger] field_value(final(lua).global(self.name@)->Table_0, n) == (if n
                    == encode_utf8(name@) {
                    ScriptView::Function(func)
                } else if old(lua).global(self.name@) is Table {
                    field_value(old(lua).global(self.name@)->Table_0, n)
                } else {
                    field_value(self.exposed(), n)
                }),
    {
        self.ensure_table(lua);
        match LuaTable::from_value(lua.get_global(&self.name)) {
            Some(mut table) => {
                table.set(bytes_of_text(name), ScriptValue::Function(func));
                lua.set_global(self.name.clone(), table.into_value());
            },
            None => {},
        }
    }
}

impl LuaObject {
    /// How far the registration of the type has come in `lua`.
    pub fn state_in(&self, lua: &lua_State) -> (r: ObjectState)
        ensures
            r == self.state(lua),
    {
        match lua.get_global(&self.tag) {
            ScriptValue::Table(_) => {},
            _ => {
                return ObjectState::Unregistered;
            },
        }
        match lua.get_global(&self.name) {
            ScriptValue::Table(_) => {},
            _ => {
                return ObjectState::MetatableBuilt;
            },
        }
        let key = self.get_metatable_real_key();
        match LuaTable::from_value(lua.get_global(&key)) {
            Some(table) => {
                if table.entries.len() == 0 {
                    ObjectState::TableExposed
                } else {
                    ObjectState::MethodsBound
                }
            },
            None => ObjectState::TableExposed,
        }
    }

    /// The trap that reads `object.key`, with the object in slot 1 and the
    /// key in slot 2.
    ///
    /// With fewer than two slots it raises an error, and so it does for a
    /// key that is no string. For a registered field the trap asks for one
    /// call of what is bound under the key, the getter, with the object; for
    /// any other key it hands back what is bound under the key as it is, so
    /// that a method comes back as a callable.
    pub fn index_metatable(&self, lua: &lua_State, fields: &FieldRegistry) -> (r: TrapAction)
        requires
            lua.wf(),
        ensures
            match r {
                TrapAction::Fault(msg) => if lua.depth() < 2 {
                    msg@ == "index field must use 2 top"@
                } else {
                    text_at(lua, 2) is None && msg@ == "key must be a string"@
                },
                TrapAction::Nothing => false,
                TrapAction::Entry(v) => lua.depth() >= 2 && text_at(lua, 2) is Some
                    && !fields.contains(self.tag@, text_at(lua, 2)->0) && v@ == bound(
                    lua,
                    self.tag@,
                    text_at(lua, 2)->0,
                ),
                TrapAction::Call { callable, args } => lua.depth() >= 2 && text_at(lua, 2) is Some
                    && fields.contains(self.tag@, text_at(lua, 2)->0) && callable@ == bound(
                    lua,
                    self.tag@,
                    text_at(lua, 2)->0,
                ) && arg_views(args@) == seq![value_or_nil(lua, 1)],
            },
    {
        if lua.top() < 2 {
            return TrapAction::Fault("index field must use 2 top".to_string());
        }
        match read_text(lua, 2) {
            Some(key) => {
                let entry = self.lookup(lua, &key);
                if !self.is_field(fields, &key) {
                    TrapAction::Entry(entry)
                } else {
                    let mut args: Vec<ScriptValue> = Vec::new();
                    args.push(copy_or_nil(lua, 1));
                    assert(arg_views(args@) =~= seq![value_or_nil(lua, 1)]);
                    TrapAction::Call { callable: entry, args }
                }
            },
            None => TrapAction::Fault("key must be a string".to_string()),
        }
    }

    /// The trap that writes `object.key = value`, with the object in slot 1,
    /// the key in slot 2 and the value in slot 3.
    ///
    /// A key that is no string raises an error, and a key that is no
    /// registered field raises an error that names the key; nothing is
    /// called then. For a
    /// registered field the trap asks for one call of the setter, which is
    /// bound under the key with `__set` behind it, with the object and the
    /// value; where no callable is bound there, it gives nothing.
    pub fn newindex_metatable(&self, lua: &lua_State, fields: &FieldRegistry) -> (r: TrapAction)
        requires
            lua.wf(),
        ensures
            match r {
                TrapAction::Nothing => text_at(lua, 2) is Some && fields.contains(
                    self.tag@,
                    text_at(lua, 2)->0,
                ) && !(bound(lua, self.tag@, set_field_key(text_at(lua, 2)->0)) is Function),
                TrapAction::Fault(msg) => match text_at(lua, 2) {
                    Some(key) => !fields.contains(self.tag@, key) && msg@ == "key "@ + key
                        + " not a field"@,
                    None => msg@ == "key must be a string"@,
                },
                TrapAction::Call { callable, args } => text_at(lua, 2) is Some && fields.contains(
                    self.tag@,
                    text_at(lua, 2)->0,
                ) && callable@ is Function && callable@ == bound(
                    lua,
                    self.tag@,
                    set_field_key(text_at(lua, 2)->0),
                ) && arg_views(args@) == seq![value_or_nil(lua, 1), value_or_nil(lua, 3)],
                TrapAction::Entry(_) => false,
            },
    {
        match read_text(lua, 2) {
            Some(key) => {
                if !self.is_field(fields, &key) {
                    let msg = "key ".to_string().concat(key.as_str()).concat(" not a field");
                    return TrapAction::Fault(msg);
                }
                let setter_key = LuaObject::get_set_field_key(&key);
                let setter = self.lookup(lua, &setter_key);
                match setter {
                    ScriptValue::Function(id) => {
                        let mut args: Vec<ScriptValue> = Vec::new();
                        args.push(copy_or_nil(lua, 1));
                        args.push(copy_or_nil(lua, 3));
                        assert(arg_views(args@) =~= seq![
                            value_or_nil(lua, 1),
                            value_or_nil(lua, 3),
                        ]);
                        TrapAction::Call { callable: ScriptValue::Function(id), args }
                    },
                    _ => TrapAction::Nothing,
                }
            },
            None => TrapAction::Fault("key must be a string".to_string()),
        }
    }

    /// A copy of what is bound to the type under `name`; nil where nothing
    /// is.
    fn lookup(&self, lua: &lua_State, name: &String) -> (r: ScriptValue)
        ensures
            r@ == bound(lua, self.tag@, name@),
    {
        let key = self.get_metatable_real_key();
        match LuaTable::from_value(lua.get_global(&key)) {
            Some(table) => table.query(&bytes_of_text(name)),
            None => {
                assert(field_value(Seq::empty(), encode_utf8(name@)) == ScriptView::Nil);
                ScriptValue::Nil
            },
        }
    }

    /// The constructor of heavy handles: puts a handle to the block at
    /// `addr`, which holds a fresh value of the type, on the stack. The
    /// handle carries the tag of the type where the type has its metatable,
    /// and none where it has not. Returns the one slot taken.
    pub fn constructor_wrapper(&self, lua: &mut lua_State, addr: usize) -> (n: i32)
        requires
            old(lua).depth() < MAX_STACK,
        ensures
            n == 1,
            final(lua).globals == old(lua).globals,
            final(lua).slots() == old(lua).slots().push(
                ScriptView::UserData(
                    crate::sys::Handle::Heavy {
                        tag: if has_metatable(old(lua), self.tag@) {
                            Some(self.tag)
                        } else {
                            None
                        },
                        addr,
                    },
                ),
            ),
    {
        let tag = match lua.get_global(&self.tag) {
            ScriptValue::Table(_) => Some(self.tag.clone()),
            _ => None,
        };
        lua.push(ScriptValue::UserData(crate::sys::Handle::Heavy { tag, addr }));
        1
    }

    /// The constructor of light handles: puts a shadow record around `ptr`,
    /// which points at a fresh value of the type on the host's heap, on the
    /// stack. Fails, and leaves the stack as it is, where the type has no
    /// metatable.
    pub fn constructor_light_wrapper(&self, lua: &mut lua_State, ptr: usize) -> (r: Result<
        i32,
        BridgeFault,
    >)
        requires
            old(lua).depth() < MAX_STACK,
        ensures
            final(lua).globals == old(lua).globals,
            match r {
                Ok(n) => n == 1 && has_metatable(old(lua), self.tag@) && final(lua).slots() == old(
                    lua,
                ).slots().push(
                    ScriptView::UserData(
                        crate::sys::Handle::Shadow { name: self.tag, ptr, linked: true },
                    ),
                ),
                Err(_) => !has_metatable(old(lua), self.tag@) && final(lua).slots() == old(
                    lua,
                ).slots(),
            },
    {
        push_wrapper_lightuserdata(ptr, lua, &self.tag)
    }

    /// The destructor of light handles, with the handle in slot 1: releases
    /// the value of a live handle of this type and gives its pointer, for the
    /// host to free what lies there. On anything else it gives nothing and
    /// changes nothing. The script gets no value back either way.
    pub fn destructor_light_wrapper(&self, lua: &mut lua_State) -> (r: Option<usize>)
        requires
            old(lua).wf(),
        ensures
            final(lua).globals == old(lua).globals,
            r == match old(lua).value_at(1) {
                Some(v) => light_read(v, self.tag@),
                None => None,
            },
            match r {
                Some(_) => final(lua).slots() == old(lua).slots().update(
                    0,
                    released(old(lua).value_at(1)->0),
                ),
                None => final(lua).slots() == old(lua).slots(),
            },
    {
        destroy_light(lua, 1, &self.tag)
    }

    /// The destructor of heavy handles: always an error, for the values
    /// belong to the collector and a script must not free them.
    pub fn destructor_bad_wrapper() -> (r: TrapAction)
        ensures
            r matches TrapAction::Fault(msg) && msg@
                == "usedata object must not del, beacuse it belong to lua gc"@,
    {
        TrapAction::Fault("usedata object must not del, beacuse it belong to lua gc".to_string())
    }

    /// The finalizer that the collector calls with a heavy handle on top of
    /// the stack: gives the address of the block, whose value the host then
    /// drops in place. It reads the stack and leaves it as it is.
    pub fn destructor_wrapper(lua: &lua_State) -> (r: Option<usize>)
        requires
            lua.wf(),
        ensures
            r == match lua.value_at(-1) {
                Some(ScriptView::UserData(crate::sys::Handle::Heavy { tag, addr })) => if addr
                    != 0 {
                    Some(addr)
                } else {
                    None
                },
                _ => None,
            },
    {
        match lua.slot(-1) {
            Some(ScriptValue::UserData(crate::sys::Handle::Heavy { tag, addr })) => {
                if *addr != 0 {
                    Some(*addr)
                } else {
                    None
                }
            },
            _ => None,
        }
    }
}

/// The table of the callables of a type never stands under the tag of the
/// type itself.
pub proof fn lemma_real_key_differs(tag: Seq<char>)
    ensures
        real_key(tag) != tag,
{
    reveal_strlit("_real");
    assert(real_key(tag).len() == tag.len() + 5);
}

} // verus!
