//! The stack machine as the bridge sees it.
//!
//! The scripting runtime is a black box that is driven through a value stack.
//! This module holds the data that the bridge reads from it and hands to it:
//! the type codes, the shape of a value in a stack slot, and the stack with
//! its named globals. Tables are held by value: a slot shows what a read of
//! the table yields at that moment.
use vstd::prelude::*;

verus! {

pub const LUA_TNONE: i32 = -1;

pub const LUA_TNIL: i32 = 0;

pub const LUA_TBOOLEAN: i32 = 1;

pub const LUA_TLIGHTUSERDATA: i32 = 2;

pub const LUA_TNUMBER: i32 = 3;

pub const LUA_TSTRING: i32 = 4;

pub const LUA_TTABLE: i32 = 5;

pub const LUA_TFUNCTION: i32 = 6;

pub const LUA_TUSERDATA: i32 = 7;

pub const LUA_TTHREAD: i32 = 8;

/// A reference that the runtime holds to a host value.
#[derive(Debug, PartialEq)]
pub enum Handle {
    /// The value lives in a block that the runtime owns and collects.
    /// `tag` is the type tag found in the block's metatable, if it has one.
    Heavy { tag: Option<String>, addr: usize },
    /// A bare host pointer. `tag` is the type tag of the metatable that bare
    /// pointers carry, if there is one.
    Raw { tag: Option<String>, ptr: usize },
    /// A shadow record around a host-owned value: the embedded type tag, the
    /// pointer (0 once the value was released) and whether the record is
    /// still linked to its metatable.
    Shadow { name: String, ptr: usize, linked: bool },
}

/// Mathematical form of a [`ScriptValue`].
pub enum ScriptView {
    Nil,
    Boolean(bool),
    Integer(i64),
    Float(u64),
    Single(u32),
    Str(Seq<u8>),
    Table(Seq<(ScriptView, ScriptView)>),
    Function(u64),
    UserData(Handle),
    Thread,
}

/// What one stack slot holds.
///
/// A number without a fractional part worth keeping is an `Integer`; any
/// other number is a `Float`, carried by the bit pattern of its double. A
/// `Single` is a number that the host hands over in single precision, carried
/// by its bit pattern; the runtime never shows one. A string is a sequence of
/// bytes. A table is the list of its key/value pairs
/// in the order in which a traversal yields them. A function is known by an
/// identity that the host assigns.
#[derive(Debug, PartialEq)]
pub enum ScriptValue {
    Nil,
    Boolean(bool),
    Integer(i64),
    Float(u64),
    Single(u32),
    Str(Vec<u8>),
    Table(Vec<(ScriptValue, ScriptValue)>),
    Function(u64),
    UserData(Handle),
    Thread,
}

/// The mathematical form of a slot value.
pub open spec fn script_view(v: ScriptValue) -> ScriptView
    decreases v,
{
    match v {
        ScriptValue::Nil => ScriptView::Nil,
        ScriptValue::Boolean(b) => ScriptView::Boolean(b),
        ScriptValue::Integer(i) => ScriptView::Integer(i),
        ScriptValue::Float(bits) => ScriptView::Float(bits),
        ScriptValue::Single(bits) => ScriptView::Single(bits),
        ScriptValue::Str(bytes) => ScriptView::Str(bytes@),
        ScriptValue::Table(pairs) => ScriptView::Table(
            Seq::new(
                pairs@.len(),
                |i: int|
                    if 0 <= i < pairs@.len() {
                        (script_view(pairs@[i].0), script_view(pairs@[i].1))
                    } else {
                        (ScriptView::Nil, ScriptView::Nil)
                    },
            ),
        ),
        ScriptValue::Function(id) => ScriptView::Function(id),
        ScriptValue::UserData(h) => ScriptView::UserData(h),
        ScriptValue::Thread => ScriptView::Thread,
    }
}

impl View for ScriptValue {
    type V = ScriptView;

    open spec fn view(&self) -> ScriptView {
        script_view(*self)
    }
}

/// The views of a list of slots.
pub open spec fn slot_views(slots: Seq<ScriptValue>) -> Seq<ScriptView> {
    Seq::new(slots.len(), |i: int| slots[i]@)
}

/// The views of a list of key/value pairs.
pub open spec fn pair_views(pairs: Seq<(ScriptValue, ScriptValue)>) -> Seq<(ScriptView, ScriptView)> {
    Seq::new(pairs.len(), |i: int| (pairs[i].0@, pairs[i].1@))
}

/// The view of a table is the list of the views of its pairs.
pub proof fn lemma_table_view(pairs: Vec<(ScriptValue, ScriptValue)>)
    ensures
        ScriptValue::Table(pairs)@ == ScriptView::Table(pair_views(pairs@)),
{
    assert(ScriptValue::Table(pairs)@->Table_0 =~= pair_views(pairs@));
}

impl ScriptView {
    /// The runtime's type code of a value.
    pub open spec fn type_code(self) -> i32 {
        match self {
            ScriptView::Nil => LUA_TNIL,
            ScriptView::Boolean(_) => LUA_TBOOLEAN,
            ScriptView::Integer(_) => LUA_TNUMBER,
            ScriptView::Float(_) => LUA_TNUMBER,
            ScriptView::Single(_) => LUA_TNUMBER,
            ScriptView::Str(_) => LUA_TSTRING,
            ScriptView::Table(_) => LUA_TTABLE,
            ScriptView::Function(_) => LUA_TFUNCTION,
            ScriptView::UserData(h) => if h is Raw {
                LUA_TLIGHTUSERDATA
            } else {
                LUA_TUSERDATA
            },
            ScriptView::Thread => LUA_TTHREAD,
        }
    }
}

impl Handle {
    /// A copy of the handle.
    pub fn duplicate(&self) -> (r: Handle)
        ensures
            r == *self,
    {
        match self {
            Handle::Heavy { tag, addr } => {
                let tag2 = match tag {
                    Some(t) => Some(t.clone()),
                    None => None,
                };
                Handle::Heavy { tag: tag2, addr: *addr }
            },
            Handle::Raw { tag, ptr } => {
                let tag2 = match tag {
                    Some(t) => Some(t.clone()),
                    None => None,
                };
                Handle::Raw { tag: tag2, ptr: *ptr }
            },
            Handle::Shadow { name, ptr, linked } => Handle::Shadow {
                name: name.clone(),
                ptr: *ptr,
                linked: *linked,
            },
        }
    }
}

impl ScriptValue {
    /// The runtime's type code of the value.
    pub fn type_code(&self) -> (r: i32)
        ensures
            r == self@.type_code(),
    {
        match self {
            ScriptValue::Nil => LUA_TNIL,
            ScriptValue::Boolean(_) => LUA_TBOOLEAN,
            ScriptValue::Integer(_) => LUA_TNUMBER,
            ScriptValue::Float(_) => LUA_TNUMBER,
            ScriptValue::Single(_) => LUA_TNUMBER,
            ScriptValue::Str(_) => LUA_TSTRING,
            ScriptValue::Table(_) => LUA_TTABLE,
            ScriptValue::Function(_) => LUA_TFUNCTION,
            ScriptValue::UserData(h) => match h {
                Handle::Raw { .. } => LUA_TLIGHTUSERDATA,
                _ => LUA_TUSERDATA,
            },
            ScriptValue::Thread => LUA_TTHREAD,
        }
    }

    /// A deep copy of the value.
    pub fn duplicate(&self) -> (r: ScriptValue)
        ensures
            r@ == self@,
        decreases self,
    {
        match self {
            ScriptValue::Nil => ScriptValue::Nil,
            ScriptValue::Boolean(b) => ScriptValue::Boolean(*b),
            ScriptValue::Integer(i) => ScriptValue::Integer(*i),
            ScriptValue::Float(bits) => ScriptValue::Float(*bits),
            ScriptValue::Single(bits) => ScriptValue::Single(*bits),
            ScriptValue::Str(bytes) => {
                let copy = bytes.clone();
                assert(copy@ =~= bytes@);
                ScriptValue::Str(copy)
            },
            ScriptValue::Table(pairs) => {
                let mut out: Vec<(ScriptValue, ScriptValue)> = Vec::new();
                let mut i: usize = 0;
                while i < pairs.len()
                    invariant
                        self matches ScriptValue::Table(p) && p == pairs,
                        i <= pairs.len(),
                        out@.len() == i,
                        forall|j: int|
                            0 <= j < i ==> (#[trigger] out@[j]).0@ == pairs@[j].0@ && out@[j].1@
                                == pairs@[j].1@,
                    decreases pairs.len() - i,
                {
                    let k = pairs[i].0.duplicate();
                    let v = pairs[i].1.duplicate();
                    out.push((k, v));
                    i += 1;
                }
                let r = ScriptValue::Table(out);
                proof {
                    lemma_table_view(out);
                    lemma_table_view(*pairs);
                    assert(pair_views(out@) =~= pair_views(pairs@));
                }
                r
            },
            ScriptValue::Function(id) => ScriptValue::Function(*id),
            ScriptValue::UserData(h) => ScriptValue::UserData(h.duplicate()),
            ScriptValue::Thread => ScriptValue::Thread,
        }
    }
}

/// The deepest stack that the runtime offers.
pub const MAX_STACK: usize = 1000000;

/// The position, counted from the bottom and from 0, of the slot that a stack
/// index names on a stack of `top` slots: a positive index counts from the
/// bottom and from 1, a negative one from the top and from -1. An index that
/// names no slot gives `None`.
pub open spec fn slot_position(top: int, index: int) -> Option<int> {
    if 1 <= index <= top {
        Some(index - 1)
    } else if -top <= index <= -1 {
        Some(top + index)
    } else {
        None
    }
}

/// The first position at or after `from` at which `globals` binds `name`, or
/// the length of `globals` where there is none.
pub open spec fn global_position(globals: Seq<(String, ScriptValue)>, name: Seq<char>, from: int) -> int
    decreases globals.len() - from,
{
    if from < 0 || from >= globals.len() {
        globals.len() as int
    } else if globals[from].0@ == name {
        from
    } else {
        global_position(globals, name, from + 1)
    }
}

/// What `globals` binds `name` to: the value of the first binding, or nil.
pub open spec fn global_value(globals: Seq<(String, ScriptValue)>, name: Seq<char>) -> ScriptView {
    let p = global_position(globals, name, 0);
    if p < globals.len() {
        globals[p].1@
    } else {
        ScriptView::Nil
    }
}

/// A position found by `global_position` lies in range, binds the name, and
/// nothing between `from` and it does.
pub proof fn lemma_global_position(globals: Seq<(String, ScriptValue)>, name: Seq<char>, from: int)
    requires
        0 <= from <= globals.len(),
    ensures
        from <= global_position(globals, name, from) <= globals.len(),
        global_position(globals, name, from) < globals.len() ==> globals[global_position(
            globals,
            name,
            from,
        )].0@ == name,
        forall|j: int|
            from <= j < global_position(globals, name, from) ==> (#[trigger] globals[j]).0@ != name,
    decreases globals.len() - from,
{
    if from < globals.len() && globals[from].0@ != name {
        lemma_global_position(globals, name, from + 1);
    }
}

/// A position that binds the name, with no earlier one that does, is the one
/// that `global_position` finds.
pub proof fn lemma_global_position_is(
    globals: Seq<(String, ScriptValue)>,
    name: Seq<char>,
    from: int,
    p: int,
)
    requires
        0 <= from <= p <= globals.len(),
        p < globals.len() ==> globals[p].0@ == name,
        forall|j: int| from <= j < p ==> (#[trigger] globals[j]).0@ != name,
    ensures
        global_position(globals, name, from) == p,
    decreases p - from,
{
    if from < p {
        lemma_global_position_is(globals, name, from + 1, p);
    }
}

/// The state of one interpreter as the bridge sees it: the value stack,
/// bottom first, and the named globals.
#[allow(non_camel_case_types)]
pub struct lua_State {
    pub stack: Vec<ScriptValue>,
    pub globals: Vec<(String, ScriptValue)>,
}

impl lua_State {
    /// The stack is no deeper than the runtime allows.
    pub open spec fn wf(&self) -> bool {
        self.depth() <= MAX_STACK
    }

    /// The slots of the stack, bottom first.
    pub open spec fn slots(&self) -> Seq<ScriptView> {
        slot_views(self.stack@)
    }

    /// The number of slots.
    pub open spec fn depth(&self) -> int {
        self.slots().len() as int
    }

    /// The value in the slot that `index` names, if it names one.
    pub open spec fn value_at(&self, index: int) -> Option<ScriptView> {
        match slot_position(self.depth(), index) {
            Some(p) => Some(self.slots()[p]),
            None => None,
        }
    }

    /// What the global `name` is bound to; nil if it is not bound.
    #[verifier::inline]
    pub open spec fn global(&self, name: Seq<char>) -> ScriptView {
        global_value(self.globals@, name)
    }

    /// A state with an empty stack and no globals.
    pub fn new() -> (r: lua_State)
        ensures
            r.wf(),
            r.slots() == Seq::<ScriptView>::empty(),
            forall|name: Seq<char>| r.global(name) == ScriptView::Nil,
    {
        let r = lua_State { stack: Vec::new(), globals: Vec::new() };
        assert(r.slots() =~= Seq::<ScriptView>::empty());
        r
    }

    /// A deep copy of the state.
    pub fn duplicate(&self) -> (r: lua_State)
        ensures
            r.slots() == self.slots(),
            r.depth() == self.depth(),
            forall|name: Seq<char>| r.global(name) == self.global(name),
    {
        let mut stack: Vec<ScriptValue> = Vec::new();
        let mut i: usize = 0;
        while i < self.stack.len()
            invariant
                i <= self.stack.len(),
                stack@.len() == i,
                forall|j: int| 0 <= j < i ==> (#[trigger] stack@[j])@ == self.stack@[j]@,
            decreases self.stack.len() - i,
        {
            stack.push(self.stack[i].duplicate());
            i += 1;
        }
        let mut globals: Vec<(String, ScriptValue)> = Vec::new();
        let mut k: usize = 0;
        while k < self.globals.len()
            invariant
                k <= self.globals.len(),
                globals@.len() == k,
                forall|j: int|
                    0 <= j < k ==> (#[trigger] globals@[j]).0@ == self.globals@[j].0@
                        && globals@[j].1@ == self.globals@[j].1@,
            decreases self.globals.len() - k,
        {
            globals.push((self.globals[k].0.clone(), self.globals[k].1.duplicate()));
            k += 1;
        }
        let r = lua_State { stack, globals };
        assert(r.slots() =~= self.slots());
        proof {
            assert forall|name: Seq<char>| r.global(name) == self.global(name) by {
                lemma_global_position(self.globals@, name, 0);
                let p = global_position(self.globals@, name, 0);
                lemma_global_position_is(r.globals@, name, 0, p);
            }
        }
        r
    }

    /// The number of slots on the stack.
    pub fn top(&self) -> (r: i32)
        requires
            self.wf(),
        ensures
            r == self.depth(),
    {
        self.stack.len() as i32
    }

    /// The position of the slot that `index` names, if it names one.
    pub fn position(&self, index: i32) -> (r: Option<usize>)
        requires
            self.wf(),
        ensures
            match r {
                Some(p) => slot_position(self.depth(), index as int) == Some(p as int) && p
                    < self.depth(),
                None => slot_position(self.depth(), index as int) is None,
            },
    {
        let top = self.stack.len();
        if index >= 1 && (index as usize) <= top {
            Some((index - 1) as usize)
        } else if index <= -1 && index >= -(top as i32) {
            Some((top as i32 + index) as usize)
        } else {
            None
        }
    }

    /// Puts `value` in the slot at `position` in place of what it held.
    pub fn replace(&mut self, position: usize, value: ScriptValue)
        requires
            position < old(self).depth(),
        ensures
            final(self).stack@ == old(self).stack@.update(position as int, value),
            final(self).slots() == old(self).slots().update(position as int, value@),
            final(self).globals == old(self).globals,
    {
        self.stack.set(position, value);
        assert(self.slots() =~= old(self).slots().update(position as int, value@));
    }

    /// The slot that `index` names, if it names one.
    pub fn slot(&self, index: i32) -> (r: Option<&ScriptValue>)
        requires
            self.wf(),
        ensures
            match r {
                Some(v) => self.value_at(index as int) == Some(v@) && slot_position(
                    self.depth(),
                    index as int,
                ) is Some && *v == self.stack@[slot_position(self.depth(), index as int)->0],
                None => self.value_at(index as int) is None,
            },
    {
        let top = self.stack.len();
        if index >= 1 && (index as usize) <= top {
            Some(&self.stack[(index - 1) as usize])
        } else if index <= -1 && index >= -(top as i32) {
            Some(&self.stack[(top as i32 + index) as usize])
        } else {
            None
        }
    }

    /// The type code of the slot that `index` names; `LUA_TNONE` where it
    /// names none.
    pub fn type_at(&self, index: i32) -> (r: i32)
        requires
            self.wf(),
        ensures
            r == match self.value_at(index as int) {
                Some(v) => v.type_code(),
                None => LUA_TNONE,
            },
    {
        match self.slot(index) {
            Some(v) => v.type_code(),
            None => LUA_TNONE,
        }
    }

    /// Puts a value on top of the stack.
    pub fn push(&mut self, value: ScriptValue)
        requires
            old(self).stack@.len() < MAX_STACK,
        ensures
            final(self).wf(),
            final(self).stack@ == old(self).stack@.push(value),
            final(self).slots() == old(self).slots().push(value@),
            final(self).globals == old(self).globals,
    {
        self.stack.push(value);
        assert(self.slots() =~= old(self).slots().push(value@));
    }

    /// Takes the `n` topmost slots off the stack.
    pub fn pop(&mut self, n: i32)
        requires
            0 <= n <= old(self).depth(),
        ensures
            final(self).stack@ == old(self).stack@.take(old(self).depth() - n),
            final(self).slots() == old(self).slots().take(old(self).depth() - n),
            final(self).globals == old(self).globals,
    {
        let keep = self.stack.len() - n as usize;
        self.stack.truncate(keep);
        assert(self.stack@ =~= old(self).stack@.take(old(self).depth() - n));
        assert(self.slots() =~= old(self).slots().take(old(self).depth() - n));
    }

    /// Sets the depth of the stack: slots above `top` are dropped, missing
    /// ones are filled with nil. A negative `top` counts from the present top:
    /// -1 leaves the stack as it is, -2 drops one slot.
    pub fn set_top(&mut self, top: i32)
        requires
            old(self).wf(),
            -(old(self).depth() + 1) <= top <= MAX_STACK,
        ensures
            final(self).wf(),
            final(self).globals == old(self).globals,
            final(self).depth() == (if top >= 0 {
                top as int
            } else {
                old(self).depth() + top + 1
            }),
            forall|i: int|
                0 <= i < final(self).depth() ==> #[trigger] final(self).slots()[i] == (if i < old(
                    self,
                ).depth() {
                    old(self).slots()[i]
                } else {
                    ScriptView::Nil
                }),
    {
        let len = self.stack.len();
        let target: usize = if top >= 0 {
            top as usize
        } else {
            (len as i32 + top + 1) as usize
        };
        if target <= len {
            self.stack.truncate(target);
        } else {
            while self.stack.len() < target
                invariant
                    len <= self.stack.len() <= target <= MAX_STACK,
                    len == old(self).stack@.len(),
                    self.globals == old(self).globals,
                    forall|i: int|
                        0 <= i < self.stack@.len() ==> #[trigger] self.stack@[i]@ == (if i < len {
                            old(self).stack@[i]@
                        } else {
                            ScriptView::Nil
                        }),
                decreases target - self.stack.len(),
            {
                self.stack.push(ScriptValue::Nil);
            }
        }
    }

    /// A copy of what the global `name` is bound to; nil if it is not bound.
    pub fn get_global(&self, name: &String) -> (r: ScriptValue)
        ensures
            r@ == self.global(name@),
    {
        let mut i: usize = 0;
        while i < self.globals.len()
            invariant
                i <= self.globals.len(),
                forall|j: int| 0 <= j < i ==> (#[trigger] self.globals@[j]).0@ != name@,
            decreases self.globals.len() - i,
        {
            if self.globals[i].0 == *name {
                proof {
                    lemma_global_position_is(self.globals@, name@, 0, i as int);
                }
                return self.globals[i].1.duplicate();
            }
            i += 1;
        }
        proof {
            lemma_global_position_is(self.globals@, name@, 0, i as int);
        }
        ScriptValue::Nil
    }

    /// Binds the global `name` to `value`. Other globals keep their values.
    pub fn set_global(&mut self, name: String, value: ScriptValue)
        ensures
            final(self).stack == old(self).stack,
            forall|n: Seq<char>|
                #[trigger] final(self).global(n) == (if n == name@ {
                    value@
                } else {
                    old(self).global(n)
                }),
    {
        let mut i: usize = 0;
        while i < self.globals.len()
            invariant
                i <= self.globals.len(),
                self.globals == old(self).globals,
                self.stack == old(self).stack,
                forall|j: int| 0 <= j < i ==> (#[trigger] self.globals@[j]).0@ != name@,
            decreases self.globals.len() - i,
        {
            if self.globals[i].0 == name {
                let ghost before = self.globals@;
                self.globals.set(i, (name, value));
                proof {
                    let after = self.globals@;
                    assert forall|n: Seq<char>| #[trigger]
                        global_value(after, n) == (if n == name@ {
                            value@
                        } else {
                            global_value(before, n)
                        }) by {
                        lemma_global_position(before, n, 0);
                        let p = global_position(before, n, 0);
                        if n == name@ {
                            lemma_global_position_is(after, n, 0, i as int);
                        } else {
                            lemma_global_position_is(after, n, 0, p);
                        }
                    }
                }
                return ;
            }
            i += 1;
        }
        let ghost before = self.globals@;
        self.globals.push((name, value));
        proof {
            let after = self.globals@;
            assert forall|n: Seq<char>| #[trigger]
                global_value(after, n) == (if n == name@ {
                    value@
                } else {
                    global_value(before, n)
                }) by {
                lemma_global_position(before, n, 0);
                let p = global_position(before, n, 0);
                if n == name@ {
                    lemma_global_position_is(after, n, 0, before.len() as int);
                } else if p < before.len() {
                    lemma_global_position_is(after, n, 0, p);
                } else {
                    lemma_global_position_is(after, n, 0, after.len() as int);
                }
            }
        }
    }
}

} // verus!
