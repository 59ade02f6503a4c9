//! Host values on the stack: whole numbers, booleans, text, blobs.
use crate::protocol::ser_utils::lossy_text;
use crate::protocol::wrapper::pushed_text;
use crate::sys::{lua_State, ScriptValue, ScriptView};
use crate::text::text_from_bytes;
use crate::{LuaPush, LuaRead};
use vstd::prelude::*;

verus! {

/// The whole number that a read of a slot gives: the number itself where the
/// slot holds one without a fractional part, nothing otherwise.
pub open spec fn integer_at(lua: &lua_State, index: int) -> Option<i64> {
    match lua.value_at(index) {
        Some(ScriptView::Integer(i)) => Some(i),
        _ => None,
    }
}

/// Reads the whole number in the slot that `index` names.
pub fn read_integer(lua: &lua_State, index: i32) -> (r: Option<i64>)
    requires
        lua.wf(),
    ensures
        r == integer_at(lua, index as int),
{
    match lua.slot(index) {
        Some(ScriptValue::Integer(i)) => Some(*i),
        _ => None,
    }
}

/// Puts one value on top of the stack.
fn push_one(lua: &mut lua_State, value: ScriptValue)
    requires
        old(lua).depth() < crate::sys::MAX_STACK,
    ensures
        final(lua).slots() == old(lua).slots() + seq![value@],
        final(lua).depth() == old(lua).depth() + 1,
        final(lua).globals == old(lua).globals,
{
    lua.push(value);
    assert(lua.slots() =~= old(lua).slots() + seq![value@]);
}

impl LuaPush for i8 {
    open spec fn pushed(&self) -> Seq<ScriptView> {
        seq![ScriptView::Integer(*self as i64)]
    }

    fn push_to_lua(self, lua: &mut lua_State) -> (n: i32) {
        push_one(lua, ScriptValue::Integer(self as i64));
        1
    }
}

impl LuaPush for i16 {
    open spec fn pushed(&self) -> Seq<ScriptView> {
        seq![ScriptView::Integer(*self as i64)]
    }

    fn push_to_lua(self, lua: &mut lua_State) -> (n: i32) {
        push_one(lua, ScriptValue::Integer(self as i64));
        1
    }
}

impl LuaPush for i32 {
    open spec fn pushed(&self) -> Seq<ScriptView> {
        seq![ScriptView::Integer(*self as i64)]
    }

    fn push_to_lua(self, lua: &mut lua_State) -> (n: i32) {
        push_one(lua, ScriptValue::Integer(self as i64));
        1
    }
}

impl LuaPush for i64 {
    open spec fn pushed(&self) -> Seq<ScriptView> {
        seq![ScriptView::Integer(*self)]
    }

    fn push_to_lua(self, lua: &mut lua_State) -> (n: i32) {
        push_one(lua, ScriptValue::Integer(self));
        1
    }
}

impl LuaPush for u8 {
    open spec fn pushed(&self) -> Seq<ScriptView> {
        seq![ScriptView::Integer(*self as i64)]
    }

    fn push_to_lua(self, lua: &mut lua_State) -> (n: i32) {
        push_one(lua, ScriptValue::Integer(self as i64));
        1
    }
}

impl LuaPush for u16 {
    open spec fn pushed(&self) -> Seq<ScriptView> {
        seq![ScriptView::Integer(*self as i64)]
    }

    fn push_to_lua(self, lua: &mut lua_State) -> (n: i32) {
        push_one(lua, ScriptValue::Integer(self as i64));
        1
    }
}

impl LuaPush for u32 {
    open spec fn pushed(&self) -> Seq<ScriptView> {
        seq![ScriptView::Integer(*self as i64)]
    }

    fn push_to_lua(self, lua: &mut lua_State) -> (n: i32) {
        push_one(lua, ScriptValue::Integer(self as i64));
        1
    }
}

impl LuaPush for u64 {
    /// An unsigned 64-bit number goes to the runtime as the signed number of
    /// the same bits.
    open spec fn pushed(&self) -> Seq<ScriptView> {
        seq![ScriptView::Integer(*self as i64)]
    }

    fn push_to_lua(self, lua: &mut lua_State) -> (n: i32) {
        push_one(lua, ScriptValue::Integer(#[verifier::truncate] (self as i64)));
        1
    }
}

impl LuaPush for usize {
    open spec fn pushed(&self) -> Seq<ScriptView> {
        seq![ScriptView::Integer(*self as i64)]
    }

    fn push_to_lua(self, lua: &mut lua_State) -> (n: i32) {
        push_one(lua, ScriptValue::Integer(#[verifier::truncate] (self as i64)));
        1
    }
}

impl LuaRead for i8 {
    /// A whole number reads as its low 8 bits; anything else as nothing.
    open spec fn reads_as(lua: &lua_State, index: int, r: Option<i8>) -> bool {
        r == match integer_at(lua, index) {
            Some(i) => Some(i as i8),
            None => None,
        }
    }

    fn lua_read_with_pop_impl(lua: &lua_State, index: i32, pop: i32) -> (r: Option<i8>) {
        match read_integer(lua, index) {
            Some(i) => Some(#[verifier::truncate] (i as i8)),
            None => None,
        }
    }
}

impl LuaRead for i16 {
    /// A whole number reads as its low 16 bits; anything else as nothing.
    open spec fn reads_as(lua: &lua_State, index: int, r: Option<i16>) -> bool {
        r == match integer_at(lua, index) {
            Some(i) => Some(i as i16),
            None => None,
        }
    }

    fn lua_read_with_pop_impl(lua: &lua_State, index: i32, pop: i32) -> (r: Option<i16>) {
        match read_integer(lua, index) {
            Some(i) => Some(#[verifier::truncate] (i as i16)),
            None => None,
        }
    }
}

impl LuaRead for i32 {
    /// A whole number reads as its low 32 bits; anything else as nothing.
    open spec fn reads_as(lua: &lua_State, index: int, r: Option<i32>) -> bool {
        r == match integer_at(lua, index) {
            Some(i) => Some(i as i32),
            None => None,
        }
    }

    fn lua_read_with_pop_impl(lua: &lua_State, index: i32, pop: i32) -> (r: Option<i32>) {
        match read_integer(lua, index) {
            Some(i) => Some(#[verifier::truncate] (i as i32)),
            None => None,
        }
    }
}

impl LuaRead for i64 {
    /// A whole number reads as itself; anything else as nothing.
    open spec fn reads_as(lua: &lua_State, index: int, r: Option<i64>) -> bool {
        r == integer_at(lua, index)
    }

    fn lua_read_with_pop_impl(lua: &lua_State, index: i32, pop: i32) -> (r: Option<i64>) {
        read_integer(lua, index)
    }
}

impl LuaRead for u8 {
    /// A whole number reads as its low 8 bits; anything else as nothing.
    open spec fn reads_as(lua: &lua_State, index: int, r: Option<u8>) -> bool {
        r == match integer_at(lua, index) {
            Some(i) => Some(i as u8),
            None => None,
        }
    }

    fn lua_read_with_pop_impl(lua: &lua_State, index: i32, pop: i32) -> (r: Option<u8>) {
        match read_integer(lua, index) {
            Some(i) => Some(#[verifier::truncate] (i as u8)),
            None => None,
        }
    }
}

impl LuaRead for u16 {
    /// A whole number reads as its low 16 bits; anything else as nothing.
    open spec fn reads_as(lua: &lua_State, index: int, r: Option<u16>) -> bool {
        r == match integer_at(lua, index) {
            Some(i) => Some(i as u16),
            None => None,
        }
    }

    fn lua_read_with_pop_impl(lua: &lua_State, index: i32, pop: i32) -> (r: Option<u16>) {
        match read_integer(lua, index) {
            Some(i) => Some(#[verifier::truncate] (i as u16)),
            None => None,
        }
    }
}

impl LuaRead for u32 {
    /// A whole number reads as its low 32 bits; anything else as nothing.
    open spec fn reads_as(lua: &lua_State, index: int, r: Option<u32>) -> bool {
        r == match integer_at(lua, index) {
            Some(i) => Some(i as u32),
            None => None,
        }
    }

    fn lua_read_with_pop_impl(lua: &lua_State, index: i32, pop: i32) -> (r: Option<u32>) {
        match read_integer(lua, index) {
            Some(i) => Some(#[verifier::truncate] (i as u32)),
            None => None,
        }
    }
}

impl LuaRead for u64 {
    /// A whole number reads as the unsigned number of the same bits;
    /// anything else as nothing.
    open spec fn reads_as(lua: &lua_State, index: int, r: Option<u64>) -> bool {
        r == match integer_at(lua, index) {
            Some(i) => Some(i as u64),
            None => None,
        }
    }

    fn lua_read_with_pop_impl(lua: &lua_State, index: i32, pop: i32) -> (r: Option<u64>) {
        match read_integer(lua, index) {
            Some(i) => Some(#[verifier::truncate] (i as u64)),
            None => None,
        }
    }
}

impl LuaRead for usize {
    /// A whole number reads as its low bits, as many as a size has; anything
    /// else as nothing.
    open spec fn reads_as(lua: &lua_State, index: int, r: Option<usize>) -> bool {
        r == match integer_at(lua, index) {
            Some(i) => Some(i as usize),
            None => None,
        }
    }

    fn lua_read_with_pop_impl(lua: &lua_State, index: i32, pop: i32) -> (r: Option<usize>) {
        match read_integer(lua, index) {
            Some(i) => Some(#[verifier::truncate] (i as usize)),
            None => None,
        }
    }
}

impl LuaPush for ScriptValue {
    /// A value of the script goes to the stack as it is.
    open spec fn pushed(&self) -> Seq<ScriptView> {
        seq![self@]
    }

    fn push_to_lua(self, lua: &mut lua_State) -> (n: i32) {
        push_one(lua, self);
        1
    }
}

impl LuaRead for ScriptValue {
    /// Every slot reads as a copy of its value; no slot reads as nothing.
    open spec fn reads_as(lua: &lua_State, index: int, r: Option<ScriptValue>) -> bool {
        match lua.value_at(index) {
            Some(v) => r matches Some(copy) && copy@ == v,
            None => r is None,
        }
    }

    fn lua_read_with_pop_impl(lua: &lua_State, index: i32, pop: i32) -> (r: Option<ScriptValue>) {
        match lua.slot(index) {
            Some(v) => Some(v.duplicate()),
            None => None,
        }
    }
}

impl LuaPush for bool {
    open spec fn pushed(&self) -> Seq<ScriptView> {
        seq![ScriptView::Boolean(*self)]
    }

    fn push_to_lua(self, lua: &mut lua_State) -> (n: i32) {
        push_one(lua, ScriptValue::Boolean(self));
        1
    }
}

impl LuaRead for bool {
    /// A boolean reads as itself; anything else as nothing.
    open spec fn reads_as(lua: &lua_State, index: int, r: Option<bool>) -> bool {
        r == match lua.value_at(index) {
            Some(ScriptView::Boolean(b)) => Some(b),
            _ => None,
        }
    }

    fn lua_read_with_pop_impl(lua: &lua_State, index: i32, pop: i32) -> (r: Option<bool>) {
        match lua.slot(index) {
            Some(ScriptValue::Boolean(b)) => Some(*b),
            _ => None,
        }
    }
}

impl LuaPush for () {
    /// The unit value goes to the runtime as nil.
    open spec fn pushed(&self) -> Seq<ScriptView> {
        seq![ScriptView::Nil]
    }

    fn push_to_lua(self, lua: &mut lua_State) -> (n: i32) {
        push_one(lua, ScriptValue::Nil);
        1
    }
}

impl LuaRead for () {
    /// Every slot, and no slot, reads as the unit value.
    open spec fn reads_as(lua: &lua_State, index: int, r: Option<()>) -> bool {
        r is Some
    }

    fn lua_read_with_pop_impl(lua: &lua_State, index: i32, pop: i32) -> (r: Option<()>) {
        Some(())
    }
}

impl LuaPush for String {
    /// A text goes to the runtime as its UTF-8 bytes, or as a fixed notice
    /// where it holds a zero byte.
    open spec fn pushed(&self) -> Seq<ScriptView> {
        seq![ScriptView::Str(pushed_text(self@))]
    }

    fn push_to_lua(self, lua: &mut lua_State) -> (n: i32) {
        let image = crate::protocol::wrapper::text_to_script(&self);
        push_one(lua, image);
        1
    }
}

impl<'s> LuaPush for &'s str {
    /// A text goes to the runtime as its UTF-8 bytes, or as a fixed notice
    /// where it holds a zero byte.
    open spec fn pushed(&self) -> Seq<ScriptView> {
        seq![ScriptView::Str(pushed_text(self@))]
    }

    fn push_to_lua(self, lua: &mut lua_State) -> (n: i32) {
        let owned = self.to_string();
        let image = crate::protocol::wrapper::text_to_script(&owned);
        push_one(lua, image);
        1
    }
}

impl<'s> LuaPush for &'s String {
    /// A text goes to the runtime as its UTF-8 bytes, or as a fixed notice
    /// where it holds a zero byte.
    open spec fn pushed(&self) -> Seq<ScriptView> {
        seq![ScriptView::Str(pushed_text(self@))]
    }

    fn push_to_lua(self, lua: &mut lua_State) -> (n: i32) {
        let image = crate::protocol::wrapper::text_to_script(self);
        push_one(lua, image);
        1
    }
}

impl LuaRead for String {
    /// A string reads as its text where its bytes are valid UTF-8 and as a
    /// fixed placeholder where they are not; anything else reads as nothing.
    open spec fn reads_as(lua: &lua_State, index: int, r: Option<String>) -> bool {
        match lua.value_at(index) {
            Some(ScriptView::Str(bytes)) => r matches Some(s) && s@ == lossy_text(bytes),
            _ => r is None,
        }
    }

    fn lua_read_with_pop_impl(lua: &lua_State, index: i32, pop: i32) -> (r: Option<String>) {
        match lua.slot(index) {
            Some(ScriptValue::Str(bytes)) => match text_from_bytes(bytes.clone()) {
                Ok(text) => Some(text),
                Err(_) => Some("raw binary string...".to_string()),
            },
            _ => None,
        }
    }
}

/// A string of the script as it is: bytes, whether they are text or not.
#[derive(Debug, PartialEq)]
pub struct RawString(pub Vec<u8>);

impl LuaPush for RawString {
    open spec fn pushed(&self) -> Seq<ScriptView> {
        seq![ScriptView::Str(self.0@)]
    }

    fn push_to_lua(self, lua: &mut lua_State) -> (n: i32) {
        push_one(lua, ScriptValue::Str(self.0));
        1
    }
}

impl<'s> LuaPush for &'s RawString {
    open spec fn pushed(&self) -> Seq<ScriptView> {
        seq![ScriptView::Str(self.0@)]
    }

    fn push_to_lua(self, lua: &mut lua_State) -> (n: i32) {
        let copy = self.0.clone();
        assert(copy@ =~= self.0@);
        push_one(lua, ScriptValue::Str(copy));
        1
    }
}

impl LuaRead for RawString {
    /// A string reads as its bytes; anything else as nothing.
    open spec fn reads_as(lua: &lua_State, index: int, r: Option<RawString>) -> bool {
        match lua.value_at(index) {
            Some(ScriptView::Str(bytes)) => r matches Some(s) && s.0@ == bytes,
            _ => r is None,
        }
    }

    fn lua_read_with_pop_impl(lua: &lua_State, index: i32, pop: i32) -> (r: Option<RawString>) {
        match lua.slot(index) {
            Some(ScriptValue::Str(bytes)) => {
                let copy = bytes.clone();
                assert(copy@ =~= bytes@);
                Some(RawString(copy))
            },
            _ => None,
        }
    }
}

impl<T: LuaPush> LuaPush for Option<T> {
    /// A value that is there goes as itself, one that is not as nil.
    open spec fn pushed(&self) -> Seq<ScriptView> {
        match self {
            Some(v) => v.pushed(),
            None => seq![ScriptView::Nil],
        }
    }

    fn push_to_lua(self, lua: &mut lua_State) -> (n: i32) {
        match self {
            Some(v) => v.push_to_lua(lua),
            None => {
                push_one(lua, ScriptValue::Nil);
                1
            },
        }
    }
}

impl<T: LuaRead> LuaRead for Option<T> {
    /// A read of an optional value always gives one: what a read of the
    /// value gives, there or not.
    open spec fn reads_as(lua: &lua_State, index: int, r: Option<Option<T>>) -> bool {
        r matches Some(inner) && T::reads_as(lua, index, inner)
    }

    fn lua_read_with_pop_impl(lua: &lua_State, index: i32, pop: i32) -> (r: Option<Option<T>>) {
        Some(T::lua_read_with_pop_impl(lua, index, pop))
    }
}

impl<T: LuaPush> LuaPush for Box<T> {
    open spec fn pushed(&self) -> Seq<ScriptView> {
        (**self).pushed()
    }

    fn push_to_lua(self, lua: &mut lua_State) -> (n: i32) {
        (*self).push_to_lua(lua)
    }
}

/// A host value that is taken out of its light handle when it is read.
pub struct WrapperObject<T>(pub T);

} // verus!
