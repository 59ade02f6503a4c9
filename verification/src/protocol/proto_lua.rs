//! Messages between processes: script values as bytes and back.
use crate::protocol::ser_utils::{convert_count, convert_values, read_value, SerUtils};
use crate::protocol::value::{value_views, TypedView};
use crate::protocol::wire::{
    carries, carries_in, codec_map_bytes, codec_map_tree, codec_msg_bytes, codec_takes_map,
    codec_takes_msg, decode_msg, decode_msg_map, encode_msg, encode_msg_map, fits, fits_in,
    frames_msg, frames_msg_map, nested_within, nested_within_in, read_msg, texts, texts_in,
    written_msg, MAX_LEN, MAX_NEST,
};
use crate::protocol::wrapper::{script_of, LuaWrapperTableValue, LuaWrapperValue};
use crate::sys::{lua_State, ScriptView, MAX_STACK};
use crate::LuaPush;
use vstd::prelude::*;

verus! {

/// The most bytes that a message may have: its length travels in 24 bits.
pub const MAX_PACKED: usize = 0xFFFFFF;

/// Why a table could not be turned into a message.
#[derive(PartialEq, Eq, Structural, Debug, Clone, Copy)]
pub enum SerFault {
    /// The value is neither nil nor a table.
    NotTable,
    /// A length in the value does not fit the wire form, or the value holds
    /// too many texts.
    Oversize,
    /// The message would be longer than `MAX_PACKED` bytes.
    TooLong,
}

impl SerFault {
    /// The message with which the fault is raised in the script.
    pub fn message(&self) -> (r: String)
        ensures
            r@ == (match *self {
                SerFault::NotTable => "类型必须为table"@,
                SerFault::Oversize => "序列化错误:length over limit"@,
                SerFault::TooLong => "pack message(lua msg) size > 0xFFFF fail!"@,
            }),
    {
        match self {
            SerFault::NotTable => "类型必须为table".to_string(),
            SerFault::Oversize => "序列化错误:length over limit".to_string(),
            SerFault::TooLong => "pack message(lua msg) size > 0xFFFF fail!".to_string(),
        }
    }
}

/// Keeps the bytes of a message that is no longer than `MAX_PACKED` bytes,
/// and gives nothing for a longer one: a message is never cut short.
pub fn within_ceiling(encoded: Vec<u8>) -> (r: Option<Vec<u8>>)
    ensures
        r == (if encoded@.len() <= MAX_PACKED {
            Some(encoded)
        } else {
            None
        }),
{
    if encoded.len() > MAX_PACKED {
        None
    } else {
        Some(encoded)
    }
}

/// The value trees of the slots from `index` on, as a packing takes them:
/// nothing where nothing comes of one of the slots.
pub open spec fn packed_values(lua: &lua_State, index: int) -> Option<Seq<TypedView>> {
    if convert_count(lua.depth(), index) <= 0 {
        Some(Seq::empty())
    } else {
        convert_values(lua, index, convert_count(lua.depth(), index) as nat)
    }
}

/// The trees can travel as one message: there are no more than `MAX_LEN` of
/// them, each fits the wire form, and together they hold no more than
/// `MAX_LEN` texts.
pub open spec fn can_travel(values: Seq<TypedView>) -> bool {
    &&& values.len() <= MAX_LEN
    &&& fits_in(values, values.len())
    &&& texts_in(values, values.len()) <= MAX_LEN
}

/// Packs and unpacks messages.
pub struct ProtoLua;

impl ProtoLua {
    /// Packs the slots from `index` on into the bytes of one message.
    ///
    /// Nothing comes of slots of which no value trees come, of trees that
    /// cannot travel, and of a message that would be longer than
    /// `MAX_PACKED` bytes. In every other case the bytes that the codec
    /// writes for trees that carry the trees of the slots are given; they
    /// can be unpacked again where the codec reads such trees back.
    pub fn pack_protocol(lua: &lua_State, index: i32) -> (r: Option<Vec<u8>>)
        requires
            lua.wf(),
        ensures
            match packed_values(lua, index as int) {
                None => r is None,
                Some(values) => if !can_travel(values) {
                    r is None
                } else {
                    exists|ws: Seq<TypedView>|
                        ws.len() == values.len() && carries_in(values, ws, values.len()) && (if (
                        #[trigger] codec_msg_bytes(ws)).len() <= MAX_PACKED {
                            r matches Some(bytes) && bytes@ == codec_msg_bytes(ws)
                        } else {
                            r is None
                        })
                },
            },
            r matches Some(bytes) ==> written_msg(packed_values(lua, index as int)->0, bytes@),
    {
        let values = match SerUtils::lua_convert_value(lua, index) {
            Some(values) => values,
            None => {
                return None;
            },
        };
        match encode_msg(&values) {
            Some(bytes) => within_ceiling(bytes),
            None => None,
        }
    }

    /// Unpacks the bytes of a message onto the stack, as one table that
    /// holds the trees of the message under the keys 1, 2 and so on.
    ///
    /// Returns 1, the slot taken, where the bytes frame a message and the
    /// codec takes them; the trees of the table carry those that the bytes
    /// spell. For any other bytes it returns 0 and leaves the stack as it
    /// is.
    pub fn unpack_protocol(lua: &mut lua_State, buffer: &Vec<u8>) -> (n: i32)
        requires
            old(lua).depth() < MAX_STACK,
        ensures
            n == (if frames_msg(buffer@) && codec_takes_msg(buffer@) {
                1int
            } else {
                0int
            }),
            final(lua).globals == old(lua).globals,
            n == 0 ==> final(lua).slots() == old(lua).slots(),
            n == 1 ==> exists|values: Seq<TypedView>|
                read_msg(buffer@, values) && nested_within_in(values, MAX_NEST as nat, values.len()) && final(lua).slots()
                    == old(lua).slots().push(#[trigger] script_of(TypedView::Arr(values))),
    {
        match decode_msg(buffer) {
            Some(values) => {
                let ghost views = value_views(values@);
                let table = LuaWrapperTableValue(values);
                let n = table.push_to_lua(lua);
                assert(lua.slots() =~= old(lua).slots().push(script_of(TypedView::Arr(views))));
                n
            },
            None => 0,
        }
    }

    /// Turns the table in the slot that `index` names into the bytes of a
    /// message that holds it alone.
    ///
    /// Nil, and no slot, give nothing. Any other value that is no table is a
    /// fault. Of a table of which no value tree comes, nothing is given; a
    /// tree that cannot travel and a message that would be too long are
    /// faults. In every other case the bytes that the codec writes for a
    /// tree that carries the table's tree are given.
    pub fn ser_protocol(lua: &lua_State, index: i32) -> (r: Result<Option<Vec<u8>>, SerFault>)
        requires
            lua.wf(),
        ensures
            match lua.value_at(index as int) {
                None => r == Err::<Option<Vec<u8>>, SerFault>(SerFault::NotTable),
                Some(ScriptView::Nil) => r == Ok::<Option<Vec<u8>>, SerFault>(None),
                Some(ScriptView::Table(_)) => match read_value(lua, index as int, 0) {
                    None => r == Ok::<Option<Vec<u8>>, SerFault>(None),
                    Some(tree) => if !(fits(tree) && texts(tree) <= MAX_LEN) {
                        r == Err::<Option<Vec<u8>>, SerFault>(SerFault::Oversize)
                    } else {
                        exists|w: TypedView|
                            carries(tree, w) && (if (#[trigger] codec_map_bytes(w)).len()
                                <= MAX_PACKED {
                                r matches Ok(Some(bytes)) && bytes@ == codec_map_bytes(w)
                            } else {
                                r == Err::<Option<Vec<u8>>, SerFault>(SerFault::TooLong)
                            })
                    },
                },
                Some(_) => r == Err::<Option<Vec<u8>>, SerFault>(SerFault::NotTable),
            },
    {
        let kind = lua.type_at(index);
        if kind == crate::sys::LUA_TNIL {
            return Ok(None);
        }
        if kind != crate::sys::LUA_TTABLE {
            return Err(SerFault::NotTable);
        }
        let tree = match SerUtils::lua_read_value(lua, index, 0) {
            Some(tree) => tree,
            None => {
                return Ok(None);
            },
        };
        match encode_msg_map(&tree) {
            Some(bytes) => match within_ceiling(bytes) {
                Some(kept) => Ok(Some(kept)),
                None => Err(SerFault::TooLong),
            },
            None => Err(SerFault::Oversize),
        }
    }

    /// Puts the dictionary of a message that holds a bare dictionary on the
    /// stack.
    ///
    /// Returns 1, the slot taken, where the bytes frame such a message and
    /// the codec takes them; the value carries the dictionary that the bytes
    /// spell. For any other bytes it returns 0 and leaves the stack as it
    /// is.
    pub fn des_protocol(lua: &mut lua_State, buffer: &Vec<u8>) -> (n: i32)
        requires
            old(lua).depth() < MAX_STACK,
        ensures
            n == (if frames_msg_map(buffer@) && codec_takes_map(buffer@) {
                1int
            } else {
                0int
            }),
            final(lua).globals == old(lua).globals,
            n == 0 ==> final(lua).slots() == old(lua).slots(),
            n == 1 ==> exists|tree: TypedView|
                carries(codec_map_tree(buffer@), tree) && nested_within(tree, MAX_NEST as nat)
                    && final(lua).slots() == old(lua).slots().push(#[trigger] script_of(tree)),
    {
        match decode_msg_map(buffer) {
            Some(tree) => {
                let ghost view = tree@;
                let n = LuaWrapperValue(tree).push_to_lua(lua);
                assert(lua.slots() =~= old(lua).slots().push(script_of(view)));
                n
            },
            None => 0,
        }
    }
}

} // verus!
