//! Script values as value trees, and value trees as bytes.
pub mod proto_lua;
pub mod ser_utils;
pub mod travel;
pub mod value;
pub mod wire;
pub mod wrapper;

use vstd::prelude::*;

pub use proto_lua::ProtoLua;
pub use ser_utils::SerUtils;
pub use value::{TypedValue, TypedView};
pub use wrapper::{LuaWrapperTableValue, LuaWrapperValue, LuaWrapperVecValue};

verus! {

/// A host record that crosses the bridge by its fields, as if it were a
/// table of the script.
pub struct WrapSerde<T> {
    pub value: T,
}

impl<T> WrapSerde<T> {
    /// Wraps a record.
    pub fn new(value: T) -> (r: Self)
        ensures
            r.value == value,
    {
        Self { value }
    }
}

/// The pairs of a flat list of keys and values, taken from its end: the last
/// two items are the first pair, key before value. A first item that is left
/// over alone is dropped.
pub open spec fn pairs_from_end(items: Seq<TypedView>) -> Seq<(TypedView, TypedView)>
    decreases items.len(),
{
    if items.len() < 2 {
        Seq::empty()
    } else {
        seq![(items[items.len() - 2], items[items.len() - 1])] + pairs_from_end(
            items.take(items.len() - 2),
        )
    }
}

/// Folds the fields of a record, which come as a flat list of keys and
/// values, into a dictionary, last pair first.
pub fn fields_to_map(fields: Vec<TypedValue>) -> (r: TypedValue)
    ensures
        r@ == TypedView::Dict(pairs_from_end(value::value_views(fields@))),
{
    let ghost all = value::value_views(fields@);
    let mut rest = fields;
    let mut pairs: Vec<(TypedValue, TypedValue)> = Vec::new();
    assert(value::entry_views(pairs@) =~= Seq::<(TypedView, TypedView)>::empty());
    while rest.len() >= 2
        invariant
            value::entry_views(pairs@) + pairs_from_end(value::value_views(rest@))
                == pairs_from_end(all),
        decreases rest.len(),
    {
        let ghost before = value::value_views(rest@);
        let ghost done = value::entry_views(pairs@);
        let v = rest.pop().unwrap();
        let k = rest.pop().unwrap();
        assert(value::value_views(rest@) =~= before.take(before.len() - 2));
        assert(value::entry_views(pairs@.push((k, v))) =~= done.push((k@, v@)));
        assert(done.push((k@, v@)) + pairs_from_end(before.take(before.len() - 2)) =~= done + (
            seq![(k@, v@)] + pairs_from_end(before.take(before.len() - 2))));
        pairs.push((k, v));
    }
    assert(pairs_from_end(value::value_views(rest@)) =~= Seq::<(TypedView, TypedView)>::empty());
    assert(value::entry_views(pairs@) =~= pairs_from_end(all));
    proof {
        value::lemma_dict_view(pairs);
    }
    TypedValue::Dict(pairs)
}

} // verus!
