use vstd::prelude::*;

verus! {

/// Mathematical form of a [`TypedValue`]: strings are sequences of characters,
/// blobs and collections are sequences.
pub enum TypedView {
    Nil,
    Bool(bool),
    U8(u8),
    I8(i8),
    U16(u16),
    I16(i16),
    U32(u32),
    I32(i32),
    U64(u64),
    I64(i64),
    Varint(i64),
    F32(u32),
    F64(u64),
    Str(Seq<char>),
    Raw(Seq<u8>),
    Arr(Seq<TypedView>),
    Dict(Seq<(TypedView, TypedView)>),
}

/// A node of the typed value tree that travels over the wire.
///
/// Floating-point payloads are carried by their IEEE-754 bit pattern; a dictionary
/// is an ordered list of key/value pairs.
#[derive(Debug, PartialEq)]
pub enum TypedValue {
    Nil,
    Bool(bool),
    U8(u8),
    I8(i8),
    U16(u16),
    I16(i16),
    U32(u32),
    I32(i32),
    U64(u64),
    I64(i64),
    Varint(i64),
    F32(u32),
    F64(u64),
    Str(String),
    Raw(Vec<u8>),
    Arr(Vec<TypedValue>),
    Dict(Vec<(TypedValue, TypedValue)>),
}

/// The mathematical form of a value tree.
pub open spec fn value_view(v: TypedValue) -> TypedView
    decreases v,
{
    match v {
        TypedValue::Nil => TypedView::Nil,
        TypedValue::Bool(b) => TypedView::Bool(b),
        TypedValue::U8(x) => TypedView::U8(x),
        TypedValue::I8(x) => TypedView::I8(x),
        TypedValue::U16(x) => TypedView::U16(x),
        TypedValue::I16(x) => TypedView::I16(x),
        TypedValue::U32(x) => TypedView::U32(x),
        TypedValue::I32(x) => TypedView::I32(x),
        TypedValue::U64(x) => TypedView::U64(x),
        TypedValue::I64(x) => TypedView::I64(x),
        TypedValue::Varint(x) => TypedView::Varint(x),
        TypedValue::F32(x) => TypedView::F32(x),
        TypedValue::F64(x) => TypedView::F64(x),
        TypedValue::Str(s) => TypedView::Str(s@),
        TypedValue::Raw(b) => TypedView::Raw(b@),
        TypedValue::Arr(items) => TypedView::Arr(
            Seq::new(
                items@.len(),
                |i: int|
                    if 0 <= i < items@.len() {
                        value_view(items@[i])
                    } else {
                        TypedView::Nil
                    },
            ),
        ),
        TypedValue::Dict(pairs) => TypedView::Dict(
            Seq::new(
                pairs@.len(),
                |i: int|
                    if 0 <= i < pairs@.len() {
                        (value_view(pairs@[i].0), value_view(pairs@[i].1))
                    } else {
                        (TypedView::Nil, TypedView::Nil)
                    },
            ),
        ),
    }
}

impl View for TypedValue {
    type V = TypedView;

    open spec fn view(&self) -> TypedView {
        value_view(*self)
    }
}

/// The views of a list of values.
pub open spec fn value_views(items: Seq<TypedValue>) -> Seq<TypedView> {
    Seq::new(items.len(), |i: int| items[i]@)
}

/// The views of a list of key/value pairs.
pub open spec fn entry_views(pairs: Seq<(TypedValue, TypedValue)>) -> Seq<(TypedView, TypedView)> {
    Seq::new(pairs.len(), |i: int| (pairs[i].0@, pairs[i].1@))
}

/// The view of an array is the list of the views of its items.
pub proof fn lemma_arr_view(items: Vec<TypedValue>)
    ensures
        TypedValue::Arr(items)@ == TypedView::Arr(value_views(items@)),
{
    assert(TypedValue::Arr(items)@->Arr_0 =~= value_views(items@));
}

/// The view of a dictionary is the list of the views of its pairs.
pub proof fn lemma_dict_view(pairs: Vec<(TypedValue, TypedValue)>)
    ensures
        TypedValue::Dict(pairs)@ == TypedView::Dict(entry_views(pairs@)),
{
    assert(TypedValue::Dict(pairs)@->Dict_0 =~= entry_views(pairs@));
}

impl TypedValue {
    /// A deep copy of the value.
    pub fn duplicate(&self) -> (r: TypedValue)
        ensures
            r@ == self@,
        decreases self,
    {
        match self {
            TypedValue::Nil => TypedValue::Nil,
            TypedValue::Bool(b) => TypedValue::Bool(*b),
            TypedValue::U8(x) => TypedValue::U8(*x),
            TypedValue::I8(x) => TypedValue::I8(*x),
            TypedValue::U16(x) => TypedValue::U16(*x),
            TypedValue::I16(x) => TypedValue::I16(*x),
            TypedValue::U32(x) => TypedValue::U32(*x),
            TypedValue::I32(x) => TypedValue::I32(*x),
            TypedValue::U64(x) => TypedValue::U64(*x),
            TypedValue::I64(x) => TypedValue::I64(*x),
            TypedValue::Varint(x) => TypedValue::Varint(*x),
            TypedValue::F32(x) => TypedValue::F32(*x),
            TypedValue::F64(x) => TypedValue::F64(*x),
            TypedValue::Str(s) => TypedValue::Str(s.clone()),
            TypedValue::Raw(b) => {
                let copy = b.clone();
                assert(copy@ =~= b@);
                TypedValue::Raw(copy)
            },
            TypedValue::Arr(items) => {
                let mut out: Vec<TypedValue> = Vec::new();
                let mut i: usize = 0;
                while i < items.len()
                    invariant
                        self matches TypedValue::Arr(p) && p == items,
                        i <= items.len(),
                        out@.len() == i,
                        forall|j: int| 0 <= j < i ==> (#[trigger] out@[j])@ == items@[j]@,
                    decreases items.len() - i,
                {
                    let v = items[i].duplicate();
                    out.push(v);
                    i += 1;
                }
                proof {
                    lemma_arr_view(out);
                    lemma_arr_view(*items);
                    assert(value_views(out@) =~= value_views(items@));
                }
                TypedValue::Arr(out)
            },
            TypedValue::Dict(pairs) => {
                let mut out: Vec<(TypedValue, TypedValue)> = Vec::new();
                let mut i: usize = 0;
                while i < pairs.len()
                    invariant
                        self matches TypedValue::Dict(p) && p == pairs,
                        i <= pairs.len(),
                        out@.len() == i,
                        forall|j: int|
                            0 <= j < i ==> (#[trigger] out@[j]).0@ == pairs@[j].0@ && out@[j].1@
                                == pairs@[j].1@,
                    decreases pairs.len() - i,
                {
                    let k = pairs[i].0.duplicate();
                    let v = pairs[i].1.duplicate();
                    out.push((k, v));
                    i += 1;
                }
                proof {
                    lemma_dict_view(out);
                    lemma_dict_view(*pairs);
                    assert(entry_views(out@) =~= entry_views(pairs@));
                }
                TypedValue::Dict(out)
            },
        }
    }
}

} // verus!
