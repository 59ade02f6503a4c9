//! From a value tree to a value of the script.
use crate::protocol::ser_utils::{has_raw_prefix, raw_prefix, walk, MAX_DEPTH};
use crate::protocol::value::{lemma_arr_view, lemma_dict_view, value_views, TypedValue, TypedView};
use crate::sys::{lemma_table_view, lua_State, pair_views, ScriptValue, ScriptView, MAX_STACK};
use crate::text::bytes_of_text;
use crate::LuaPush;
use vstd::prelude::*;
use vstd::string::StrSliceExecFns;
use vstd::utf8::{encode_utf8, valid_utf8};

verus! {

/// The bytes that stand for a text on the stack: its UTF-8 bytes, or those of
/// a fixed notice where the text holds a zero byte, which the runtime could
/// not take.
pub open spec fn pushed_text(text: Seq<char>) -> Seq<u8> {
    if encode_utf8(text).contains(0u8) {
        encode_utf8("UNVAILED STRING"@)
    } else {
        encode_utf8(text)
    }
}

/// The script value that stands for a value tree.
///
/// Whole numbers of every width become the number of that value (an unsigned
/// 64-bit one is taken as signed, bit for bit); a blob becomes a string that
/// begins with the blob mark; an array becomes a table under the keys 1, 2,
/// and so on; a dictionary becomes a table with one entry for each pair.
pub open spec fn script_of(v: TypedView) -> ScriptView
    decreases v, 0nat,
{
    match v {
        TypedView::Nil => ScriptView::Nil,
        TypedView::Bool(b) => ScriptView::Boolean(b),
        TypedView::U8(x) => ScriptView::Integer(x as i64),
        TypedView::I8(x) => ScriptView::Integer(x as i64),
        TypedView::U16(x) => ScriptView::Integer(x as i64),
        TypedView::I16(x) => ScriptView::Integer(x as i64),
        TypedView::U32(x) => ScriptView::Integer(x as i64),
        TypedView::I32(x) => ScriptView::Integer(x as i64),
        TypedView::U64(x) => ScriptView::Integer(x as i64),
        TypedView::I64(x) => ScriptView::Integer(x),
        TypedView::Varint(x) => ScriptView::Integer(x),
        TypedView::F32(bits) => ScriptView::Single(bits),
        TypedView::F64(bits) => ScriptView::Float(bits),
        TypedView::Str(text) => ScriptView::Str(pushed_text(text)),
        TypedView::Raw(bytes) => ScriptView::Str(raw_prefix() + bytes),
        TypedView::Arr(items) => ScriptView::Table(script_items(items, items.len())),
        TypedView::Dict(pairs) => ScriptView::Table(script_pairs(pairs, pairs.len())),
    }
}

/// The first `n` entries of the table of an array: item `i` under the key
/// `i + 1`.
pub open spec fn script_items(items: Seq<TypedView>, n: nat) -> Seq<(ScriptView, ScriptView)>
    decreases items, n,
{
    if n == 0 || n > items.len() {
        Seq::empty()
    } else {
        script_items(items, (n - 1) as nat).push(
            (ScriptView::Integer(n as i64), script_of(items[n - 1])),
        )
    }
}

/// The first `n` entries of the table of a dictionary.
pub open spec fn script_pairs(pairs: Seq<(TypedView, TypedView)>, n: nat) -> Seq<
    (ScriptView, ScriptView),
>
    decreases pairs, n,
{
    if n == 0 || n > pairs.len() {
        Seq::empty()
    } else {
        script_pairs(pairs, (n - 1) as nat).push(
            (script_of(pairs[n - 1].0), script_of(pairs[n - 1].1)),
        )
    }
}

/// The script values of a list of value trees, one slot each.
pub open spec fn scripts_of(items: Seq<TypedView>) -> Seq<ScriptView> {
    Seq::new(items.len(), |i: int| script_of(items[i]))
}

/// A table of `n` entries has `n` entries.
pub proof fn lemma_script_items_len(items: Seq<TypedView>, n: nat)
    requires
        n <= items.len(),
    ensures
        script_items(items, n).len() == n,
    decreases n,
{
    if n > 0 {
        lemma_script_items_len(items, (n - 1) as nat);
    }
}

/// A table of `n` entries has `n` entries.
pub proof fn lemma_script_pairs_len(pairs: Seq<(TypedView, TypedView)>, n: nat)
    requires
        n <= pairs.len(),
    ensures
        script_pairs(pairs, n).len() == n,
    decreases n,
{
    if n > 0 {
        lemma_script_pairs_len(pairs, (n - 1) as nat);
    }
}

/// Whether the bytes hold a zero byte.
fn holds_zero(bytes: &Vec<u8>) -> (r: bool)
    ensures
        r == bytes@.contains(0u8),
{
    let mut i: usize = 0;
    while i < bytes.len()
        invariant
            i <= bytes.len(),
            forall|j: int| 0 <= j < i ==> bytes@[j] != 0u8,
        decreases bytes.len() - i,
    {
        if bytes[i] == 0 {
            return true;
        }
        i += 1;
    }
    false
}

/// The script value that stands for a text.
pub fn text_to_script(text: &String) -> (r: ScriptValue)
    ensures
        r@ == ScriptView::Str(pushed_text(text@)),
{
    let bytes = bytes_of_text(text);
    if holds_zero(&bytes) {
        ScriptValue::Str("UNVAILED STRING".as_bytes_vec())
    } else {
        ScriptValue::Str(bytes)
    }
}

/// The script value that stands for a blob: the blob mark, then the bytes.
fn blob_to_script(bytes: &Vec<u8>) -> (r: ScriptValue)
    ensures
        r@ == ScriptView::Str(raw_prefix() + bytes@),
{
    let mut out: Vec<u8> = Vec::new();
    out.push(140);
    out.push(150);
    out.push(141);
    out.push(151);
    assert(out@ =~= raw_prefix());
    let mut i: usize = 0;
    while i < bytes.len()
        invariant
            i <= bytes.len(),
            out@ == raw_prefix() + bytes@.take(i as int),
        decreases bytes.len() - i,
    {
        out.push(bytes[i]);
        assert(out@ =~= raw_prefix() + bytes@.take(i + 1));
        i += 1;
    }
    assert(bytes@.take(bytes@.len() as int) =~= bytes@);
    ScriptValue::Str(out)
}

/// Builds the script value that stands for a value tree.
pub fn value_to_script(value: &TypedValue) -> (r: ScriptValue)
    ensures
        r@ == script_of(value@),
    decreases value,
{
    match value {
        TypedValue::Nil => ScriptValue::Nil,
        TypedValue::Bool(b) => ScriptValue::Boolean(*b),
        TypedValue::U8(x) => ScriptValue::Integer(*x as i64),
        TypedValue::I8(x) => ScriptValue::Integer(*x as i64),
        TypedValue::U16(x) => ScriptValue::Integer(*x as i64),
        TypedValue::I16(x) => ScriptValue::Integer(*x as i64),
        TypedValue::U32(x) => ScriptValue::Integer(*x as i64),
        TypedValue::I32(x) => ScriptValue::Integer(*x as i64),
        TypedValue::U64(x) => ScriptValue::Integer(#[verifier::truncate] (*x as i64)),
        TypedValue::I64(x) => ScriptValue::Integer(*x),
        TypedValue::Varint(x) => ScriptValue::Integer(*x),
        TypedValue::F32(bits) => ScriptValue::Single(*bits),
        TypedValue::F64(bits) => ScriptValue::Float(*bits),
        TypedValue::Str(text) => text_to_script(text),
        TypedValue::Raw(bytes) => blob_to_script(bytes),
        TypedValue::Arr(items) => {
            let ghost views = value_views(items@);
            let mut out: Vec<(ScriptValue, ScriptValue)> = Vec::new();
            let mut i: usize = 0;
            assert(pair_views(out@) =~= script_items(views, 0));
            while i < items.len()
                invariant
                    value matches TypedValue::Arr(p) && p == items,
                    views == value_views(items@),
                    i <= items.len(),
                    pair_views(out@) == script_items(views, i as nat),
                decreases items.len() - i,
            {
                let key = ScriptValue::Integer(#[verifier::truncate] ((i as u64 + 1) as i64));
                let item = value_to_script(&items[i]);
                assert(pair_views(out@.push((key, item))) =~= pair_views(out@).push(
                    (key@, item@),
                ));
                out.push((key, item));
                i += 1;
            }
            proof {
                lemma_arr_view(*items);
                lemma_table_view(out);
            }
            ScriptValue::Table(out)
        },
        TypedValue::Dict(pairs) => {
            let ghost views = crate::protocol::value::entry_views(pairs@);
            let mut out: Vec<(ScriptValue, ScriptValue)> = Vec::new();
            let mut i: usize = 0;
            assert(pair_views(out@) =~= script_pairs(views, 0));
            while i < pairs.len()
                invariant
                    value matches TypedValue::Dict(p) && p == pairs,
                    views == crate::protocol::value::entry_views(pairs@),
                    i <= pairs.len(),
                    pair_views(out@) == script_pairs(views, i as nat),
                decreases pairs.len() - i,
            {
                let key = value_to_script(&pairs[i].0);
                let item = value_to_script(&pairs[i].1);
                assert(pair_views(out@.push((key, item))) =~= pair_views(out@).push(
                    (key@, item@),
                ));
                out.push((key, item));
                i += 1;
            }
            proof {
                lemma_dict_view(*pairs);
                lemma_table_view(out);
            }
            ScriptValue::Table(out)
        },
    }
}

/// A value tree that goes to the script as one value.
pub struct LuaWrapperValue(pub TypedValue);

impl LuaPush for LuaWrapperValue {
    open spec fn pushed(&self) -> Seq<ScriptView> {
        seq![script_of(self.0@)]
    }

    fn push_to_lua(self, lua: &mut lua_State) -> (n: i32) {
        let image = value_to_script(&self.0);
        lua.push(image);
        assert(lua.slots() =~= old(lua).slots() + self.pushed());
        1
    }
}

/// A list of value trees that go to the script one slot each.
pub struct LuaWrapperVecValue(pub Vec<TypedValue>);

impl LuaPush for LuaWrapperVecValue {
    open spec fn pushed(&self) -> Seq<ScriptView> {
        scripts_of(value_views(self.0@))
    }

    fn push_to_lua(self, lua: &mut lua_State) -> (n: i32) {
        let ghost all = scripts_of(value_views(self.0@));
        let mut i: usize = 0;
        assert(lua.slots() =~= old(lua).slots() + all.take(0));
        while i < self.0.len()
            invariant
                all == scripts_of(value_views(self.0@)),
                i <= self.0.len(),
                old(lua).depth() + self.0.len() <= MAX_STACK,
                lua.depth() == old(lua).depth() + i,
                lua.slots() == old(lua).slots() + all.take(i as int),
                lua.globals == old(lua).globals,
            decreases self.0.len() - i,
        {
            let image = value_to_script(&self.0[i]);
            let ghost before = lua.slots();
            lua.push(image);
            assert(lua.slots() =~= old(lua).slots() + all.take(i + 1)) by {
                assert(all.take(i + 1) =~= all.take(i as int).push(all[i as int]));
            }
            i += 1;
        }
        assert(all.take(all.len() as int) =~= all);
        i as i32
    }
}

/// A list of value trees that goes to the script as one table, item `i`
/// under the key `i + 1`.
pub struct LuaWrapperTableValue(pub Vec<TypedValue>);

impl LuaPush for LuaWrapperTableValue {
    open spec fn pushed(&self) -> Seq<ScriptView> {
        seq![script_of(TypedView::Arr(value_views(self.0@)))]
    }

    fn push_to_lua(self, lua: &mut lua_State) -> (n: i32) {
        let tree = TypedValue::Arr(self.0);
        proof {
            lemma_arr_view(self.0);
        }
        let image = value_to_script(&tree);
        lua.push(image);
        assert(lua.slots() =~= old(lua).slots() + self.pushed());
        1
    }
}

/// Text never carries the blob mark: the mark begins with a byte that no
/// UTF-8 text begins with.
pub proof fn lemma_text_has_no_mark(bytes: Seq<u8>)
    requires
        valid_utf8(bytes),
    ensures
        !has_raw_prefix(bytes),
{
}

/// The blob mark alone is no text.
pub proof fn lemma_mark_is_no_text()
    ensures
        !valid_utf8(raw_prefix()),
        !has_raw_prefix(raw_prefix()),
{
}

/// A blob that is not empty comes back from the script as it went, byte for
/// byte, also where it begins with the blob mark or is the mark itself.
pub proof fn lemma_blob_comes_back(bytes: Seq<u8>, depth: nat)
    requires
        depth <= MAX_DEPTH,
        bytes.len() > 0,
    ensures
        walk(script_of(TypedView::Raw(bytes)), depth) == Some(TypedView::Raw(bytes)),
{
    let sent = raw_prefix() + bytes;
    assert(has_raw_prefix(sent));
    assert(sent.skip(4) =~= bytes);
}

/// A script string that is not valid UTF-8 becomes a blob that is not empty:
/// all of its bytes, or those after the blob mark where it is longer than
/// the mark and begins with it. That blob then comes back from the script
/// unchanged.
pub proof fn lemma_bytes_become_blob(bytes: Seq<u8>, depth: nat)
    requires
        depth <= MAX_DEPTH,
        !valid_utf8(bytes),
    ensures
        walk(ScriptView::Str(bytes), depth) == Some(
            TypedView::Raw(
                if has_raw_prefix(bytes) {
                    bytes.skip(4)
                } else {
                    bytes
                },
            ),
        ),
        walk(script_of(walk(ScriptView::Str(bytes), depth)->0), depth) == walk(
            ScriptView::Str(bytes),
            depth,
        ),
{
    let blob = if has_raw_prefix(bytes) {
        bytes.skip(4)
    } else {
        bytes
    };
    assert(blob.len() > 0);
    lemma_blob_comes_back(blob, depth);
}

/// A key that a dictionary gets back from the script as it went: a 32-bit
/// unsigned number, or a text without a zero byte.
pub open spec fn faithful_key(k: TypedView) -> bool {
    match k {
        TypedView::U32(_) => true,
        TypedView::Str(text) => !encode_utf8(text).contains(0u8),
        _ => false,
    }
}

/// A value tree that comes back from the script as it went, when it stands
/// `depth` tables deep: nil, a boolean, a signed 64-bit number, a floating
/// number, a text without a zero byte, a blob that is not empty, an array
/// that is not empty of such values, and a dictionary with such keys and
/// values that does not read as a list; none of it deeper than the walk
/// follows.
pub open spec fn faithful(v: TypedView, depth: nat) -> bool
    decreases v, 0nat,
{
    depth <= MAX_DEPTH && match v {
        TypedView::Nil => true,
        TypedView::Bool(_) => true,
        TypedView::I64(_) => true,
        TypedView::F32(_) => true,
        TypedView::F64(_) => true,
        TypedView::Str(text) => !encode_utf8(text).contains(0u8),
        TypedView::Raw(bytes) => bytes.len() > 0,
        TypedView::Arr(items) => 1 <= items.len() <= i64::MAX && faithful_items(
            items,
            depth + 1,
            items.len(),
        ),
        TypedView::Dict(pairs) => !crate::protocol::ser_utils::is_array(
            script_pairs(pairs, pairs.len()),
        ) && faithful_pairs(pairs, depth + 1, pairs.len()),
        _ => false,
    }
}

/// The first `n` items are faithful at `depth`.
pub open spec fn faithful_items(items: Seq<TypedView>, depth: nat, n: nat) -> bool
    decreases items, n,
{
    n == 0 || (n <= items.len() && faithful_items(items, depth, (n - 1) as nat) && faithful(
        items[n - 1],
        depth,
    ))
}

/// The first `n` pairs have faithful keys, and values faithful at `depth`.
pub open spec fn faithful_pairs(pairs: Seq<(TypedView, TypedView)>, depth: nat, n: nat) -> bool
    decreases pairs, n,
{
    n == 0 || (n <= pairs.len() && faithful_pairs(pairs, depth, (n - 1) as nat) && faithful_key(
        pairs[n - 1].0,
    ) && faithful(pairs[n - 1].1, depth))
}

/// The entries of the table of an array.
pub proof fn lemma_script_items_at(items: Seq<TypedView>, n: nat, j: int)
    requires
        0 <= j < n <= items.len(),
    ensures
        script_items(items, n).len() == n,
        script_items(items, n)[j] == (ScriptView::Integer((j + 1) as i64), script_of(items[j])),
    decreases n,
{
    lemma_script_items_len(items, (n - 1) as nat);
    if j < n - 1 {
        lemma_script_items_at(items, (n - 1) as nat, j);
    }
}

/// The entries of the table of a dictionary.
pub proof fn lemma_script_pairs_at(pairs: Seq<(TypedView, TypedView)>, n: nat, j: int)
    requires
        0 <= j < n <= pairs.len(),
    ensures
        script_pairs(pairs, n).len() == n,
        script_pairs(pairs, n)[j] == (script_of(pairs[j].0), script_of(pairs[j].1)),
    decreases n,
{
    lemma_script_pairs_len(pairs, (n - 1) as nat);
    if j < n - 1 {
        lemma_script_pairs_at(pairs, (n - 1) as nat, j);
    }
}

/// A faithful key comes back from the script as it went.
pub proof fn lemma_key_comes_back(k: TypedView)
    requires
        faithful_key(k),
    ensures
        crate::protocol::ser_utils::key_value(script_of(k)) == Some(k),
{
    match k {
        TypedView::U32(x) => {
            assert((x as i64) as u32 == x) by (bit_vector);
        },
        TypedView::Str(text) => {
            vstd::utf8::encode_utf8_valid_utf8(text);
            vstd::utf8::encode_utf8_decode_utf8(text);
        },
        _ => {},
    }
}

/// A faithful value tree comes back from the script as it went: the walk of
/// the script value that stands for it gives the tree itself.
pub proof fn lemma_round_trip(v: TypedView, depth: nat)
    requires
        faithful(v, depth),
    ensures
        walk(script_of(v), depth) == Some(v),
    decreases v, 0nat,
{
    match v {
        TypedView::Str(text) => {
            vstd::utf8::encode_utf8_valid_utf8(text);
            vstd::utf8::encode_utf8_decode_utf8(text);
            lemma_text_has_no_mark(encode_utf8(text));
        },
        TypedView::Raw(bytes) => {
            lemma_blob_comes_back(bytes, depth);
        },
        TypedView::Arr(items) => {
            let table = script_items(items, items.len());
            lemma_script_items_len(items, items.len());
            assert forall|k: int| 1 <= k <= table.len() implies #[trigger]
                crate::protocol::ser_utils::holds_key(table, k) by {
                lemma_script_items_at(items, items.len(), k - 1);
                assert(crate::protocol::ser_utils::key_is(table[k - 1].0, k));
            }
            crate::protocol::ser_utils::lemma_index_keys_make_list(table);
            lemma_round_trip_items(items, depth, items.len());
            assert(items.take(items.len() as int) =~= items);
        },
        TypedView::Dict(pairs) => {
            lemma_script_pairs_len(pairs, pairs.len());
            lemma_round_trip_pairs(pairs, depth, pairs.len());
            assert(pairs.take(pairs.len() as int) =~= pairs);
        },
        _ => {},
    }
}

/// The first `n` items of a faithful array come back as they went.
pub proof fn lemma_round_trip_items(items: Seq<TypedView>, depth: nat, n: nat)
    requires
        n <= items.len() <= i64::MAX,
        depth <= MAX_DEPTH,
        faithful_items(items, depth + 1, n),
    ensures
        crate::protocol::ser_utils::walk_items(script_items(items, items.len()), depth, n) == Some(
            items.take(n as int),
        ),
    decreases items, n,
{
    let table = script_items(items, items.len());
    lemma_script_items_len(items, items.len());
    if n == 0 {
        assert(items.take(0) =~= Seq::<TypedView>::empty());
    } else {
        lemma_round_trip_items(items, depth, (n - 1) as nat);
        lemma_round_trip(items[n - 1], depth + 1);
        lemma_script_items_at(items, items.len(), n - 1);
        assert forall|j: int| 0 <= j < n - 1 implies !crate::protocol::ser_utils::key_is(
            (#[trigger] table[j]).0,
            n as int,
        ) by {
            lemma_script_items_at(items, items.len(), j);
        }
        crate::protocol::ser_utils::lemma_index_position_is(table, n as int, 0, n - 1);
        assert(items.take(n as int) =~= items.take(n - 1).push(items[n - 1]));
    }
}

/// The first `n` pairs of a faithful dictionary come back as they went.
pub proof fn lemma_round_trip_pairs(pairs: Seq<(TypedView, TypedView)>, depth: nat, n: nat)
    requires
        n <= pairs.len(),
        depth <= MAX_DEPTH,
        faithful_pairs(pairs, depth + 1, n),
    ensures
        crate::protocol::ser_utils::walk_entries(script_pairs(pairs, pairs.len()), depth, n)
            == Some(pairs.take(n as int)),
    decreases pairs, n,
{
    let table = script_pairs(pairs, pairs.len());
    lemma_script_pairs_len(pairs, pairs.len());
    if n == 0 {
        assert(pairs.take(0) =~= Seq::<(TypedView, TypedView)>::empty());
    } else {
        lemma_round_trip_pairs(pairs, depth, (n - 1) as nat);
        lemma_round_trip(pairs[n - 1].1, depth + 1);
        lemma_key_comes_back(pairs[n - 1].0);
        lemma_script_pairs_at(pairs, pairs.len(), n - 1);
        assert(pairs.take(n as int) =~= pairs.take(n - 1).push(pairs[n - 1]));
    }
}

} // verus!
