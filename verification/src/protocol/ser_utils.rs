//! From a value of the script to a value tree.
use crate::protocol::value::{entry_views, lemma_arr_view, lemma_dict_view, value_views, TypedValue, TypedView};
use crate::sys::{lemma_table_view, lua_State, pair_views, ScriptValue, ScriptView};
use crate::text::text_from_bytes;
use vstd::prelude::*;
use vstd::relations::injective_on;
use vstd::set_lib::{lemma_int_range, lemma_map_size, lemma_subset_equality, set_int_range};
use vstd::utf8::{decode_utf8, valid_utf8};

verus! {

/// The deepest nesting of tables that a walk follows.
pub const MAX_DEPTH: u32 = 100;

/// The four bytes that mark a script string as a blob.
pub open spec fn raw_prefix() -> Seq<u8> {
    seq![140u8, 150u8, 141u8, 151u8]
}

/// The bytes are longer than the blob mark and begin with it.
pub open spec fn has_raw_prefix(bytes: Seq<u8>) -> bool {
    &&& bytes.len() > 4
    &&& bytes[0] == 140
    &&& bytes[1] == 150
    &&& bytes[2] == 141
    &&& bytes[3] == 151
}

/// The text that a read of a script string gives: the text itself where the
/// bytes are valid UTF-8, a fixed placeholder where they are not.
pub open spec fn lossy_text(bytes: Seq<u8>) -> Seq<char> {
    if valid_utf8(bytes) {
        decode_utf8(bytes)
    } else {
        "raw binary string..."@
    }
}

/// What a script string becomes: a blob without its mark where it carries
/// the mark, text where it is valid UTF-8, a blob of all its bytes otherwise.
pub open spec fn string_value(bytes: Seq<u8>) -> TypedView {
    if has_raw_prefix(bytes) {
        TypedView::Raw(bytes.skip(4))
    } else if valid_utf8(bytes) {
        TypedView::Str(decode_utf8(bytes))
    } else {
        TypedView::Raw(bytes)
    }
}

/// What the key of a table entry becomes in a dictionary: a whole number
/// gives its low 32 bits, a string its text; no other key can be taken.
pub open spec fn key_value(key: ScriptView) -> Option<TypedView> {
    match key {
        ScriptView::Integer(i) => Some(TypedView::U32(i as u32)),
        ScriptView::Str(bytes) => Some(TypedView::Str(lossy_text(bytes))),
        _ => None,
    }
}

/// The key is the whole number `k`.
pub open spec fn key_is(key: ScriptView, k: int) -> bool {
    key matches ScriptView::Integer(x) && x == k
}

/// The first position at or after `from` whose key is the whole number `k`,
/// or the number of pairs where there is none.
pub open spec fn index_position(pairs: Seq<(ScriptView, ScriptView)>, k: int, from: int) -> int
    decreases pairs.len() - from,
{
    if from < 0 || from >= pairs.len() {
        pairs.len() as int
    } else if key_is(pairs[from].0, k) {
        from
    } else {
        index_position(pairs, k, from + 1)
    }
}

/// The table is a list: it is not empty, and each of 1, 2, .., up to the
/// number of its pairs is one of its keys.
pub open spec fn is_array(pairs: Seq<(ScriptView, ScriptView)>) -> bool {
    &&& pairs.len() >= 1
    &&& forall|k: int| 1 <= k <= pairs.len() ==> index_position(pairs, k, 0) < pairs.len()
}

/// The value tree of a script value that stands `depth` tables deep.
///
/// Nothing comes of a value that stands deeper than `MAX_DEPTH`, nor of a
/// table with an entry of which nothing comes. A table that is a list becomes
/// an array of its items in the order of their keys; any other table becomes
/// a dictionary with one pair for each entry, in the order of the entries.
/// A boolean, a number and a string become the matching leaf, and anything
/// else becomes nil.
pub open spec fn walk(s: ScriptView, depth: nat) -> Option<TypedView>
    decreases s, 0nat,
{
    if depth > MAX_DEPTH {
        None
    } else {
        match s {
            ScriptView::Boolean(b) => Some(TypedView::Bool(b)),
            ScriptView::Integer(i) => Some(TypedView::I64(i)),
            ScriptView::Float(bits) => Some(TypedView::F64(bits)),
            ScriptView::Single(bits) => Some(TypedView::F32(bits)),
            ScriptView::Str(bytes) => Some(string_value(bytes)),
            ScriptView::Table(pairs) => {
                if is_array(pairs) {
                    match walk_items(pairs, depth, pairs.len()) {
                        Some(items) => Some(TypedView::Arr(items)),
                        None => None,
                    }
                } else {
                    match walk_entries(pairs, depth, pairs.len()) {
                        Some(entries) => Some(TypedView::Dict(entries)),
                        None => None,
                    }
                }
            },
            _ => Some(TypedView::Nil),
        }
    }
}

/// The first `n` items of the array of a table that is a list: the values
/// under the keys 1 to `n`, walked one table deeper. Nothing where nothing
/// comes of one of them.
pub open spec fn walk_items(pairs: Seq<(ScriptView, ScriptView)>, depth: nat, n: nat) -> Option<
    Seq<TypedView>,
>
    decreases pairs, n,
{
    if n == 0 || n > pairs.len() {
        Some(Seq::empty())
    } else {
        let p = index_position(pairs, n as int, 0);
        match walk_items(pairs, depth, (n - 1) as nat) {
            Some(init) => if 0 <= p < pairs.len() {
                match walk(pairs[p].1, depth + 1) {
                    Some(v) => Some(init.push(v)),
                    None => None,
                }
            } else {
                None
            },
            None => None,
        }
    }
}

/// The first `n` pairs of the dictionary of a table: for each of its first
/// `n` entries the key as a dictionary takes it, and the value walked one
/// table deeper. Nothing where a key cannot be taken or nothing comes of a
/// value.
pub open spec fn walk_entries(pairs: Seq<(ScriptView, ScriptView)>, depth: nat, n: nat) -> Option<
    Seq<(TypedView, TypedView)>,
>
    decreases pairs, n,
{
    if n == 0 || n > pairs.len() {
        Some(Seq::empty())
    } else {
        match walk_entries(pairs, depth, (n - 1) as nat) {
            Some(init) => match (key_value(pairs[n - 1].0), walk(pairs[n - 1].1, depth + 1)) {
                (Some(k), Some(v)) => Some(init.push((k, v))),
                _ => None,
            },
            None => None,
        }
    }
}

/// Once nothing comes of the first `n` items, nothing comes of more of them.
pub proof fn lemma_walk_items_fails(
    pairs: Seq<(ScriptView, ScriptView)>,
    depth: nat,
    n: nat,
    m: nat,
)
    requires
        n <= m <= pairs.len(),
        walk_items(pairs, depth, n) is None,
    ensures
        walk_items(pairs, depth, m) is None,
    decreases m,
{
    if n < m {
        lemma_walk_items_fails(pairs, depth, n, (m - 1) as nat);
    }
}

/// Once nothing comes of the first `n` entries, nothing comes of more of them.
pub proof fn lemma_walk_entries_fails(
    pairs: Seq<(ScriptView, ScriptView)>,
    depth: nat,
    n: nat,
    m: nat,
)
    requires
        n <= m <= pairs.len(),
        walk_entries(pairs, depth, n) is None,
    ensures
        walk_entries(pairs, depth, m) is None,
    decreases m,
{
    if n < m {
        lemma_walk_entries_fails(pairs, depth, n, (m - 1) as nat);
    }
}

/// A position found by `index_position` lies in range, holds the key, and
/// nothing between `from` and it does.
pub proof fn lemma_index_position(pairs: Seq<(ScriptView, ScriptView)>, k: int, from: int)
    requires
        0 <= from <= pairs.len(),
    ensures
        from <= index_position(pairs, k, from) <= pairs.len(),
        index_position(pairs, k, from) < pairs.len() ==> key_is(
            pairs[index_position(pairs, k, from)].0,
            k,
        ),
        forall|j: int|
            from <= j < index_position(pairs, k, from) ==> !key_is((#[trigger] pairs[j]).0, k),
    decreases pairs.len() - from,
{
    if from < pairs.len() && !key_is(pairs[from].0, k) {
        lemma_index_position(pairs, k, from + 1);
    }
}

/// A position that holds the key, with no earlier one at or after `from` that
/// does, is the one that `index_position` finds.
pub proof fn lemma_index_position_is(
    pairs: Seq<(ScriptView, ScriptView)>,
    k: int,
    from: int,
    p: int,
)
    requires
        0 <= from <= p <= pairs.len(),
        p < pairs.len() ==> key_is(pairs[p].0, k),
        forall|j: int| from <= j < p ==> !key_is((#[trigger] pairs[j]).0, k),
    ensures
        index_position(pairs, k, from) == p,
    decreases p - from,
{
    if from < p {
        lemma_index_position_is(pairs, k, from + 1, p);
    }
}

/// The view of an optional value tree.
pub open spec fn option_view(r: Option<TypedValue>) -> Option<TypedView> {
    match r {
        Some(v) => Some(v@),
        None => None,
    }
}

/// The view of an optional list of value trees.
pub open spec fn option_views(r: Option<Vec<TypedValue>>) -> Option<Seq<TypedView>> {
    match r {
        Some(v) => Some(value_views(v@)),
        None => None,
    }
}

/// The first position in `pairs` whose key is the whole number `k`.
fn find_index(pairs: &Vec<(ScriptValue, ScriptValue)>, k: i64) -> (r: Option<usize>)
    ensures
        match r {
            Some(p) => p < pairs@.len() && index_position(pair_views(pairs@), k as int, 0) == p,
            None => index_position(pair_views(pairs@), k as int, 0) == pairs@.len(),
        },
{
    let ghost views = pair_views(pairs@);
    let mut j: usize = 0;
    while j < pairs.len()
        invariant
            j <= pairs.len(),
            views == pair_views(pairs@),
            forall|m: int| 0 <= m < j ==> !key_is((#[trigger] views[m]).0, k as int),
        decreases pairs.len() - j,
    {
        let hit = match &pairs[j].0 {
            ScriptValue::Integer(x) => *x == k,
            _ => false,
        };
        assert(hit == key_is(views[j as int].0, k as int));
        if hit {
            proof {
                lemma_index_position_is(views, k as int, 0, j as int);
            }
            return Some(j);
        }
        j += 1;
    }
    proof {
        lemma_index_position_is(views, k as int, 0, j as int);
    }
    None
}

/// The positions of the keys 1, 2, .., in that order, where the table is a
/// list; `None` where it is not.
fn array_positions(pairs: &Vec<(ScriptValue, ScriptValue)>) -> (r: Option<Vec<usize>>)
    ensures
        r is Some <==> is_array(pair_views(pairs@)),
        r matches Some(ps) ==> ps@.len() == pairs@.len() && forall|i: int|
            0 <= i < ps@.len() ==> #[trigger] ps@[i] == index_position(
                pair_views(pairs@),
                i + 1,
                0,
            ) && ps@[i] < pairs@.len(),
{
    let ghost views = pair_views(pairs@);
    let n = pairs.len();
    if n == 0 {
        return None;
    }
    let mut out: Vec<usize> = Vec::new();
    let mut i: usize = 0;
    while i < n
        invariant
            i <= n,
            n == pairs@.len(),
            views == pair_views(pairs@),
            out@.len() == i,
            forall|m: int|
                0 <= m < i ==> #[trigger] out@[m] == index_position(views, m + 1, 0) && out@[m] < n,
        decreases n - i,
    {
        let wide: u64 = i as u64;
        if wide >= 0x7fff_ffff_ffff_ffff {
            // No key is this large: the table is no list.
            proof {
                lemma_index_position_is(views, i + 1, 0, views.len() as int);
            }
            return None;
        }
        match find_index(pairs, (wide + 1) as i64) {
            Some(p) => {
                out.push(p);
            },
            None => {
                return None;
            },
        }
        i += 1;
    }
    proof {
        assert forall|k: int| 1 <= k <= views.len() implies index_position(views, k, 0)
            < views.len() by {
            assert(out@[k - 1] == index_position(views, (k - 1) + 1, 0));
        }
    }
    Some(out)
}

/// What the key of a table entry becomes in a dictionary.
fn walk_key(key: &ScriptValue) -> (r: Option<TypedValue>)
    ensures
        option_view(r) == key_value(key@),
{
    match key {
        ScriptValue::Integer(i) => Some(TypedValue::U32(#[verifier::truncate] (*i as u32))),
        ScriptValue::Str(bytes) => match text_from_bytes(bytes.clone()) {
            Ok(text) => Some(TypedValue::Str(text)),
            Err(_) => {
                let text = "raw binary string...".to_string();
                Some(TypedValue::Str(text))
            },
        },
        _ => None,
    }
}

/// What a script string becomes.
fn walk_string(bytes: &Vec<u8>) -> (r: TypedValue)
    ensures
        r@ == string_value(bytes@),
{
    if bytes.len() > 4 && bytes[0] == 140 && bytes[1] == 150 && bytes[2] == 141 && bytes[3]
        == 151 {
        let mut rest: Vec<u8> = Vec::new();
        let mut i: usize = 4;
        while i < bytes.len()
            invariant
                4 <= i <= bytes.len(),
                rest@ == bytes@.subrange(4, i as int),
            decreases bytes.len() - i,
        {
            rest.push(bytes[i]);
            assert(rest@ =~= bytes@.subrange(4, i + 1));
            i += 1;
        }
        assert(rest@ =~= bytes@.skip(4));
        TypedValue::Raw(rest)
    } else {
        match text_from_bytes(bytes.clone()) {
            Ok(text) => TypedValue::Str(text),
            Err(raw) => TypedValue::Raw(raw),
        }
    }
}

/// Turns a script value that stands `depth` tables deep into a value tree.
/// See [`walk`] for what comes of each value.
pub fn walk_script_value(value: &ScriptValue, depth: u32) -> (r: Option<TypedValue>)
    ensures
        option_view(r) == walk(value@, depth as nat),
    decreases value,
{
    if depth > MAX_DEPTH {
        return None;
    }
    match value {
        ScriptValue::Boolean(b) => Some(TypedValue::Bool(*b)),
        ScriptValue::Integer(i) => Some(TypedValue::I64(*i)),
        ScriptValue::Float(bits) => Some(TypedValue::F64(*bits)),
        ScriptValue::Single(bits) => Some(TypedValue::F32(*bits)),
        ScriptValue::Str(bytes) => Some(walk_string(bytes)),
        ScriptValue::Table(pairs) => {
            let ghost views = pair_views(pairs@);
            let ghost d = depth as nat;
            proof {
                lemma_table_view(*pairs);
            }
            match array_positions(pairs) {
                Some(positions) => {
                    let mut out: Vec<TypedValue> = Vec::new();
                    let mut i: usize = 0;
                    while i < positions.len()
                        invariant
                            value matches ScriptValue::Table(p) && p == pairs,
                            depth <= MAX_DEPTH,
                            d == depth as nat,
                            views == pair_views(pairs@),
                            value@ == ScriptView::Table(views),
                            is_array(views),
                            positions@.len() == pairs@.len(),
                            forall|m: int|
                                0 <= m < positions@.len() ==> #[trigger] positions@[m]
                                    == index_position(views, m + 1, 0) && positions@[m]
                                    < pairs@.len(),
                            i <= positions.len(),
                            walk_items(views, d, i as nat) == Some(value_views(out@)),
                        decreases positions.len() - i,
                    {
                        let p = positions[i];
                        assert(positions@[i as int] == index_position(views, i + 1, 0));
                        match walk_script_value(&pairs[p].1, depth + 1) {
                            Some(v) => {
                                assert(value_views(out@.push(v)) =~= value_views(out@).push(v@));
                                out.push(v);
                            },
                            None => {
                                proof {
                                    assert(walk_items(views, d, (i + 1) as nat) is None);
                                    lemma_walk_items_fails(views, d, (i + 1) as nat, views.len());
                                }
                                return None;
                            },
                        }
                        i += 1;
                    }
                    proof {
                        lemma_arr_view(out);
                    }
                    Some(TypedValue::Arr(out))
                },
                None => {
                    let mut out: Vec<(TypedValue, TypedValue)> = Vec::new();
                    let mut i: usize = 0;
                    while i < pairs.len()
                        invariant
                            value matches ScriptValue::Table(p) && p == pairs,
                            depth <= MAX_DEPTH,
                            d == depth as nat,
                            views == pair_views(pairs@),
                            value@ == ScriptView::Table(views),
                            !is_array(views),
                            i <= pairs.len(),
                            walk_entries(views, d, i as nat) == Some(entry_views(out@)),
                        decreases pairs.len() - i,
                    {
                        let sub = walk_script_value(&pairs[i].1, depth + 1);
                        let key = walk_key(&pairs[i].0);
                        match (key, sub) {
                            (Some(k), Some(v)) => {
                                assert(entry_views(out@.push((k, v))) =~= entry_views(out@).push(
                                    (k@, v@),
                                ));
                                out.push((k, v));
                            },
                            _ => {
                                proof {
                                    assert(walk_entries(views, d, (i + 1) as nat) is None);
                                    lemma_walk_entries_fails(
                                        views,
                                        d,
                                        (i + 1) as nat,
                                        views.len(),
                                    );
                                }
                                return None;
                            },
                        }
                        i += 1;
                    }
                    proof {
                        lemma_dict_view(out);
                    }
                    Some(TypedValue::Dict(out))
                },
            }
        },
        _ => Some(TypedValue::Nil),
    }
}

/// What a read of the slot that `index` names gives at `depth`: the walk of
/// its value, and nil where the index names no slot.
pub open spec fn read_value(lua: &lua_State, index: int, depth: nat) -> Option<TypedView> {
    match lua.value_at(index) {
        Some(s) => walk(s, depth),
        None => if depth > MAX_DEPTH {
            None
        } else {
            Some(TypedView::Nil)
        },
    }
}

/// How many slots a conversion from `index` takes: for a negative index its
/// distance from the top, else the slots from it to the top.
pub open spec fn convert_count(top: int, index: int) -> int {
    if index < 0 {
        -index
    } else {
        top - index + 1
    }
}

/// The index of the `i`-th slot that a conversion from `index` reads.
pub open spec fn convert_index(index: int, i: int) -> int {
    if index < 0 {
        index - i
    } else {
        i + index
    }
}

/// The first `n` values of a conversion from `index`; nothing where nothing
/// comes of one of them.
pub open spec fn convert_values(lua: &lua_State, index: int, n: nat) -> Option<Seq<TypedView>>
    decreases n,
{
    if n == 0 {
        Some(Seq::empty())
    } else {
        match (
            convert_values(lua, index, (n - 1) as nat),
            read_value(lua, convert_index(index, n - 1), 0),
        ) {
            (Some(init), Some(v)) => Some(init.push(v)),
            _ => None,
        }
    }
}

/// Reads script values into value trees.
pub struct SerUtils;

impl SerUtils {
    /// The bytes of the string in the slot that `index` names; nothing where
    /// the slot holds no string.
    pub fn read_str_to_vec(lua: &lua_State, index: i32) -> (r: Option<Vec<u8>>)
        requires
            lua.wf(),
        ensures
            match lua.value_at(index as int) {
                Some(ScriptView::Str(bytes)) => r matches Some(v) && v@ == bytes,
                _ => r is None,
            },
    {
        match lua.slot(index) {
            Some(ScriptValue::Str(bytes)) => {
                let copy = bytes.clone();
                assert(copy@ =~= bytes@);
                Some(copy)
            },
            _ => None,
        }
    }

    /// Turns the value in the slot that `index` names into a value tree, as
    /// [`walk`] says, `stack` tables deep. A slot that is not there reads as
    /// nil.
    pub fn lua_read_value(lua: &lua_State, index: i32, stack: u32) -> (r: Option<TypedValue>)
        requires
            lua.wf(),
        ensures
            option_view(r) == read_value(lua, index as int, stack as nat),
            stack > MAX_DEPTH ==> r is None,
    {
        if stack > MAX_DEPTH {
            return None;
        }
        match lua.slot(index) {
            Some(value) => walk_script_value(value, stack),
            None => Some(TypedValue::Nil),
        }
    }

    /// Turns the slots from `index` on into value trees: for a negative
    /// index, as many slots as it lies below the top, read downwards from it;
    /// else the slots from it up to the top. Nothing where nothing comes of
    /// one of them.
    pub fn lua_convert_value(lua: &lua_State, index: i32) -> (r: Option<Vec<TypedValue>>)
        requires
            lua.wf(),
        ensures
            option_views(r) == (if convert_count(lua.depth(), index as int) <= 0 {
                Some(Seq::empty())
            } else {
                convert_values(lua, index as int, convert_count(lua.depth(), index as int) as nat)
            }),
    {
        let top: i64 = lua.top() as i64;
        let base: i64 = index as i64;
        let size: i64 = if base < 0 {
            -base
        } else {
            top - base + 1
        };
        let mut out: Vec<TypedValue> = Vec::new();
        assert(value_views(out@) =~= Seq::<TypedView>::empty());
        let mut i: i64 = 0;
        while i < size
            invariant
                lua.wf(),
                base == index,
                size == convert_count(lua.depth(), index as int),
                0 <= i,
                size <= 0 ==> i == 0,
                size > 0 ==> i <= size,
                size <= 0x8000_0000,
                convert_values(lua, index as int, i as nat) == Some(value_views(out@)),
            decreases size - i,
        {
            let at: i64 = if base < 0 {
                base - i
            } else {
                i + base
            };
            let sub = if at >= -0x8000_0000 && at <= 0x7fff_ffff {
                SerUtils::lua_read_value(lua, at as i32, 0)
            } else {
                Some(TypedValue::Nil)
            };
            match sub {
                Some(v) => {
                    assert(value_views(out@.push(v)) =~= value_views(out@).push(v@));
                    out.push(v);
                },
                None => {
                    proof {
                        lemma_convert_values_fails(
                            lua,
                            index as int,
                            (i + 1) as nat,
                            size as nat,
                        );
                    }
                    return None;
                },
            }
            i += 1;
        }
        Some(out)
    }
}

/// Once nothing comes of the first `n` values of a conversion, nothing comes
/// of more of them.
pub proof fn lemma_convert_values_fails(lua: &lua_State, index: int, n: nat, m: nat)
    requires
        n <= m,
        convert_values(lua, index, n) is None,
    ensures
        convert_values(lua, index, m) is None,
    decreases m,
{
    if n < m {
        lemma_convert_values_fails(lua, index, n, (m - 1) as nat);
    }
}

/// In a table that is a list, every pair stands under one of the keys 1 to
/// the number of pairs, and is the first pair under that key: a list has no
/// key that is not a whole number, and none twice.
pub proof fn lemma_list_holds_only_indexes(pairs: Seq<(ScriptView, ScriptView)>, j: int)
    requires
        is_array(pairs),
        0 <= j < pairs.len(),
    ensures
        exists|k: int| 1 <= k <= pairs.len() && index_position(pairs, k, 0) == j && key_is(pairs[j].0, k),
{
    let n = pairs.len() as int;
    let f = |k: int| index_position(pairs, k, 0);
    let dom = set_int_range(1, n + 1);
    let img = dom.map(f);
    let all = set_int_range(0, n);
    lemma_int_range(1, n + 1);
    lemma_int_range(0, n);
    assert(injective_on(f, dom)) by {
        assert forall|k1: int, k2: int|
            dom.contains(k1) && dom.contains(k2) && #[trigger] f(k1) == #[trigger] f(
                k2,
            ) implies k1 == k2 by {
            lemma_index_position(pairs, k1, 0);
            lemma_index_position(pairs, k2, 0);
        }
    }
    lemma_map_size(dom, img, f);
    assert(img.subset_of(all)) by {
        assert forall|p: int| img.contains(p) implies all.contains(p) by {
            let k = choose|k: int| dom.contains(k) && f(k) == p;
            lemma_index_position(pairs, k, 0);
        }
    }
    lemma_subset_equality(img, all);
    assert(all.contains(j));
    assert(img.contains(j));
    let k = choose|k: int| dom.contains(k) && f(k) == j;
    lemma_index_position(pairs, k, 0);
    assert(1 <= k <= pairs.len() && index_position(pairs, k, 0) == j && key_is(pairs[j].0, k));
}

/// A table with a key that is not one of the whole numbers 1 to the number
/// of its pairs is no list.
pub proof fn lemma_foreign_key_is_no_list(pairs: Seq<(ScriptView, ScriptView)>, j: int)
    requires
        0 <= j < pairs.len(),
        forall|k: int| 1 <= k <= pairs.len() ==> !key_is(pairs[j].0, k),
    ensures
        !is_array(pairs),
{
    if is_array(pairs) {
        lemma_list_holds_only_indexes(pairs, j);
    }
}

/// The table has an entry whose key is the whole number `k`.
pub open spec fn holds_key(pairs: Seq<(ScriptView, ScriptView)>, k: int) -> bool {
    exists|j: int| 0 <= j < pairs.len() && key_is(#[trigger] pairs[j].0, k)
}

/// A table that holds each of the keys 1 to the number of its pairs is a
/// list.
pub proof fn lemma_index_keys_make_list(pairs: Seq<(ScriptView, ScriptView)>)
    requires
        pairs.len() >= 1,
        forall|k: int| 1 <= k <= pairs.len() ==> #[trigger] holds_key(pairs, k),
    ensures
        is_array(pairs),
{
    assert forall|k: int| 1 <= k <= pairs.len() implies index_position(pairs, k, 0)
        < pairs.len() by {
        assert(holds_key(pairs, k));
        let j = choose|j: int| 0 <= j < pairs.len() && key_is(#[trigger] pairs[j].0, k);
        lemma_index_position(pairs, k, 0);
        if index_position(pairs, k, 0) >= pairs.len() {
            assert(!key_is(pairs[j].0, k));
        }
    }
}

/// Where something comes of each of the values under the keys 1 to `n`, the
/// first `n` items are there, each the walk of the value under its key.
pub proof fn lemma_walk_items_some(pairs: Seq<(ScriptView, ScriptView)>, depth: nat, n: nat)
    requires
        n <= pairs.len(),
        forall|k: int|
            1 <= k <= n ==> {
                let p = #[trigger] index_position(pairs, k, 0);
                0 <= p < pairs.len() && walk(pairs[p].1, depth + 1) is Some
            },
    ensures
        walk_items(pairs, depth, n) matches Some(items) && items.len() == n && forall|i: int|
            0 <= i < n ==> #[trigger] items[i] == walk(
                pairs[index_position(pairs, i + 1, 0)].1,
                depth + 1,
            )->0,
    decreases n,
{
    if n > 0 {
        lemma_walk_items_some(pairs, depth, (n - 1) as nat);
        let p = index_position(pairs, n as int, 0);
        assert(0 <= p < pairs.len() && walk(pairs[p].1, depth + 1) is Some);
    }
}

/// Where each of the first `n` entries has a key that a dictionary takes and
/// a value of which something comes, the first `n` pairs are there, each the
/// key and the walk of the value of its entry.
pub proof fn lemma_walk_entries_some(pairs: Seq<(ScriptView, ScriptView)>, depth: nat, n: nat)
    requires
        n <= pairs.len(),
        forall|i: int|
            0 <= i < n ==> key_value((#[trigger] pairs[i]).0) is Some && walk(
                pairs[i].1,
                depth + 1,
            ) is Some,
    ensures
        walk_entries(pairs, depth, n) matches Some(entries) && entries.len() == n && forall|i: int|
            0 <= i < n ==> #[trigger] entries[i] == (
                key_value(pairs[i].0)->0,
                walk(pairs[i].1, depth + 1)->0,
            ),
    decreases n,
{
    if n > 0 {
        lemma_walk_entries_some(pairs, depth, (n - 1) as nat);
        assert(key_value(pairs[n - 1].0) is Some);
    }
}

/// A table whose keys are the whole numbers 1 to n, n at least 1, becomes an
/// array of n items, the item at `i` being what comes of the value under the
/// key `i + 1`, where something comes of each value.
pub proof fn lemma_list_becomes_array(pairs: Seq<(ScriptView, ScriptView)>, depth: nat)
    requires
        depth <= MAX_DEPTH,
        pairs.len() >= 1,
        forall|k: int| 1 <= k <= pairs.len() ==> #[trigger] holds_key(pairs, k),
        forall|j: int| 0 <= j < pairs.len() ==> walk((#[trigger] pairs[j]).1, depth + 1) is Some,
    ensures
        walk(ScriptView::Table(pairs), depth) matches Some(TypedView::Arr(items)) && items.len()
            == pairs.len() && forall|i: int|
            0 <= i < pairs.len() ==> #[trigger] items[i] == walk(
                pairs[index_position(pairs, i + 1, 0)].1,
                depth + 1,
            )->0,
{
    lemma_index_keys_make_list(pairs);
    assert forall|k: int| 1 <= k <= pairs.len() implies {
        let p = #[trigger] index_position(pairs, k, 0);
        0 <= p < pairs.len() && walk(pairs[p].1, depth + 1) is Some
    } by {
        lemma_index_position(pairs, k, 0);
        let p = index_position(pairs, k, 0);
        assert(walk(pairs[p].1, depth + 1) is Some);
    }
    lemma_walk_items_some(pairs, depth, pairs.len());
}

/// A table with a key that is not one of the whole numbers 1 to the number
/// of its pairs (a string key, say) becomes a dictionary with one pair for
/// each entry, in the order of the entries, where every key can be taken and
/// something comes of each value.
pub proof fn lemma_other_table_becomes_dict(
    pairs: Seq<(ScriptView, ScriptView)>,
    depth: nat,
    j: int,
)
    requires
        depth <= MAX_DEPTH,
        0 <= j < pairs.len(),
        forall|k: int| 1 <= k <= pairs.len() ==> !key_is(pairs[j].0, k),
        forall|i: int|
            0 <= i < pairs.len() ==> key_value((#[trigger] pairs[i]).0) is Some && walk(
                pairs[i].1,
                depth + 1,
            ) is Some,
    ensures
        walk(ScriptView::Table(pairs), depth) matches Some(TypedView::Dict(entries))
            && entries.len() == pairs.len() && forall|i: int|
            0 <= i < pairs.len() ==> #[trigger] entries[i] == (
                key_value(pairs[i].0)->0,
                walk(pairs[i].1, depth + 1)->0,
            ),
{
    lemma_foreign_key_is_no_list(pairs, j);
    lemma_walk_entries_some(pairs, depth, pairs.len());
}

/// Nothing comes of a table that holds a value of which nothing comes.
pub proof fn lemma_walk_fails_through(pairs: Seq<(ScriptView, ScriptView)>, depth: nat, j: int)
    requires
        0 <= j < pairs.len(),
        walk(pairs[j].1, depth + 1) is None,
    ensures
        walk(ScriptView::Table(pairs), depth) is None,
{
    if depth <= MAX_DEPTH {
        if is_array(pairs) {
            lemma_list_holds_only_indexes(pairs, j);
            let k = choose|k: int|
                1 <= k <= pairs.len() && index_position(pairs, k, 0) == j && key_is(
                    pairs[j].0,
                    k,
                );
            assert(walk_items(pairs, depth, k as nat) is None);
            lemma_walk_items_fails(pairs, depth, k as nat, pairs.len());
        } else {
            assert(walk_entries(pairs, depth, (j + 1) as nat) is None);
            lemma_walk_entries_fails(pairs, depth, (j + 1) as nat, pairs.len());
        }
    }
}

/// The value holds tables nested `k` deep: following `k` times from a table
/// to one of its values stays within tables.
pub open spec fn nested(s: ScriptView, k: nat) -> bool
    decreases k,
{
    k == 0 || (s matches ScriptView::Table(pairs) && exists|j: int|
        0 <= j < pairs.len() && nested(#[trigger] pairs[j].1, (k - 1) as nat))
}

/// Nothing comes of a value whose tables are nested deeper than the walk
/// follows: with `k` levels below a value that stands `depth` deep and
/// `depth + k` beyond `MAX_DEPTH`, the walk gives nothing.
pub proof fn lemma_walk_stops_at_depth(s: ScriptView, depth: nat, k: nat)
    requires
        nested(s, k),
        depth + k > MAX_DEPTH,
    ensures
        walk(s, depth) is None,
    decreases k,
{
    if depth <= MAX_DEPTH {
        assert(k > 0);
        let pairs = s->Table_0;
        let j = choose|j: int|
            0 <= j < pairs.len() && nested(#[trigger] pairs[j].1, (k - 1) as nat);
        lemma_walk_stops_at_depth(pairs[j].1, depth + 1, (k - 1) as nat);
        lemma_walk_fails_through(pairs, depth, j);
    }
}

} // verus!
