//! What comes back of a message: the laws that tie the writing of a message
//! to the reading of its bytes.
use crate::protocol::ser_utils::{has_raw_prefix, raw_prefix, read_value, walk};
use crate::protocol::value::TypedView;
use crate::protocol::wire::{
    carries, carries_in, carries_of, codec_msg_bytes, codec_msg_trees, codec_takes_msg, fits,
    fits_in, frames_msg, key_among, lemma_carries_fits_in, lemma_carries_nesting_in,
    lemma_keeps_texts_at, lemma_keeps_texts_from, lemma_pair_among, lemma_pair_source,
    nested_within, nested_within_in, pair_among, read_msg, reads_back, spelled, spelled_in,
    spelled_of, text_alone, value_among, written_msg, MAX_LEN, MAX_NEST,
};
use crate::protocol::wrapper::{
    lemma_blob_comes_back, lemma_bytes_become_blob, script_items, script_of, script_pairs,
    LuaWrapperValue,
};
use crate::sys::{lua_State, ScriptView};
use crate::LuaPush;
use vstd::prelude::*;
use vstd::utf8::valid_utf8;

verus! {

/// The list of the first `n` trees as the codec spells them has `n` trees,
/// each the tree in its place as the codec spells it.
pub proof fn lemma_spelled_in(items: Seq<TypedView>, n: nat)
    requires
        n <= items.len(),
    ensures
        spelled_in(items, n).len() == n,
        forall|j: int| 0 <= j < n ==> #[trigger] spelled_in(items, n)[j] == spelled(items[j]),
    decreases n,
{
    if n > 0 {
        lemma_spelled_in(items, (n - 1) as nat);
    }
}

/// The list of the first `n` pairs as the codec spells them has `n` pairs,
/// each the pair in its place as the codec spells it.
pub proof fn lemma_spelled_of(pairs: Seq<(TypedView, TypedView)>, n: nat)
    requires
        n <= pairs.len(),
    ensures
        spelled_of(pairs, n).len() == n,
        forall|j: int|
            0 <= j < n ==> #[trigger] spelled_of(pairs, n)[j] == (
                spelled(pairs[j].0),
                spelled(pairs[j].1),
            ),
    decreases n,
{
    if n > 0 {
        lemma_spelled_of(pairs, (n - 1) as nat);
    }
}

/// One pair whose key the tree carries, where it carries the key of one of
/// the first `n` pairs.
pub proof fn lemma_key_source(pairs: Seq<(TypedView, TypedView)>, w: TypedView, n: nat) -> (i: int)
    requires
        key_among(pairs, w, n),
    ensures
        0 <= i < n <= pairs.len(),
        carries(pairs[i].0, w),
    decreases n,
{
    if carries(pairs[n - 1].0, w) {
        n - 1
    } else {
        lemma_key_source(pairs, w, (n - 1) as nat)
    }
}

/// One pair whose value the tree carries, where it carries the value of one
/// of the first `n` pairs.
pub proof fn lemma_value_source(pairs: Seq<(TypedView, TypedView)>, w: TypedView, n: nat) -> (i:
    int)
    requires
        value_among(pairs, w, n),
    ensures
        0 <= i < n <= pairs.len(),
        carries(pairs[i].1, w),
    decreases n,
{
    if carries(pairs[n - 1].1, w) {
        n - 1
    } else {
        lemma_value_source(pairs, w, (n - 1) as nat)
    }
}

/// Each of the first `k` pairs that carry pairs has its key and its value
/// from among them.
pub proof fn lemma_carries_of_at(
    pairs: Seq<(TypedView, TypedView)>,
    ps: Seq<(TypedView, TypedView)>,
    k: nat,
    j: int,
)
    requires
        0 <= j < k <= ps.len(),
        carries_of(pairs, ps, k),
    ensures
        key_among(pairs, ps[j].0, pairs.len()),
        value_among(pairs, ps[j].1, pairs.len()),
    decreases k,
{
    if j < k - 1 {
        lemma_carries_of_at(pairs, ps, (k - 1) as nat, j);
    }
}

/// Carrying goes on: a tree that carries a tree that carries a third
/// carries the third.
pub proof fn lemma_carries_chain(a: TypedView, b: TypedView, c: TypedView)
    requires
        carries(a, b),
        carries(b, c),
    ensures
        carries(a, c),
    decreases a, 0nat, 0nat,
{
    match a {
        TypedView::Arr(items) => {
            lemma_carries_chain_in(items, b->Arr_0, c->Arr_0, items.len());
        },
        TypedView::Dict(pairs) => {
            let bp = b->Dict_0;
            let cp = c->Dict_0;
            lemma_carries_chain_of(pairs, bp, cp, cp.len());
            assert forall|i: int|
                0 <= i < pairs.len() && #[trigger] text_alone(pairs, i) implies pair_among(
                pairs,
                i,
                cp,
                cp.len(),
            ) by {
                lemma_keeps_texts_at(pairs, bp, pairs.len(), i);
                let k = lemma_pair_source(pairs, i, bp, bp.len());
                assert(text_alone(bp, k));
                lemma_keeps_texts_at(bp, cp, bp.len(), k);
                let m = lemma_pair_source(bp, k, cp, cp.len());
                lemma_carries_chain(pairs[i].1, bp[k].1, cp[m].1);
                lemma_pair_among(pairs, i, cp, m, cp.len());
            }
            lemma_keeps_texts_from(pairs, cp, pairs.len());
        },
        _ => {},
    }
}

/// Carrying goes on, tree by tree, in the first `n` trees of three lists.
pub proof fn lemma_carries_chain_in(
    items: Seq<TypedView>,
    bs: Seq<TypedView>,
    cs: Seq<TypedView>,
    n: nat,
)
    requires
        n <= items.len(),
        n <= bs.len(),
        n <= cs.len(),
        carries_in(items, bs, n),
        carries_in(bs, cs, n),
    ensures
        carries_in(items, cs, n),
    decreases items, 0nat, n,
{
    if n > 0 {
        lemma_carries_chain_in(items, bs, cs, (n - 1) as nat);
        lemma_carries_chain(items[n - 1], bs[n - 1], cs[n - 1]);
    }
}

/// Carrying goes on in the first `k` pairs of the last of three lists of
/// pairs.
pub proof fn lemma_carries_chain_of(
    pairs: Seq<(TypedView, TypedView)>,
    bp: Seq<(TypedView, TypedView)>,
    cp: Seq<(TypedView, TypedView)>,
    k: nat,
)
    requires
        k <= cp.len(),
        carries_of(pairs, bp, bp.len()),
        carries_of(bp, cp, k),
    ensures
        carries_of(pairs, cp, k),
    decreases pairs, 3nat, k,
{
    if k > 0 {
        lemma_carries_chain_of(pairs, bp, cp, (k - 1) as nat);
        let i = lemma_key_source(bp, cp[k - 1].0, bp.len());
        lemma_carries_of_at(pairs, bp, bp.len(), i);
        lemma_carries_chain_among(pairs, bp[i].0, cp[k - 1].0, bp[i].1, cp[k - 1].1, pairs.len());
        let j = lemma_value_source(bp, cp[k - 1].1, bp.len());
        lemma_carries_of_at(pairs, bp, bp.len(), j);
        lemma_carries_chain_among(pairs, bp[j].0, cp[k - 1].0, bp[j].1, cp[k - 1].1, pairs.len());
    }
}

/// A tree that carries a key from among the first `n` pairs hands it on to
/// a tree that carries it; and so for a value.
pub proof fn lemma_carries_chain_among(
    pairs: Seq<(TypedView, TypedView)>,
    key: TypedView,
    next_key: TypedView,
    value: TypedView,
    next_value: TypedView,
    n: nat,
)
    requires
        n <= pairs.len(),
    ensures
        key_among(pairs, key, n) && carries(key, next_key) ==> key_among(pairs, next_key, n),
        value_among(pairs, value, n) && carries(value, next_value) ==> value_among(
            pairs,
            next_value,
            n,
        ),
    decreases pairs, 1nat, n,
{
    if n > 0 {
        lemma_carries_chain_among(pairs, key, next_key, value, next_value, (n - 1) as nat);
        if carries(pairs[n - 1].0, key) && carries(key, next_key) {
            lemma_carries_chain(pairs[n - 1].0, key, next_key);
        }
        if carries(pairs[n - 1].1, value) && carries(value, next_value) {
            lemma_carries_chain(pairs[n - 1].1, value, next_value);
        }
    }
}

/// Spelling keeps carrying: where a tree carries another, it does so as the
/// codec spells the two.
pub proof fn lemma_spelled_carries(v: TypedView, w: TypedView)
    requires
        carries(v, w),
    ensures
        carries(spelled(v), spelled(w)),
    decreases v, 0nat, 0nat,
{
    match v {
        TypedView::Arr(items) => {
            let ws = w->Arr_0;
            lemma_spelled_in(items, items.len());
            lemma_spelled_in(ws, ws.len());
            lemma_spelled_carries_in(items, ws, items.len());
        },
        TypedView::Dict(pairs) => {
            let ps = w->Dict_0;
            let sp = spelled_of(pairs, pairs.len());
            let ss = spelled_of(ps, ps.len());
            lemma_spelled_of(pairs, pairs.len());
            lemma_spelled_of(ps, ps.len());
            lemma_spelled_carries_of(pairs, ps, ps.len());
            assert forall|k: int, m: int|
                0 <= k < ss.len() && 0 <= m < ss.len() && k != m && (#[trigger] ss[k]).0
                    is Str implies (#[trigger] ss[m]).0 != ss[k].0 by {
                lemma_spelled_text(ps[k].0);
                lemma_spelled_text(ps[m].0);
                assert(ps[m].0 != ps[k].0);
            }
            assert forall|i: int| 0 <= i < sp.len() && #[trigger] text_alone(sp, i) implies pair_among(
                sp,
                i,
                ss,
                ss.len(),
            ) by {
                lemma_spelled_text(pairs[i].0);
                assert forall|j: int| 0 <= j < pairs.len() && j != i implies (#[trigger] pairs[j]).0
                    != pairs[i].0 by {
                    assert(sp[j].0 != sp[i].0);
                }
                assert(text_alone(pairs, i));
                lemma_keeps_texts_at(pairs, ps, pairs.len(), i);
                let k = lemma_pair_source(pairs, i, ps, ps.len());
                lemma_spelled_carries(pairs[i].1, ps[k].1);
                lemma_pair_among(sp, i, ss, k, ss.len());
            }
            lemma_keeps_texts_from(sp, ss, sp.len());
        },
        _ => {},
    }
}

/// A text is spelled as it is, and nothing else is spelled as a text.
pub proof fn lemma_spelled_text(v: TypedView)
    ensures
        v is Str ==> spelled(v) == v,
        spelled(v) is Str ==> spelled(v) == v,
{
}

/// Spelling keeps carrying in the first `n` trees of two lists.
pub proof fn lemma_spelled_carries_in(items: Seq<TypedView>, ws: Seq<TypedView>, n: nat)
    requires
        n <= items.len(),
        n <= ws.len(),
        carries_in(items, ws, n),
    ensures
        carries_in(spelled_in(items, items.len()), spelled_in(ws, ws.len()), n),
    decreases items, 0nat, n,
{
    lemma_spelled_in(items, items.len());
    lemma_spelled_in(ws, ws.len());
    if n > 0 {
        lemma_spelled_carries_in(items, ws, (n - 1) as nat);
        lemma_spelled_carries(items[n - 1], ws[n - 1]);
    }
}

/// Spelling keeps carrying in the first `k` pairs of the second of two
/// lists of pairs.
pub proof fn lemma_spelled_carries_of(
    pairs: Seq<(TypedView, TypedView)>,
    ps: Seq<(TypedView, TypedView)>,
    k: nat,
)
    requires
        k <= ps.len(),
        carries_of(pairs, ps, k),
    ensures
        carries_of(spelled_of(pairs, pairs.len()), spelled_of(ps, ps.len()), k),
    decreases pairs, 3nat, k,
{
    lemma_spelled_of(pairs, pairs.len());
    lemma_spelled_of(ps, ps.len());
    if k > 0 {
        lemma_spelled_carries_of(pairs, ps, (k - 1) as nat);
        lemma_spelled_carries_among(pairs, ps[k - 1].0, ps[k - 1].1, pairs.len());
    }
}

/// Spelling keeps a key and a value among the first `n` pairs.
pub proof fn lemma_spelled_carries_among(
    pairs: Seq<(TypedView, TypedView)>,
    key: TypedView,
    value: TypedView,
    n: nat,
)
    requires
        n <= pairs.len(),
    ensures
        key_among(pairs, key, n) ==> key_among(spelled_of(pairs, pairs.len()), spelled(key), n),
        value_among(pairs, value, n) ==> value_among(
            spelled_of(pairs, pairs.len()),
            spelled(value),
            n,
        ),
    decreases pairs, 1nat, n,
{
    lemma_spelled_of(pairs, pairs.len());
    if n > 0 {
        lemma_spelled_carries_among(pairs, key, value, (n - 1) as nat);
        if carries(pairs[n - 1].0, key) {
            lemma_spelled_carries(pairs[n - 1].0, key);
        }
        if carries(pairs[n - 1].1, value) {
            lemma_spelled_carries(pairs[n - 1].1, value);
        }
    }
}

/// A message comes back. Of trees that the codec reads back, written to
/// bytes and read from them again, come as many trees, and each carries the
/// tree that went as the codec spells it: the same tree, but that whole
/// numbers of 16 bits and more are numbers of variable length, and that the
/// pairs of a dictionary may stand in another order, a pair with an equal
/// key having given its value to that key.
pub proof fn lemma_message_comes_back(values: Seq<TypedView>, bytes: Seq<u8>, out: Seq<TypedView>)
    requires
        reads_back(values),
        written_msg(values, bytes),
        read_msg(bytes, out),
    ensures
        frames_msg(bytes),
        codec_takes_msg(bytes),
        out.len() == values.len(),
        carries_in(spelled_in(values, values.len()), out, values.len()),
{
    let ws = choose|ws: Seq<TypedView>|
        ws.len() == values.len() && carries_in(values, ws, values.len()) && bytes
            == #[trigger] codec_msg_bytes(ws) && (reads_back(ws) ==> frames_msg(bytes)
            && codec_takes_msg(bytes) && codec_msg_trees(bytes) == spelled_in(ws, ws.len()));
    lemma_carries_fits_in(values, ws, ws.len());
    lemma_carries_nesting_in(values, ws, (MAX_NEST - 2) as nat, ws.len());
    lemma_spelled_in(values, values.len());
    lemma_spelled_in(ws, ws.len());
    lemma_spelled_carries_in(values, ws, values.len());
    lemma_carries_chain_in(
        spelled_in(values, values.len()),
        spelled_in(ws, ws.len()),
        out,
        values.len(),
    );
}

/// A tree without dictionaries.
pub open spec fn flat(v: TypedView) -> bool
    decreases v, 0nat,
{
    match v {
        TypedView::Arr(items) => flat_in(items, items.len()),
        TypedView::Dict(_) => false,
        _ => true,
    }
}

/// None of the first `n` trees of a list holds a dictionary.
pub open spec fn flat_in(items: Seq<TypedView>, n: nat) -> bool
    decreases items, n,
{
    n == 0 || n > items.len() || (flat_in(items, (n - 1) as nat) && flat(items[n - 1]))
}

/// Only a tree without dictionaries itself carries it.
pub proof fn lemma_flat_stays(v: TypedView, w: TypedView)
    requires
        flat(v),
        carries(v, w),
    ensures
        w == v,
    decreases v, 0nat,
{
    match v {
        TypedView::Arr(items) => {
            let ws = w->Arr_0;
            lemma_flat_stays_in(items, ws, items.len());
            assert(ws =~= items);
        },
        _ => {},
    }
}

/// Trees that carry the first `n` trees of a list without dictionaries, one
/// by one, are those trees.
pub proof fn lemma_flat_stays_in(items: Seq<TypedView>, ws: Seq<TypedView>, n: nat)
    requires
        n <= items.len(),
        n <= ws.len(),
        flat_in(items, n),
        carries_in(items, ws, n),
    ensures
        forall|j: int| 0 <= j < n ==> #[trigger] ws[j] == items[j],
    decreases items, n,
{
    if n > 0 {
        lemma_flat_stays_in(items, ws, (n - 1) as nat);
        lemma_flat_stays(items[n - 1], ws[n - 1]);
    }
}

/// A tree without dictionaries is spelled without dictionaries.
pub proof fn lemma_spelled_flat(v: TypedView)
    requires
        flat(v),
    ensures
        flat(spelled(v)),
    decreases v, 0nat,
{
    match v {
        TypedView::Arr(items) => {
            lemma_spelled_in(items, items.len());
            lemma_spelled_flat_in(items, items.len());
        },
        _ => {},
    }
}

/// The first `n` trees of a list without dictionaries are spelled without
/// dictionaries.
pub proof fn lemma_spelled_flat_in(items: Seq<TypedView>, n: nat)
    requires
        n <= items.len(),
        flat_in(items, n),
    ensures
        flat_in(spelled_in(items, items.len()), n),
    decreases items, n,
{
    lemma_spelled_in(items, items.len());
    if n > 0 {
        lemma_spelled_flat_in(items, (n - 1) as nat);
        lemma_spelled_flat(items[n - 1]);
    }
}

/// A message of trees without dictionaries comes back as the codec spells
/// it: written to bytes and read from them again, the trees are the trees
/// that went, but that whole numbers of 16 bits and more are numbers of
/// variable length. Trees that the codec spells as they are come back as
/// they went.
pub proof fn lemma_flat_message_comes_back(
    values: Seq<TypedView>,
    bytes: Seq<u8>,
    out: Seq<TypedView>,
)
    requires
        flat_in(values, values.len()),
        reads_back(values),
        written_msg(values, bytes),
        read_msg(bytes, out),
    ensures
        out == spelled_in(values, values.len()),
        spelled_in(values, values.len()) == values ==> out == values,
{
    lemma_message_comes_back(values, bytes, out);
    lemma_spelled_in(values, values.len());
    lemma_spelled_flat_in(values, values.len());
    lemma_flat_stays_in(spelled_in(values, values.len()), out, values.len());
    assert(out =~= spelled_in(values, values.len()));
}

/// A tree stands for the same script value as the codec spells it: what
/// comes back of a message is to scripts what went.
pub proof fn lemma_spelled_script(v: TypedView)
    ensures
        script_of(spelled(v)) == script_of(v),
    decreases v, 0nat,
{
    match v {
        TypedView::Arr(items) => {
            lemma_spelled_in(items, items.len());
            lemma_spelled_script_items(items, items.len());
        },
        TypedView::Dict(pairs) => {
            lemma_spelled_of(pairs, pairs.len());
            lemma_spelled_script_pairs(pairs, pairs.len());
        },
        _ => {},
    }
}

/// The first `n` entries of the table of an array are those of the array
/// as the codec spells it.
pub proof fn lemma_spelled_script_items(items: Seq<TypedView>, n: nat)
    requires
        n <= items.len(),
    ensures
        script_items(spelled_in(items, items.len()), n) == script_items(items, n),
    decreases items, n,
{
    lemma_spelled_in(items, items.len());
    if n > 0 {
        lemma_spelled_script_items(items, (n - 1) as nat);
        lemma_spelled_script(items[n - 1]);
    }
}

/// The first `n` entries of the table of a dictionary are those of the
/// dictionary as the codec spells it.
pub proof fn lemma_spelled_script_pairs(pairs: Seq<(TypedView, TypedView)>, n: nat)
    requires
        n <= pairs.len(),
    ensures
        script_pairs(spelled_of(pairs, pairs.len()), n) == script_pairs(pairs, n),
    decreases pairs, n,
{
    lemma_spelled_of(pairs, pairs.len());
    if n > 0 {
        lemma_spelled_script_pairs(pairs, (n - 1) as nat);
        lemma_spelled_script(pairs[n - 1].0);
        lemma_spelled_script(pairs[n - 1].1);
    }
}

/// A tree that was pushed is read from the top of the stack as the walk of
/// the script value that stands for it.
pub proof fn lemma_pushed_value_is_read(before: lua_State, after: lua_State, value: LuaWrapperValue)
    requires
        after.slots() == before.slots() + value.pushed(),
    ensures
        after.value_at(-1) == Some(script_of(value.0@)),
        read_value(&after, -1, 0) == walk(script_of(value.0@), 0),
{
}

/// A blob that is not empty and was pushed is read from the top of the
/// stack as the blob, byte for byte.
pub proof fn lemma_pushed_blob_is_read(
    before: lua_State,
    after: lua_State,
    value: LuaWrapperValue,
    bytes: Seq<u8>,
)
    requires
        bytes.len() > 0,
        value.0@ == TypedView::Raw(bytes),
        after.slots() == before.slots() + value.pushed(),
    ensures
        after.value_at(-1) == Some(ScriptView::Str(raw_prefix() + bytes)),
        read_value(&after, -1, 0) == Some(TypedView::Raw(bytes)),
{
    lemma_blob_comes_back(bytes, 0);
}

/// The bytes of a script string that is not valid UTF-8 as a blob: all of
/// them, or those after the blob mark where the string is longer than the
/// mark and begins with it.
pub open spec fn blob_of(text: Seq<u8>) -> Seq<u8> {
    if has_raw_prefix(text) {
        text.skip(4)
    } else {
        text
    }
}

/// A script string that is not valid UTF-8 travels as a blob. Walked, it is
/// the blob of its bytes; written into a message and read from the bytes,
/// the blob is the same, byte for byte; pushed, it is a string that begins
/// with the blob mark, and is read from the stack as the same blob again.
/// A string that is the blob mark alone is the blob of all its bytes.
pub proof fn lemma_blob_travels(
    text: Seq<u8>,
    message: Seq<u8>,
    out: Seq<TypedView>,
    before: lua_State,
    after: lua_State,
    value: LuaWrapperValue,
)
    requires
        !valid_utf8(text),
        text.len() <= MAX_LEN,
        written_msg(seq![walk(ScriptView::Str(text), 0)->0], message),
        read_msg(message, out),
        out.len() > 0 ==> value.0@ == out[0],
        after.slots() == before.slots() + value.pushed(),
    ensures
        walk(ScriptView::Str(text), 0) == Some(TypedView::Raw(blob_of(text))),
        text == raw_prefix() ==> blob_of(text) == text,
        out == seq![TypedView::Raw(blob_of(text))],
        after.value_at(-1) == Some(ScriptView::Str(raw_prefix() + blob_of(text))),
        read_value(&after, -1, 0) == Some(TypedView::Raw(blob_of(text))),
{
    lemma_bytes_become_blob(text, 0);
    let blob = blob_of(text);
    let values = seq![TypedView::Raw(blob)];
    assert(values[0] == TypedView::Raw(blob));
    assert(blob.len() <= text.len());
    assert(flat(values[0]));
    assert(fits(values[0]));
    assert(nested_within(values[0], (MAX_NEST - 2) as nat));
    assert(flat_in(values, 0));
    assert(flat_in(values, 1));
    assert(fits_in(values, 0));
    assert(fits_in(values, 1));
    assert(nested_within_in(values, (MAX_NEST - 2) as nat, 0));
    assert(nested_within_in(values, (MAX_NEST - 2) as nat, 1));
    lemma_flat_message_comes_back(values, message, out);
    lemma_spelled_in(values, 1);
    assert(spelled_in(values, 1) =~= values);
    assert(blob.len() > 0);
    lemma_pushed_blob_is_read(before, after, value, blob);
}

} // verus!
