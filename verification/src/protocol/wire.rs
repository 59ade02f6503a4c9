//! The wire form of value trees.
//!
//! Value trees travel as bytes in a tagged binary encoding that an outside
//! codec writes and reads. This module is the border to that codec. It turns
//! a tree into the codec's own tree and back, node by node; it hands a tree
//! to the codec only where every length in it fits its length field; and it
//! hands bytes to the codec only after it has checked that they frame
//! values, for the codec faults on bytes that end where a value must begin.
use crate::protocol::value::{entry_views, lemma_arr_view, lemma_dict_view, value_views, TypedValue, TypedView};
use vstd::prelude::*;
use vstd::utf8::encode_utf8;

verus! {

/// `hcproto::Value`: the codec's own value tree. This library carries such
/// trees between its wrappers and never looks into one.
#[verifier::external_type_specification]
#[verifier::external_body]
pub struct ExWireValue(hcproto::Value);

/// The longest text, blob or array that the wire form can carry, and the
/// most texts in one message: lengths and text numbers travel in 16 bits.
pub const MAX_LEN: usize = 65535;

/// The most pairs that a dictionary can have on the wire: the count of its
/// keys and values travels in 32 bits.
pub const MAX_PAIRS: usize = 0x7fff_ffff;

/// The number of text leaves in a tree of the codec.
pub uninterp spec fn wire_texts(w: hcproto::Value) -> nat;

/// The number of text leaves in a list of trees of the codec.
pub open spec fn wire_texts_in(items: Seq<hcproto::Value>, n: nat) -> nat
    decreases n,
{
    if n == 0 || n > items.len() {
        0
    } else {
        wire_texts_in(items, (n - 1) as nat) + wire_texts(items[n - 1])
    }
}

/// The number of text leaves in a list of pairs of trees of the codec.
pub open spec fn wire_texts_of(pairs: Seq<(hcproto::Value, hcproto::Value)>, n: nat) -> nat
    decreases n,
{
    if n == 0 || n > pairs.len() {
        0
    } else {
        wire_texts_of(pairs, (n - 1) as nat) + wire_texts(pairs[n - 1].0) + wire_texts(
            pairs[n - 1].1,
        )
    }
}

/// The host types that become a leaf of the codec by `hcproto::Value::from`:
/// booleans and whole numbers of fixed width.
trait WireScalar: Copy {
    /// The leaf that the value becomes.
    spec fn leaf(&self) -> TypedView;
}

impl WireScalar for bool {
    spec fn leaf(&self) -> TypedView {
        TypedView::Bool(*self)
    }
}

impl WireScalar for u8 {
    spec fn leaf(&self) -> TypedView {
        TypedView::U8(*self)
    }
}

impl WireScalar for i8 {
    spec fn leaf(&self) -> TypedView {
        TypedView::I8(*self)
    }
}

impl WireScalar for u16 {
    spec fn leaf(&self) -> TypedView {
        TypedView::U16(*self)
    }
}

impl WireScalar for i16 {
    spec fn leaf(&self) -> TypedView {
        TypedView::I16(*self)
    }
}

impl WireScalar for u32 {
    spec fn leaf(&self) -> TypedView {
        TypedView::U32(*self)
    }
}

impl WireScalar for i32 {
    spec fn leaf(&self) -> TypedView {
        TypedView::I32(*self)
    }
}

impl WireScalar for u64 {
    spec fn leaf(&self) -> TypedView {
        TypedView::U64(*self)
    }
}

impl WireScalar for i64 {
    spec fn leaf(&self) -> TypedView {
        TypedView::I64(*self)
    }
}

/// The key of the pair `i` is a text that is the key of no other pair of
/// the list.
pub open spec fn text_alone(pairs: Seq<(TypedView, TypedView)>, i: int) -> bool {
    &&& 0 <= i < pairs.len()
    &&& pairs[i].0 is Str
    &&& forall|j: int| 0 <= j < pairs.len() && j != i ==> (#[trigger] pairs[j]).0 != pairs[i].0
}

/// No text is the key of two pairs of the list.
pub open spec fn texts_apart(ps: Seq<(TypedView, TypedView)>) -> bool {
    forall|k: int, m: int|
        0 <= k < ps.len() && 0 <= m < ps.len() && k != m && (#[trigger] ps[k]).0 is Str ==> (
        #[trigger] ps[m]).0 != ps[k].0
}

/// The pairs `ps` are drawn from `pairs`: there are no more of them, there
/// is one where there is one in `pairs`, and each has the key of one pair of
/// `pairs` and the value of one. No text is the key of two of them, and a
/// pair of `pairs` whose key is a text that no other pair has is one of
/// them.
pub open spec fn drawn_from(ps: Seq<(TypedView, TypedView)>, pairs: Seq<(TypedView, TypedView)>) -> bool {
    &&& ps.len() <= pairs.len()
    &&& pairs.len() > 0 ==> ps.len() > 0
    &&& forall|k: int|
        0 <= k < ps.len() ==> exists|i: int, j: int|
            0 <= i < pairs.len() && 0 <= j < pairs.len() && (#[trigger] ps[k]).0
                == (#[trigger] pairs[i]).0 && ps[k].1 == (#[trigger] pairs[j]).1
    &&& texts_apart(ps)
    &&& forall|i: int| #[trigger]
        text_alone(pairs, i) ==> exists|k: int| 0 <= k < ps.len() && #[trigger] ps[k] == pairs[i]
}

/// `hcproto::Value::from` for a boolean or a whole number: the codec's leaf
/// of that type and value. It holds no text.
#[verifier::external_body]
fn wire_from<T: Into<hcproto::Value> + WireScalar>(x: T) -> (r: hcproto::Value)
    ensures
        wire_texts(r) == 0,
        wire_view(r) == x.leaf(),
{
    x.into()
}

/// `hcproto::Value::Nil`: the codec's nil. It holds no text.
#[verifier::external_body]
fn wire_nil() -> (r: hcproto::Value)
    ensures
        wire_texts(r) == 0,
        wire_view(r) == TypedView::Nil,
{
    hcproto::Value::Nil
}

/// `hcproto::Value::Varint`: the codec's number of variable length. It holds
/// no text.
#[verifier::external_body]
fn wire_varint(x: i64) -> (r: hcproto::Value)
    ensures
        wire_texts(r) == 0,
        wire_view(r) == TypedView::Varint(x),
{
    hcproto::Value::Varint(x)
}

/// `hcproto::decode_number` on the four bytes of a bit pattern, highest
/// first, as the codec reads them: the codec's number of single precision
/// with that pattern. It holds no text.
#[verifier::external_body]
fn wire_single(bits: u32) -> (r: hcproto::Value)
    ensures
        wire_texts(r) == 0,
        wire_view(r) == TypedView::F32(bits),
{
    let mut frame = hcproto::Buffer::new();
    let _ = std::io::Write::write_all(&mut frame, &bits.to_be_bytes());
    hcproto::decode_number(&mut frame, hcproto::ValueType::F32).unwrap_or(hcproto::Value::Nil)
}

/// `hcproto::decode_number` on the eight bytes of a bit pattern, highest
/// first, as the codec reads them: the codec's number of double precision
/// with that pattern. It holds no text.
#[verifier::external_body]
fn wire_double(bits: u64) -> (r: hcproto::Value)
    ensures
        wire_texts(r) == 0,
        wire_view(r) == TypedView::F64(bits),
{
    let mut frame = hcproto::Buffer::new();
    let _ = std::io::Write::write_all(&mut frame, &bits.to_be_bytes());
    hcproto::decode_number(&mut frame, hcproto::ValueType::F64).unwrap_or(hcproto::Value::Nil)
}

/// `hcproto::Value::Str`: the codec's text leaf. It holds one text.
#[verifier::external_body]
fn wire_text(text: String) -> (r: hcproto::Value)
    ensures
        wire_texts(r) == 1,
        wire_view(r) == TypedView::Str(text@),
{
    hcproto::Value::Str(text)
}

/// `hcproto::Value::Raw`: the codec's blob. It holds no text.
#[verifier::external_body]
fn wire_blob(bytes: Vec<u8>) -> (r: hcproto::Value)
    ensures
        wire_texts(r) == 0,
        wire_view(r) == TypedView::Raw(bytes@),
{
    hcproto::Value::Raw(bytes)
}

/// `hcproto::Value::Arr`: the codec's array of the given items, in their
/// order. It holds the texts of its items.
#[verifier::external_body]
fn wire_list(items: Vec<hcproto::Value>) -> (r: hcproto::Value)
    ensures
        wire_texts(r) == wire_texts_in(items@, items@.len()),
        wire_view(r) == TypedView::Arr(wire_views(items@)),
{
    hcproto::Value::Arr(items)
}

/// `hcproto::Value::Map`: the codec's map of the given pairs. A pair whose
/// key the codec holds equal to an earlier key gives its value to that
/// earlier key, so the map's pairs are drawn from the given ones, in the
/// order of the map. The codec holds two texts equal only where they are the
/// same, and a text equal to nothing else, so a pair whose key is a text
/// that no other pair has stays as it is. It holds no more texts than the
/// pairs do.
#[verifier::external_body]
fn wire_dict(pairs: Vec<(hcproto::Value, hcproto::Value)>) -> (r: hcproto::Value)
    ensures
        wire_texts(r) <= wire_texts_of(pairs@, pairs@.len()),
        wire_view(r) is Dict,
        drawn_from(wire_view(r)->Dict_0, wire_pair_views(pairs@)),
{
    hcproto::Value::Map(pairs.into_iter().collect())
}

/// The number of text leaves in a value tree.
pub open spec fn texts(v: TypedView) -> nat
    decreases v, 0nat,
{
    match v {
        TypedView::Str(_) => 1,
        TypedView::Arr(items) => texts_in(items, items.len()),
        TypedView::Dict(pairs) => texts_of(pairs, pairs.len()),
        _ => 0,
    }
}

/// The number of text leaves in the first `n` trees of a list.
pub open spec fn texts_in(items: Seq<TypedView>, n: nat) -> nat
    decreases items, n,
{
    if n == 0 || n > items.len() {
        0
    } else {
        texts_in(items, (n - 1) as nat) + texts(items[n - 1])
    }
}

/// The number of text leaves in the first `n` pairs of a list.
pub open spec fn texts_of(pairs: Seq<(TypedView, TypedView)>, n: nat) -> nat
    decreases pairs, n,
{
    if n == 0 || n > pairs.len() {
        0
    } else {
        texts_of(pairs, (n - 1) as nat) + texts(pairs[n - 1].0) + texts(pairs[n - 1].1)
    }
}

/// Every length in the tree fits the length field of the wire form: no
/// text or blob is longer than `MAX_LEN` bytes, no array has more than
/// `MAX_LEN` items, no dictionary more than `MAX_PAIRS` pairs.
pub open spec fn fits(v: TypedView) -> bool
    decreases v, 0nat,
{
    match v {
        TypedView::Str(text) => encode_utf8(text).len() <= MAX_LEN,
        TypedView::Raw(bytes) => bytes.len() <= MAX_LEN,
        TypedView::Arr(items) => items.len() <= MAX_LEN && fits_in(items, items.len()),
        TypedView::Dict(pairs) => pairs.len() <= MAX_PAIRS && fits_of(pairs, pairs.len()),
        _ => true,
    }
}

/// Each of the first `n` trees of a list fits.
pub open spec fn fits_in(items: Seq<TypedView>, n: nat) -> bool
    decreases items, n,
{
    n == 0 || n > items.len() || (fits_in(items, (n - 1) as nat) && fits(items[n - 1]))
}

/// Each key and value of the first `n` pairs of a list fits.
pub open spec fn fits_of(pairs: Seq<(TypedView, TypedView)>, n: nat) -> bool
    decreases pairs, n,
{
    n == 0 || n > pairs.len() || (fits_of(pairs, (n - 1) as nat) && fits(pairs[n - 1].0) && fits(
        pairs[n - 1].1,
    ))
}

/// What is left of a budget of texts after a tree has taken its texts from
/// it; nothing where the tree does not fit or holds more texts than the
/// budget.
pub open spec fn budget_after(v: TypedView, budget: nat) -> Option<nat> {
    if fits(v) && texts(v) <= budget {
        Some((budget - texts(v)) as nat)
    } else {
        None
    }
}

/// Checks a tree against the lengths of the wire form and takes its texts
/// from a budget.
pub fn check_tree(value: &TypedValue, budget: usize) -> (r: Option<usize>)
    ensures
        match r {
            Some(left) => budget_after(value@, budget as nat) == Some(left as nat),
            None => budget_after(value@, budget as nat) is None,
        },
    decreases value,
{
    match value {
        TypedValue::Str(text) => {
            if crate::text::bytes_of_text(text).len() <= MAX_LEN && budget >= 1 {
                Some(budget - 1)
            } else {
                None
            }
        },
        TypedValue::Raw(bytes) => {
            if bytes.len() <= MAX_LEN {
                Some(budget)
            } else {
                None
            }
        },
        TypedValue::Arr(items) => {
            let ghost views = value_views(items@);
            proof {
                lemma_arr_view(*items);
            }
            if items.len() > MAX_LEN {
                return None;
            }
            let mut left = budget;
            let mut i: usize = 0;
            while i < items.len()
                invariant
                    value matches TypedValue::Arr(p) && p == items,
                    views == value_views(items@),
                    i <= items.len(),
                    value@ == TypedView::Arr(views),
                    fits_in(views, i as nat),
                    texts_in(views, i as nat) + left == budget,
                decreases items.len() - i,
            {
                assert(views[i as int] == items@[i as int]@);
                match check_tree(&items[i], left) {
                    Some(rest) => {
                        left = rest;
                    },
                    None => {
                        proof {
                            lemma_budget_fails_in(views, (i + 1) as nat, budget as nat);
                        }
                        return None;
                    },
                }
                i += 1;
            }
            Some(left)
        },
        TypedValue::Dict(pairs) => {
            let ghost views = entry_views(pairs@);
            proof {
                lemma_dict_view(*pairs);
            }
            if pairs.len() > MAX_PAIRS {
                return None;
            }
            let mut left = budget;
            let mut i: usize = 0;
            while i < pairs.len()
                invariant
                    value matches TypedValue::Dict(p) && p == pairs,
                    views == entry_views(pairs@),
                    i <= pairs.len(),
                    value@ == TypedView::Dict(views),
                    fits_of(views, i as nat),
                    texts_of(views, i as nat) + left == budget,
                decreases pairs.len() - i,
            {
                assert(views[i as int] == (pairs@[i as int].0@, pairs@[i as int].1@));
                let after_key = check_tree(&pairs[i].0, left);
                let after_value = match after_key {
                    Some(rest) => check_tree(&pairs[i].1, rest),
                    None => None,
                };
                match after_value {
                    Some(rest) => {
                        left = rest;
                    },
                    None => {
                        proof {
                            lemma_budget_fails_of(views, (i + 1) as nat, budget as nat);
                        }
                        return None;
                    },
                }
                i += 1;
            }
            Some(left)
        },
        _ => Some(budget),
    }
}

/// A list whose first `n` trees do not all fit, or hold more texts than the
/// budget, does not fit as a whole or holds more texts than the budget.
pub proof fn lemma_budget_fails_in(items: Seq<TypedView>, n: nat, budget: nat)
    requires
        n <= items.len(),
        !fits_in(items, n) || texts_in(items, n) > budget,
    ensures
        !fits_in(items, items.len()) || texts_in(items, items.len()) > budget,
    decreases items.len() - n,
{
    if n < items.len() {
        lemma_budget_fails_in(items, n + 1, budget);
    }
}

/// A list whose first `n` pairs do not all fit, or hold more texts than the
/// budget, does not fit as a whole or holds more texts than the budget.
pub proof fn lemma_budget_fails_of(pairs: Seq<(TypedView, TypedView)>, n: nat, budget: nat)
    requires
        n <= pairs.len(),
        !fits_of(pairs, n) || texts_of(pairs, n) > budget,
    ensures
        !fits_of(pairs, pairs.len()) || texts_of(pairs, pairs.len()) > budget,
    decreases pairs.len() - n,
{
    if n < pairs.len() {
        lemma_budget_fails_of(pairs, n + 1, budget);
    }
}

/// The codec's tree `w` carries the value tree `v`: it is the same tree, but
/// that the pairs of a dictionary may stand in another order and that a pair
/// whose key the codec holds equal to another key has given its value to
/// that key. So each pair of a dictionary of `w` has the key of one pair of
/// the dictionary of `v` and the value of one; no text is the key of two
/// pairs of `w`; and a pair of `v` whose key is a text that no other pair of
/// its dictionary has stands in `w` with that key.
pub open spec fn carries(v: TypedView, w: TypedView) -> bool
    decreases v, 0nat, 0nat,
{
    match v {
        TypedView::Arr(items) => w matches TypedView::Arr(ws) && ws.len() == items.len()
            && carries_in(items, ws, items.len()),
        TypedView::Dict(pairs) => w matches TypedView::Dict(ps) && ps.len() <= pairs.len() && (
        pairs.len() > 0 ==> ps.len() > 0) && carries_of(pairs, ps, ps.len()) && texts_apart(ps)
            && keeps_texts(pairs, ps, pairs.len()),
        _ => w == v,
    }
}

/// Each of the first `n` trees of `ws` carries the tree of `items` in its
/// place.
pub open spec fn carries_in(items: Seq<TypedView>, ws: Seq<TypedView>, n: nat) -> bool
    decreases items, 0nat, n,
{
    n == 0 || n > items.len() || n > ws.len() || (carries_in(items, ws, (n - 1) as nat)
        && carries(items[n - 1], ws[n - 1]))
}

/// Each of the first `k` pairs of `ps` has a key that carries the key of one
/// of `pairs` and a value that carries the value of one.
pub open spec fn carries_of(
    pairs: Seq<(TypedView, TypedView)>,
    ps: Seq<(TypedView, TypedView)>,
    k: nat,
) -> bool
    decreases pairs, 1nat, k,
{
    k == 0 || k > ps.len() || (carries_of(pairs, ps, (k - 1) as nat) && key_among(
        pairs,
        ps[k - 1].0,
        pairs.len(),
    ) && value_among(pairs, ps[k - 1].1, pairs.len()))
}

/// `w` carries the key of one of the first `n` of `pairs`.
pub open spec fn key_among(pairs: Seq<(TypedView, TypedView)>, w: TypedView, n: nat) -> bool
    decreases pairs, 0nat, n,
{
    n > 0 && n <= pairs.len() && (key_among(pairs, w, (n - 1) as nat) || carries(pairs[n - 1].0, w))
}

/// `w` carries the value of one of the first `n` of `pairs`.
pub open spec fn value_among(pairs: Seq<(TypedView, TypedView)>, w: TypedView, n: nat) -> bool
    decreases pairs, 0nat, n,
{
    n > 0 && n <= pairs.len() && (value_among(pairs, w, (n - 1) as nat) || carries(
        pairs[n - 1].1,
        w,
    ))
}

/// Each of the first `n` of `pairs` whose key is a text that no other pair
/// has stands among `ps`.
pub open spec fn keeps_texts(
    pairs: Seq<(TypedView, TypedView)>,
    ps: Seq<(TypedView, TypedView)>,
    n: nat,
) -> bool
    decreases pairs, 1nat, n,
{
    n == 0 || n > pairs.len() || (keeps_texts(pairs, ps, (n - 1) as nat) && (text_alone(
        pairs,
        n - 1,
    ) ==> pair_among(pairs, n - 1, ps, ps.len())))
}

/// One of the first `k` of `ps` has the key of the pair `i` of `pairs` and a
/// value that carries its value.
pub open spec fn pair_among(
    pairs: Seq<(TypedView, TypedView)>,
    i: int,
    ps: Seq<(TypedView, TypedView)>,
    k: nat,
) -> bool
    decreases pairs, 0nat, k,
{
    0 <= i < pairs.len() && k > 0 && k <= ps.len() && (pair_among(pairs, i, ps, (k - 1) as nat) || (
    ps[k - 1].0 == pairs[i].0 && carries(pairs[i].1, ps[k - 1].1)))
}

/// The pair `m` of `ps`, which has the key of the pair `i` and carries its
/// value, is one of the first `k` of `ps`, for every `k` beyond `m`.
pub proof fn lemma_pair_among(
    pairs: Seq<(TypedView, TypedView)>,
    i: int,
    ps: Seq<(TypedView, TypedView)>,
    m: int,
    k: nat,
)
    requires
        0 <= i < pairs.len(),
        0 <= m < k <= ps.len(),
        ps[m].0 == pairs[i].0,
        carries(pairs[i].1, ps[m].1),
    ensures
        pair_among(pairs, i, ps, k),
    decreases k,
{
    if m < k - 1 {
        lemma_pair_among(pairs, i, ps, m, (k - 1) as nat);
    }
}

/// One pair of the first `k` of `ps` that has the key of the pair `i` and
/// carries its value, where there is one.
pub proof fn lemma_pair_source(
    pairs: Seq<(TypedView, TypedView)>,
    i: int,
    ps: Seq<(TypedView, TypedView)>,
    k: nat,
) -> (m: int)
    requires
        pair_among(pairs, i, ps, k),
    ensures
        0 <= m < k <= ps.len(),
        ps[m].0 == pairs[i].0,
        carries(pairs[i].1, ps[m].1),
    decreases k,
{
    if ps[k - 1].0 == pairs[i].0 && carries(pairs[i].1, ps[k - 1].1) {
        k - 1
    } else {
        lemma_pair_source(pairs, i, ps, (k - 1) as nat)
    }
}

/// Among the first `n` pairs, one whose key is a text that no other pair
/// has stands among `ps`, where the first `n` keep their texts.
pub proof fn lemma_keeps_texts_at(
    pairs: Seq<(TypedView, TypedView)>,
    ps: Seq<(TypedView, TypedView)>,
    n: nat,
    i: int,
)
    requires
        0 <= i < n <= pairs.len(),
        keeps_texts(pairs, ps, n),
        text_alone(pairs, i),
    ensures
        pair_among(pairs, i, ps, ps.len()),
    decreases n,
{
    if i < n - 1 {
        lemma_keeps_texts_at(pairs, ps, (n - 1) as nat, i);
    }
}

/// The first `n` pairs keep their texts where each of them whose key is a
/// text that no other pair has stands among `ps`.
pub proof fn lemma_keeps_texts_from(
    pairs: Seq<(TypedView, TypedView)>,
    ps: Seq<(TypedView, TypedView)>,
    n: nat,
)
    requires
        n <= pairs.len(),
        forall|i: int|
            0 <= i < n && #[trigger] text_alone(pairs, i) ==> pair_among(pairs, i, ps, ps.len()),
    ensures
        keeps_texts(pairs, ps, n),
    decreases n,
{
    if n > 0 {
        lemma_keeps_texts_from(pairs, ps, (n - 1) as nat);
    }
}

/// A text is carried by itself alone, and carries itself alone.
pub proof fn lemma_carried_text(v: TypedView, w: TypedView)
    requires
        carries(v, w),
        v is Str || w is Str,
    ensures
        w == v,
{
}

/// A tree that carries the key of the pair `i` carries the key of one of the
/// first `n` pairs, for every `n` beyond `i`.
pub proof fn lemma_key_among(pairs: Seq<(TypedView, TypedView)>, w: TypedView, i: int, n: nat)
    requires
        0 <= i < n <= pairs.len(),
        carries(pairs[i].0, w),
    ensures
        key_among(pairs, w, n),
    decreases n,
{
    if i < n - 1 {
        lemma_key_among(pairs, w, i, (n - 1) as nat);
    }
}

/// A tree that carries the value of the pair `i` carries the value of one of
/// the first `n` pairs, for every `n` beyond `i`.
pub proof fn lemma_value_among(pairs: Seq<(TypedView, TypedView)>, w: TypedView, i: int, n: nat)
    requires
        0 <= i < n <= pairs.len(),
        carries(pairs[i].1, w),
    ensures
        value_among(pairs, w, n),
    decreases n,
{
    if i < n - 1 {
        lemma_value_among(pairs, w, i, (n - 1) as nat);
    }
}

/// Pairs that are drawn from pairs that carry `pairs` one by one carry
/// `pairs` themselves.
pub proof fn lemma_drawn_carries(
    pairs: Seq<(TypedView, TypedView)>,
    made: Seq<(TypedView, TypedView)>,
    ps: Seq<(TypedView, TypedView)>,
    k: nat,
)
    requires
        made.len() == pairs.len(),
        forall|i: int|
            0 <= i < pairs.len() ==> carries(pairs[i].0, (#[trigger] made[i]).0) && carries(
                pairs[i].1,
                made[i].1,
            ),
        drawn_from(ps, made),
        k <= ps.len(),
    ensures
        carries_of(pairs, ps, k),
    decreases k,
{
    if k > 0 {
        lemma_drawn_carries(pairs, made, ps, (k - 1) as nat);
        let (i, j) = choose|i: int, j: int|
            0 <= i < made.len() && 0 <= j < made.len() && (#[trigger] ps[k - 1]).0
                == (#[trigger] made[i]).0 && ps[k - 1].1 == (#[trigger] made[j]).1;
        lemma_key_among(pairs, ps[k - 1].0, i, pairs.len());
        lemma_value_among(pairs, ps[k - 1].1, j, pairs.len());
    }
}

/// Pairs that are drawn from pairs that carry `pairs` one by one keep the
/// texts of `pairs`.
pub proof fn lemma_drawn_keeps_texts(
    pairs: Seq<(TypedView, TypedView)>,
    made: Seq<(TypedView, TypedView)>,
    ps: Seq<(TypedView, TypedView)>,
)
    requires
        made.len() == pairs.len(),
        forall|i: int|
            0 <= i < pairs.len() ==> carries(pairs[i].0, (#[trigger] made[i]).0) && carries(
                pairs[i].1,
                made[i].1,
            ),
        drawn_from(ps, made),
    ensures
        keeps_texts(pairs, ps, pairs.len()),
{
    assert forall|i: int| 0 <= i < pairs.len() && #[trigger] text_alone(pairs, i) implies pair_among(
        pairs,
        i,
        ps,
        ps.len(),
    ) by {
        lemma_carried_text(pairs[i].0, made[i].0);
        assert forall|j: int| 0 <= j < made.len() && j != i implies (#[trigger] made[j]).0
            != made[i].0 by {
            if made[j].0 == made[i].0 {
                lemma_carried_text(pairs[j].0, made[j].0);
                assert(pairs[j].0 == pairs[i].0);
            }
        }
        assert(text_alone(made, i));
        let k = choose|k: int| 0 <= k < ps.len() && #[trigger] ps[k] == made[i];
        lemma_pair_among(pairs, i, ps, k, ps.len());
    }
    lemma_keeps_texts_from(pairs, ps, pairs.len());
}

/// Builds the codec's tree for a value tree, node by node: a tree that
/// carries the value tree, and holds no more texts than it.
pub fn to_wire(value: &TypedValue) -> (r: hcproto::Value)
    ensures
        carries(value@, wire_view(r)),
        wire_texts(r) <= texts(value@),
    decreases value,
{
    match value {
        TypedValue::Nil => wire_nil(),
        TypedValue::Bool(b) => wire_from(*b),
        TypedValue::U8(x) => wire_from(*x),
        TypedValue::I8(x) => wire_from(*x),
        TypedValue::U16(x) => wire_from(*x),
        TypedValue::I16(x) => wire_from(*x),
        TypedValue::U32(x) => wire_from(*x),
        TypedValue::I32(x) => wire_from(*x),
        TypedValue::U64(x) => wire_from(*x),
        TypedValue::I64(x) => wire_from(*x),
        TypedValue::Varint(x) => wire_varint(*x),
        TypedValue::F32(bits) => wire_single(*bits),
        TypedValue::F64(bits) => wire_double(*bits),
        TypedValue::Str(text) => wire_text(text.clone()),
        TypedValue::Raw(bytes) => {
            let copy = bytes.clone();
            assert(copy@ =~= bytes@);
            wire_blob(copy)
        },
        TypedValue::Arr(items) => {
            let ghost views = value_views(items@);
            proof {
                lemma_arr_view(*items);
            }
            let mut out: Vec<hcproto::Value> = Vec::new();
            let mut i: usize = 0;
            while i < items.len()
                invariant
                    value matches TypedValue::Arr(p) && p == items,
                    views == value_views(items@),
                    i <= items.len(),
                    out@.len() == i,
                    wire_texts_in(out@, i as nat) <= texts_in(views, i as nat),
                    carries_in(views, wire_views(out@), i as nat),
                decreases items.len() - i,
            {
                let ghost before = out@;
                let item = to_wire(&items[i]);
                out.push(item);
                proof {
                    lemma_wire_texts_in_push(before, item);
                    lemma_carries_in_same(views, wire_views(before), wire_views(out@), i as nat);
                    assert(wire_views(out@)[i as int] == wire_view(item));
                    assert(views[i as int] == items@[i as int]@);
                }
                i += 1;
            }
            wire_list(out)
        },
        TypedValue::Dict(pairs) => {
            let ghost views = entry_views(pairs@);
            proof {
                lemma_dict_view(*pairs);
            }
            let mut out: Vec<(hcproto::Value, hcproto::Value)> = Vec::new();
            let mut i: usize = 0;
            while i < pairs.len()
                invariant
                    value matches TypedValue::Dict(p) && p == pairs,
                    views == entry_views(pairs@),
                    i <= pairs.len(),
                    out@.len() == i,
                    wire_texts_of(out@, i as nat) <= texts_of(views, i as nat),
                    forall|m: int|
                        0 <= m < i ==> carries(views[m].0, wire_view((#[trigger] out@[m]).0))
                            && carries(views[m].1, wire_view(out@[m].1)),
                decreases pairs.len() - i,
            {
                let ghost before = out@;
                let key = to_wire(&pairs[i].0);
                let item = to_wire(&pairs[i].1);
                out.push((key, item));
                proof {
                    lemma_wire_texts_of_push(before, (key, item));
                    assert(views[i as int] == (pairs@[i as int].0@, pairs@[i as int].1@));
                }
                i += 1;
            }
            let ghost made = wire_pair_views(out@);
            let r = wire_dict(out);
            proof {
                let ps = wire_view(r)->Dict_0;
                assert forall|m: int| 0 <= m < views.len() implies carries(
                    views[m].0,
                    (#[trigger] made[m]).0,
                ) && carries(views[m].1, made[m].1) by {
                    assert(made[m] == (wire_view(out@[m].0), wire_view(out@[m].1)));
                }
                lemma_drawn_carries(views, made, ps, ps.len());
                lemma_drawn_keeps_texts(views, made, ps);
            }
            r
        },
    }
}

/// Lists that agree on their first `n` trees carry the same there.
pub proof fn lemma_carries_in_same(items: Seq<TypedView>, a: Seq<TypedView>, b: Seq<TypedView>, n: nat)
    requires
        n <= a.len(),
        n <= b.len(),
        n <= items.len(),
        forall|i: int| 0 <= i < n ==> a[i] == b[i],
        carries_in(items, a, n),
    ensures
        carries_in(items, b, n),
    decreases n,
{
    if n > 0 {
        lemma_carries_in_same(items, a, b, (n - 1) as nat);
    }
}

/// A tree that carries a tree that fits fits itself.
pub proof fn lemma_carries_fits(v: TypedView, w: TypedView)
    requires
        carries(v, w),
        fits(v),
    ensures
        fits(w),
    decreases v, 0nat, 0nat,
{
    match v {
        TypedView::Arr(items) => {
            lemma_carries_fits_in(items, w->Arr_0, items.len());
        },
        TypedView::Dict(pairs) => {
            lemma_carries_fits_of(pairs, w->Dict_0, w->Dict_0.len());
        },
        _ => {},
    }
}

/// Trees that carry, one by one, trees that fit do so themselves.
pub proof fn lemma_carries_fits_in(items: Seq<TypedView>, ws: Seq<TypedView>, n: nat)
    requires
        n <= items.len(),
        n <= ws.len(),
        carries_in(items, ws, n),
        fits_in(items, n),
    ensures
        fits_in(ws, n),
    decreases items, 0nat, n,
{
    if n > 0 {
        lemma_carries_fits_in(items, ws, (n - 1) as nat);
        lemma_carries_fits(items[n - 1], ws[n - 1]);
    }
}

/// Pairs whose keys and values carry keys and values of pairs that fit
/// do so themselves.
pub proof fn lemma_carries_fits_of(
    pairs: Seq<(TypedView, TypedView)>,
    ps: Seq<(TypedView, TypedView)>,
    k: nat,
)
    requires
        k <= ps.len(),
        carries_of(pairs, ps, k),
        fits_of(pairs, pairs.len()),
    ensures
        fits_of(ps, k),
    decreases pairs, 2nat, k,
{
    if k > 0 {
        lemma_carries_fits_of(pairs, ps, (k - 1) as nat);
        lemma_carries_fits_among(pairs, ps[k - 1].0, ps[k - 1].1, pairs.len());
    }
}

/// A key and a value that carry a key and a value of pairs that fit do
/// so themselves.
pub proof fn lemma_carries_fits_among(
    pairs: Seq<(TypedView, TypedView)>,
    key: TypedView,
    value: TypedView,
    n: nat,
)
    requires
        n <= pairs.len(),
        fits_of(pairs, n),
    ensures
        key_among(pairs, key, n) ==> fits(key),
        value_among(pairs, value, n) ==> fits(value),
    decreases pairs, 1nat, n,
{
    if n > 0 {
        lemma_carries_fits_among(pairs, key, value, (n - 1) as nat);
        if carries(pairs[n - 1].0, key) {
            lemma_carries_fits(pairs[n - 1].0, key);
        }
        if carries(pairs[n - 1].1, value) {
            lemma_carries_fits(pairs[n - 1].1, value);
        }
    }
}

/// A tree that carries a tree that is nested no deeper than `levels` is so itself.
pub proof fn lemma_carries_nesting(v: TypedView, w: TypedView, levels: nat)
    requires
        carries(v, w),
        nested_within(v, levels),
    ensures
        nested_within(w, levels),
    decreases v, 0nat, 0nat,
{
    match v {
        TypedView::Arr(items) => {
            lemma_carries_nesting_in(items, w->Arr_0, (levels - 1) as nat, items.len());
        },
        TypedView::Dict(pairs) => {
            lemma_carries_nesting_of(pairs, w->Dict_0, (levels - 1) as nat, w->Dict_0.len());
        },
        _ => {},
    }
}

/// Trees that carry, one by one, trees that are nested no deeper than `levels` do so themselves.
pub proof fn lemma_carries_nesting_in(items: Seq<TypedView>, ws: Seq<TypedView>, levels: nat, n: nat)
    requires
        n <= items.len(),
        n <= ws.len(),
        carries_in(items, ws, n),
        nested_within_in(items, levels, n),
    ensures
        nested_within_in(ws, levels, n),
    decreases items, 0nat, n,
{
    if n > 0 {
        lemma_carries_nesting_in(items, ws, levels, (n - 1) as nat);
        lemma_carries_nesting(items[n - 1], ws[n - 1], levels);
    }
}

/// Pairs whose keys and values carry keys and values of pairs that are nested no deeper than `levels`
/// do so themselves.
pub proof fn lemma_carries_nesting_of(
    pairs: Seq<(TypedView, TypedView)>,
    ps: Seq<(TypedView, TypedView)>, levels: nat,
    k: nat,
)
    requires
        k <= ps.len(),
        carries_of(pairs, ps, k),
        nested_within_of(pairs, levels, pairs.len()),
    ensures
        nested_within_of(ps, levels, k),
    decreases pairs, 2nat, k,
{
    if k > 0 {
        lemma_carries_nesting_of(pairs, ps, levels, (k - 1) as nat);
        lemma_carries_nesting_among(pairs, ps[k - 1].0, ps[k - 1].1, levels, pairs.len());
    }
}

/// A key and a value that carry a key and a value of pairs that are nested no deeper than `levels` do
/// so themselves.
pub proof fn lemma_carries_nesting_among(
    pairs: Seq<(TypedView, TypedView)>,
    key: TypedView,
    value: TypedView, levels: nat,
    n: nat,
)
    requires
        n <= pairs.len(),
        nested_within_of(pairs, levels, n),
    ensures
        key_among(pairs, key, n) ==> nested_within(key, levels),
        value_among(pairs, value, n) ==> nested_within(value, levels),
    decreases pairs, 1nat, n,
{
    if n > 0 {
        lemma_carries_nesting_among(pairs, key, value, levels, (n - 1) as nat);
        if carries(pairs[n - 1].0, key) {
            lemma_carries_nesting(pairs[n - 1].0, key, levels);
        }
        if carries(pairs[n - 1].1, value) {
            lemma_carries_nesting(pairs[n - 1].1, value, levels);
        }
    }
}

/// The texts of a list with one more tree are those of the list and those
/// of the tree.
pub proof fn lemma_wire_texts_in_push(items: Seq<hcproto::Value>, item: hcproto::Value)
    ensures
        wire_texts_in(items.push(item), items.len() + 1) == wire_texts_in(items, items.len())
            + wire_texts(item),
{
    lemma_wire_texts_in_same(items, items.push(item), items.len());
}

/// Lists that agree on their first `n` trees hold the same texts there.
pub proof fn lemma_wire_texts_in_same(a: Seq<hcproto::Value>, b: Seq<hcproto::Value>, n: nat)
    requires
        n <= a.len(),
        n <= b.len(),
        forall|i: int| 0 <= i < n ==> a[i] == b[i],
    ensures
        wire_texts_in(a, n) == wire_texts_in(b, n),
    decreases n,
{
    if n > 0 {
        lemma_wire_texts_in_same(a, b, (n - 1) as nat);
    }
}

/// The texts of a list with one more pair are those of the list and those
/// of the pair.
pub proof fn lemma_wire_texts_of_push(
    pairs: Seq<(hcproto::Value, hcproto::Value)>,
    pair: (hcproto::Value, hcproto::Value),
)
    ensures
        wire_texts_of(pairs.push(pair), pairs.len() + 1) == wire_texts_of(pairs, pairs.len())
            + wire_texts(pair.0) + wire_texts(pair.1),
{
    lemma_wire_texts_of_same(pairs, pairs.push(pair), pairs.len());
}

/// Lists that agree on their first `n` pairs hold the same texts there.
pub proof fn lemma_wire_texts_of_same(
    a: Seq<(hcproto::Value, hcproto::Value)>,
    b: Seq<(hcproto::Value, hcproto::Value)>,
    n: nat,
)
    requires
        n <= a.len(),
        n <= b.len(),
        forall|i: int| 0 <= i < n ==> a[i] == b[i],
    ensures
        wire_texts_of(a, n) == wire_texts_of(b, n),
    decreases n,
{
    if n > 0 {
        lemma_wire_texts_of_same(a, b, (n - 1) as nat);
    }
}

/// The bytes that `hcproto::encode_msg` writes for a message that holds the
/// given trees of the codec.
pub uninterp spec fn codec_msg_bytes(ws: Seq<TypedView>) -> Seq<u8>;

/// The bytes that `hcproto::encode_msg_map` writes for a message that holds
/// the given tree of the codec alone.
pub uninterp spec fn codec_map_bytes(w: TypedView) -> Seq<u8>;

/// The tree as the codec spells it in bytes: a whole number of 16 bits or
/// more is written as a number of variable length (an unsigned 64-bit one
/// taken as signed, bit for bit), and every other leaf as what it is.
pub open spec fn spelled(w: TypedView) -> TypedView
    decreases w, 0nat,
{
    match w {
        TypedView::U16(x) => TypedView::Varint(x as i64),
        TypedView::I16(x) => TypedView::Varint(x as i64),
        TypedView::U32(x) => TypedView::Varint(x as i64),
        TypedView::I32(x) => TypedView::Varint(x as i64),
        TypedView::U64(x) => TypedView::Varint(x as i64),
        TypedView::I64(x) => TypedView::Varint(x),
        TypedView::Arr(items) => TypedView::Arr(spelled_in(items, items.len())),
        TypedView::Dict(pairs) => TypedView::Dict(spelled_of(pairs, pairs.len())),
        _ => w,
    }
}

/// The first `n` trees of a list as the codec spells them.
pub open spec fn spelled_in(items: Seq<TypedView>, n: nat) -> Seq<TypedView>
    decreases items, n,
{
    if n == 0 || n > items.len() {
        Seq::empty()
    } else {
        spelled_in(items, (n - 1) as nat).push(spelled(items[n - 1]))
    }
}

/// The first `n` pairs of a list as the codec spells them.
pub open spec fn spelled_of(pairs: Seq<(TypedView, TypedView)>, n: nat) -> Seq<
    (TypedView, TypedView),
>
    decreases pairs, n,
{
    if n == 0 || n > pairs.len() {
        Seq::empty()
    } else {
        spelled_of(pairs, (n - 1) as nat).push((spelled(pairs[n - 1].0), spelled(pairs[n - 1].1)))
    }
}

/// The codec reads a message of these trees back: there are no more than
/// `MAX_LEN` of them, every length in them fits the wire form, and their
/// nesting leaves room for the array that holds them.
pub open spec fn reads_back(ws: Seq<TypedView>) -> bool {
    &&& ws.len() <= MAX_LEN
    &&& fits_in(ws, ws.len())
    &&& nested_within_in(ws, (MAX_NEST - 2) as nat, ws.len())
}

/// `hcproto::encode_msg` into a fresh buffer: the bytes of a message that
/// holds the given trees. The codec numbers the texts of a message in 16
/// bits, so the trees may hold no more than `MAX_LEN` texts. It writes every
/// such message. Where the lengths fit the length fields of the wire form
/// and the nesting leaves room for the array that holds the trees, it reads
/// back what it wrote: the bytes frame a message, the codec takes them, and
/// they spell the trees.
#[verifier::external_body]
fn encode_frame(values: Vec<hcproto::Value>) -> (r: Option<Vec<u8>>)
    requires
        wire_texts_in(values@, values@.len()) <= MAX_LEN,
    ensures
        r is Some,
        r->Some_0@ == codec_msg_bytes(wire_views(values@)),
        reads_back(wire_views(values@)) ==> frames_msg(r->Some_0@) && codec_takes_msg(r->Some_0@)
            && codec_msg_trees(r->Some_0@) == spelled_in(wire_views(values@), values@.len()),
{
    let mut buffer = hcproto::Buffer::new();
    match hcproto::encode_msg(&mut buffer, values) {
        Ok(_) => Some(buffer.buf.as_slice().to_vec()),
        Err(_) => None,
    }
}

/// `hcproto::encode_msg_map` into a fresh buffer: the bytes of a message
/// that holds the given tree alone. The tree may hold no more than `MAX_LEN`
/// texts; the codec writes every such message.
#[verifier::external_body]
fn encode_map_frame(value: hcproto::Value) -> (r: Option<Vec<u8>>)
    requires
        wire_texts(value) <= MAX_LEN,
    ensures
        r is Some,
        r->Some_0@ == codec_map_bytes(wire_view(value)),
{
    let mut buffer = hcproto::Buffer::new();
    match hcproto::encode_msg_map(&mut buffer, value) {
        Ok(_) => Some(buffer.buf.as_slice().to_vec()),
        Err(_) => None,
    }
}

/// The bytes are those that the codec writes for a message of trees that
/// carry the given trees, one by one. Where the codec reads a message of
/// those trees back, the bytes frame a message, the codec takes them, and
/// they spell those trees.
pub open spec fn written_msg(values: Seq<TypedView>, bytes: Seq<u8>) -> bool {
    exists|ws: Seq<TypedView>|
        ws.len() == values.len() && carries_in(values, ws, values.len()) && bytes
            == #[trigger] codec_msg_bytes(ws) && (reads_back(ws) ==> frames_msg(bytes)
            && codec_takes_msg(bytes) && codec_msg_trees(bytes) == spelled_in(ws, ws.len()))
}

/// The trees are read from the bytes: there is one for each tree that the
/// bytes spell, and it carries that tree.
pub open spec fn read_msg(bytes: Seq<u8>, out: Seq<TypedView>) -> bool {
    out.len() == codec_msg_trees(bytes).len() && carries_in(
        codec_msg_trees(bytes),
        out,
        out.len(),
    )
}

/// The bytes are those that the codec writes for a message that holds a
/// tree that carries the given tree, alone.
pub open spec fn written_map(value: TypedView, bytes: Seq<u8>) -> bool {
    exists|w: TypedView| carries(value, w) && bytes == #[trigger] codec_map_bytes(w)
}

/// Turns the trees of a message into bytes. Nothing comes of a message of
/// more than `MAX_LEN` trees, of one that holds a tree that does not fit,
/// and of one that holds more than `MAX_LEN` texts; of every other message
/// come the bytes that the codec writes for trees that carry the given ones.
/// Where the trees are nested no deeper than two less than `MAX_NEST`, the
/// bytes frame a message and the codec takes them, so they can be read
/// back.
pub fn encode_msg(values: &Vec<TypedValue>) -> (r: Option<Vec<u8>>)
    ensures
        r is Some <==> values@.len() <= MAX_LEN && fits_in(
            value_views(values@),
            values@.len(),
        ) && texts_in(value_views(values@), values@.len()) <= MAX_LEN,
        r matches Some(bytes) ==> written_msg(value_views(values@), bytes@),
        r is Some && nested_within_in(value_views(values@), (MAX_NEST - 2) as nat, values@.len())
            ==> frames_msg(r->Some_0@) && codec_takes_msg(r->Some_0@),
{
    let ghost views = value_views(values@);
    if values.len() > MAX_LEN {
        return None;
    }
    let mut left: usize = MAX_LEN;
    let mut out: Vec<hcproto::Value> = Vec::new();
    let mut i: usize = 0;
    while i < values.len()
        invariant
            views == value_views(values@),
            i <= values.len(),
            out@.len() == i,
            fits_in(views, i as nat),
            texts_in(views, i as nat) + left == MAX_LEN,
            wire_texts_in(out@, i as nat) <= texts_in(views, i as nat),
            carries_in(views, wire_views(out@), i as nat),
        decreases values.len() - i,
    {
        assert(views[i as int] == values@[i as int]@);
        match check_tree(&values[i], left) {
            Some(rest) => {
                left = rest;
            },
            None => {
                proof {
                    lemma_budget_fails_in(views, (i + 1) as nat, MAX_LEN as nat);
                }
                return None;
            },
        }
        let ghost before = out@;
        let item = to_wire(&values[i]);
        out.push(item);
        proof {
            lemma_wire_texts_in_push(before, item);
            lemma_carries_in_same(views, wire_views(before), wire_views(out@), i as nat);
            assert(wire_views(out@)[i as int] == wire_view(item));
        }
        i += 1;
    }
    let ghost ws = wire_views(out@);
    proof {
        lemma_carries_fits_in(views, ws, ws.len());
        if nested_within_in(views, (MAX_NEST - 2) as nat, views.len()) {
            lemma_carries_nesting_in(views, ws, (MAX_NEST - 2) as nat, ws.len());
        }
    }
    let r = encode_frame(out);
    assert(r->Some_0@ == codec_msg_bytes(ws));
    r
}

/// Turns one tree into the bytes of a message that holds it alone. Nothing
/// comes of a tree that does not fit or holds more than `MAX_LEN` texts; of
/// every other tree come the bytes that the codec writes for a tree that
/// carries it.
pub fn encode_msg_map(value: &TypedValue) -> (r: Option<Vec<u8>>)
    ensures
        r is Some <==> fits(value@) && texts(value@) <= MAX_LEN,
        r matches Some(bytes) ==> written_map(value@, bytes@),
{
    match check_tree(value, MAX_LEN) {
        Some(_) => {
            let tree = to_wire(value);
            let ghost w = wire_view(tree);
            let r = encode_map_frame(tree);
            assert(r->Some_0@ == codec_map_bytes(w));
            r
        },
        None => None,
    }
}

/// The deepest nesting of arrays and dictionaries in bytes that are handed
/// to the codec.
pub const MAX_NEST: usize = 128;

/// The weight of the `i`-th group of seven bits in a number of variable
/// length.
pub open spec fn group_scale(i: nat) -> int {
    if i == 0 {
        1
    } else if i == 1 {
        0x80
    } else if i == 2 {
        0x4000
    } else if i == 3 {
        0x20_0000
    } else if i == 4 {
        0x1000_0000
    } else if i == 5 {
        0x8_0000_0000
    } else if i == 6 {
        0x400_0000_0000
    } else if i == 7 {
        0x2_0000_0000_0000
    } else if i == 8 {
        0x100_0000_0000_0000
    } else {
        0x8000_0000_0000_0000
    }
}

/// Reads a number of variable length whose groups from the `i`-th on stand
/// at `pos`, the groups before having added up to `acc`: the unsigned number
/// that it adds up to, and the position behind it.
///
/// Each byte gives its low seven bits as one group, lowest group first; a
/// byte below 128 is the last. The tenth group gives its lowest bit only. A
/// number that does not end within ten bytes, or within the bytes that are
/// there, is none.
pub open spec fn varint_from(bytes: Seq<u8>, pos: int, i: nat, acc: int) -> Option<(int, int)>
    decreases 10 - i,
{
    if i >= 10 || pos < 0 || pos >= bytes.len() {
        None
    } else {
        let group = bytes[pos] as int % 128;
        let sum = acc + (if i < 9 {
            group * group_scale(i)
        } else {
            (group % 2) * group_scale(9)
        });
        if bytes[pos] < 128 {
            Some((sum, pos + 1))
        } else {
            varint_from(bytes, pos + 1, i + 1, sum)
        }
    }
}

/// The low 16 bits of the signed number that an unsigned number of variable
/// length stands for: an even number stands for its half, an odd one for
/// the negative of its half, less one.
pub open spec fn count16(raw: int) -> int {
    if raw % 2 == 0 {
        (raw / 2) % 0x1_0000
    } else {
        0xffff - (raw / 2) % 0x1_0000
    }
}

/// The low 32 bits of the signed number that an unsigned number of variable
/// length stands for.
pub open spec fn count32(raw: int) -> int {
    if raw % 2 == 0 {
        (raw / 2) % 0x1_0000_0000
    } else {
        0xffff_ffff - (raw / 2) % 0x1_0000_0000
    }
}

/// The position behind `n` texts of the text table that begins at `pos`:
/// each text is its length, a number of variable length taken by its low 16
/// bits, and that many bytes. None where the bytes end before.
pub open spec fn skip_texts(bytes: Seq<u8>, pos: int, n: nat) -> Option<int>
    decreases n,
{
    if n == 0 {
        Some(pos)
    } else {
        match varint_from(bytes, pos, 0, 0) {
            Some((raw, next)) => if next + count16(raw) <= bytes.len() {
                skip_texts(bytes, next + count16(raw), (n - 1) as nat)
            } else {
                None
            },
            None => None,
        }
    }
}

/// The number of bytes that follow the tag of a value of fixed width.
pub open spec fn fixed_width(tag: u8) -> Option<int> {
    if tag == 1 || tag == 2 || tag == 3 {
        Some(1)
    } else if tag == 4 || tag == 5 {
        Some(2)
    } else if tag == 6 || tag == 7 || tag == 11 {
        Some(4)
    } else if tag == 12 {
        Some(8)
    } else {
        None
    }
}

/// The bytes from `pos` on frame the values that are still due: `pending`
/// holds, for each array or dictionary that is open, innermost last, the
/// number of values that it still lacks.
///
/// A value is a tag byte and what the tag asks for: a fixed number of
/// bytes; a number of variable length; a length and that many bytes for a
/// text or a blob; a count of values for an array, and of keys and values
/// for a dictionary, which are then due themselves. The tags 8 and 9 are
/// not taken; tag 0 and every tag above 17 is nil. The bytes frame the
/// values where each value that is due begins within them, nothing ends
/// short, and no more than `MAX_NEST` arrays and dictionaries are open at
/// once.
pub open spec fn frames(bytes: Seq<u8>, pos: int, pending: Seq<int>) -> bool
    decreases bytes.len() - pos, pending.len(),
{
    if pending.len() == 0 {
        true
    } else if pending.last() <= 0 {
        frames(bytes, pos, pending.drop_last())
    } else if pos < 0 || pos >= bytes.len() {
        false
    } else {
        let rest = pending.drop_last().push(pending.last() - 1);
        let tag = bytes[pos];
        if tag == 8 || tag == 9 {
            false
        } else if fixed_width(tag) is Some {
            pos + 1 + fixed_width(tag)->0 <= bytes.len() && frames(
                bytes,
                pos + 1 + fixed_width(tag)->0,
                rest,
            )
        } else if tag == 10 || tag == 13 || tag == 14 || tag == 15 || tag == 16 || tag == 17 {
            match varint_from(bytes, pos + 1, 0, 0) {
                Some((raw, next)) => {
                    if next <= pos || next > bytes.len() {
                        false
                    } else if tag == 10 || tag == 14 {
                        frames(bytes, next, rest)
                    } else if tag == 13 || tag == 15 {
                        next + count16(raw) <= bytes.len() && frames(
                            bytes,
                            next + count16(raw),
                            rest,
                        )
                    } else if tag == 16 {
                        rest.len() < MAX_NEST && frames(bytes, next, rest.push(count16(raw)))
                    } else {
                        rest.len() < MAX_NEST && frames(
                            bytes,
                            next,
                            rest.push(2 * (count32(raw) / 2)),
                        )
                    }
                },
                None => false,
            }
        } else {
            frames(bytes, pos + 1, rest)
        }
    }
}

/// The bytes frame a message: the number of its texts, the texts, and one
/// value.
pub open spec fn frames_msg(bytes: Seq<u8>) -> bool {
    match varint_from(bytes, 0, 0, 0) {
        Some((raw, next)) => match skip_texts(bytes, next, count16(raw) as nat) {
            Some(pos) => frames(bytes, pos, seq![1int]),
            None => false,
        },
        None => false,
    }
}

/// The bytes frame a message that holds a bare dictionary: the number of
/// its texts, the texts, the count of the keys and values, and these.
pub open spec fn frames_msg_map(bytes: Seq<u8>) -> bool {
    match varint_from(bytes, 0, 0, 0) {
        Some((raw, next)) => match skip_texts(bytes, next, count16(raw) as nat) {
            Some(pos) => match varint_from(bytes, pos, 0, 0) {
                Some((count, body)) => frames(bytes, body, seq![2 * (count32(count) / 2)]),
                None => false,
            },
            None => false,
        },
        None => false,
    }
}

/// Reads the number of variable length at `pos`.
fn read_varint(bytes: &Vec<u8>, pos: usize) -> (r: Option<(u64, usize)>)
    ensures
        match r {
            Some((raw, next)) => varint_from(bytes@, pos as int, 0, 0) == Some(
                (raw as int, next as int),
            ) && pos < next <= bytes@.len(),
            None => varint_from(bytes@, pos as int, 0, 0) is None,
        },
{
    let len = bytes.len();
    let mut raw: u64 = 0;
    let mut scale: u64 = 1;
    let mut i: u32 = 0;
    let mut at: usize = pos;
    while i < 10 && at < len
        invariant
            i <= 10,
            len == bytes@.len(),
            at == pos + i,
            i <= 9 ==> scale == group_scale(i as nat),
            i <= 9 ==> raw < scale,
            varint_from(bytes@, pos as int, 0, 0) == varint_from(
                bytes@,
                at as int,
                i as nat,
                raw as int,
            ),
        decreases 10 - i,
    {
        let byte = bytes[at];
        let group: u64 = (byte % 128) as u64;
        let part: u64 = if i < 9 {
            assert(group * scale <= 127 * scale) by (nonlinear_arith)
                requires
                    group <= 127,
                    scale >= 0,
            ;
            group * scale
        } else {
            (group % 2) * scale
        };
        raw = raw + part;
        if byte < 128 {
            return Some((raw, at + 1));
        }
        i += 1;
        at += 1;
        if i <= 9 {
            scale = scale * 128;
        }
    }
    None
}

/// The low 16 bits of the signed number that `raw` stands for.
fn low16(raw: u64) -> (r: usize)
    ensures
        r == count16(raw as int),
        r <= MAX_LEN,
{
    let half = (raw / 2) % 0x1_0000;
    if raw % 2 == 0 {
        half as usize
    } else {
        (0xffff - half) as usize
    }
}

/// The low 32 bits of the signed number that `raw` stands for.
fn low32(raw: u64) -> (r: u64)
    ensures
        r == count32(raw as int),
        r <= 0xffff_ffff,
{
    let half = (raw / 2) % 0x1_0000_0000;
    if raw % 2 == 0 {
        half
    } else {
        0xffff_ffff - half
    }
}

/// Skips `n` texts of the text table that begins at `pos`.
fn pass_texts(bytes: &Vec<u8>, pos: usize, n: usize) -> (r: Option<usize>)
    requires
        pos <= bytes@.len(),
    ensures
        match r {
            Some(end) => skip_texts(bytes@, pos as int, n as nat) == Some(end as int) && end
                <= bytes@.len(),
            None => skip_texts(bytes@, pos as int, n as nat) is None,
        },
{
    let len = bytes.len();
    let mut at: usize = pos;
    let mut left: usize = n;
    while left > 0
        invariant
            len == bytes@.len(),
            at <= len,
            skip_texts(bytes@, pos as int, n as nat) == skip_texts(bytes@, at as int, left as nat),
        decreases left,
    {
        match read_varint(bytes, at) {
            Some((raw, next)) => {
                let size = low16(raw);
                if size > len - next {
                    return None;
                }
                at = next + size;
            },
            None => {
                return None;
            },
        }
        left -= 1;
    }
    Some(at)
}

/// The pending counts of a stack of open arrays and dictionaries.
pub open spec fn counts(pending: Seq<u64>) -> Seq<int> {
    Seq::new(pending.len(), |i: int| pending[i] as int)
}

/// Checks that the bytes from `pos` on frame the values that are due.
fn check_frames(bytes: &Vec<u8>, pos: usize, first: u64) -> (r: bool)
    requires
        pos <= bytes@.len(),
    ensures
        r == frames(bytes@, pos as int, seq![first as int]),
{
    let len = bytes.len();
    let mut at: usize = pos;
    let mut pending: Vec<u64> = Vec::new();
    pending.push(first);
    assert(counts(pending@) =~= seq![first as int]);
    loop
        invariant
            len == bytes@.len(),
            at <= len,
            pending@.len() <= MAX_NEST + 1,
            frames(bytes@, pos as int, seq![first as int]) == frames(
                bytes@,
                at as int,
                counts(pending@),
            ),
        decreases len - at, pending@.len(),
    {
        let ghost before = counts(pending@);
        if pending.len() == 0 {
            return true;
        }
        let due = pending[pending.len() - 1];
        if due == 0 {
            pending.pop();
            assert(counts(pending@) =~= before.drop_last());
            continue ;
        }
        if at >= len {
            return false;
        }
        let last = pending.len() - 1;
        pending.set(last, due - 1);
        let ghost rest = counts(pending@);
        assert(rest =~= before.drop_last().push(before.last() - 1));
        let tag = bytes[at];
        if tag == 8 || tag == 9 {
            return false;
        }
        if tag >= 1 && tag <= 7 || tag == 11 || tag == 12 {
            let width: usize = if tag <= 3 {
                1
            } else if tag <= 5 {
                2
            } else if tag == 12 {
                8
            } else {
                4
            };
            if width > len - at - 1 {
                return false;
            }
            at = at + 1 + width;
        } else if tag == 10 || tag >= 13 && tag <= 17 {
            match read_varint(bytes, at + 1) {
                Some((raw, next)) => {
                    if tag == 10 || tag == 14 {
                        at = next;
                    } else if tag == 13 || tag == 15 {
                        let size = low16(raw);
                        if size > len - next {
                            return false;
                        }
                        at = next + size;
                    } else {
                        if pending.len() >= MAX_NEST {
                            return false;
                        }
                        let inner: u64 = if tag == 16 {
                            low16(raw) as u64
                        } else {
                            2 * (low32(raw) / 2)
                        };
                        pending.push(inner);
                        assert(counts(pending@) =~= rest.push(inner as int));
                        at = next;
                    }
                },
                None => {
                    return false;
                },
            }
        } else {
            at = at + 1;
        }
    }
}

/// Whether the bytes frame a message; see [`frames_msg`].
pub fn is_msg_frame(bytes: &Vec<u8>) -> (r: bool)
    ensures
        r == frames_msg(bytes@),
{
    match read_varint(bytes, 0) {
        Some((raw, next)) => match pass_texts(bytes, next, low16(raw)) {
            Some(pos) => check_frames(bytes, pos, 1),
            None => false,
        },
        None => false,
    }
}

/// Whether the bytes frame a message that holds a bare dictionary; see
/// [`frames_msg_map`].
pub fn is_msg_map_frame(bytes: &Vec<u8>) -> (r: bool)
    ensures
        r == frames_msg_map(bytes@),
{
    match read_varint(bytes, 0) {
        Some((raw, next)) => match pass_texts(bytes, next, low16(raw)) {
            Some(pos) => match read_varint(bytes, pos) {
                Some((count, body)) => check_frames(bytes, body, 2 * (low32(count) / 2)),
                None => false,
            },
            None => false,
        },
        None => false,
    }
}

/// The value tree that a tree of the codec holds: each leaf by its type and
/// value, a floating number by its bit pattern, an array by its items in
/// their order, a map by its pairs in the order in which the map yields
/// them.
pub uninterp spec fn wire_view(w: hcproto::Value) -> TypedView;

/// The value trees that a list of trees of the codec holds.
pub open spec fn wire_views(items: Seq<hcproto::Value>) -> Seq<TypedView> {
    Seq::new(items.len(), |i: int| wire_view(items[i]))
}

/// The pairs of value trees that a list of pairs of trees of the codec
/// holds.
pub open spec fn wire_pair_views(pairs: Seq<(hcproto::Value, hcproto::Value)>) -> Seq<
    (TypedView, TypedView),
> {
    Seq::new(pairs.len(), |i: int| (wire_view(pairs[i].0), wire_view(pairs[i].1)))
}

/// Whether the codec takes the bytes as a message: whether
/// `hcproto::decode_msg` gives trees for them.
pub uninterp spec fn codec_takes_msg(bytes: Seq<u8>) -> bool;

/// Whether the codec takes the bytes as a message that holds a bare
/// dictionary: whether `hcproto::decode_msg_map` gives a tree for them.
pub uninterp spec fn codec_takes_map(bytes: Seq<u8>) -> bool;

/// The arrays and dictionaries of the tree are nested no deeper than
/// `levels`: a leaf is nested 0 deep, an array or dictionary one deeper than
/// the deepest of its items, keys and values.
pub open spec fn nested_within(v: TypedView, levels: nat) -> bool
    decreases v, 0nat,
{
    match v {
        TypedView::Arr(items) => levels > 0 && nested_within_in(
            items,
            (levels - 1) as nat,
            items.len(),
        ),
        TypedView::Dict(pairs) => levels > 0 && nested_within_of(
            pairs,
            (levels - 1) as nat,
            pairs.len(),
        ),
        _ => true,
    }
}

/// Each of the first `n` trees of a list is nested no deeper than `levels`.
pub open spec fn nested_within_in(items: Seq<TypedView>, levels: nat, n: nat) -> bool
    decreases items, n,
{
    n == 0 || n > items.len() || (nested_within_in(items, levels, (n - 1) as nat)
        && nested_within(items[n - 1], levels))
}

/// Each key and value of the first `n` pairs of a list is nested no deeper
/// than `levels`.
pub open spec fn nested_within_of(pairs: Seq<(TypedView, TypedView)>, levels: nat, n: nat) -> bool
    decreases pairs, n,
{
    n == 0 || n > pairs.len() || (nested_within_of(pairs, levels, (n - 1) as nat)
        && nested_within(pairs[n - 1].0, levels) && nested_within(pairs[n - 1].1, levels))
}

/// A list of which the first `n` trees are not all within the levels is not
/// within them as a whole.
pub proof fn lemma_not_nested_in(items: Seq<TypedView>, levels: nat, n: nat)
    requires
        n <= items.len(),
        !nested_within_in(items, levels, n),
    ensures
        !nested_within_in(items, levels, items.len()),
    decreases items.len() - n,
{
    if n < items.len() {
        lemma_not_nested_in(items, levels, n + 1);
    }
}

/// A list of which the first `n` pairs are not all within the levels is not
/// within them as a whole.
pub proof fn lemma_not_nested_of(pairs: Seq<(TypedView, TypedView)>, levels: nat, n: nat)
    requires
        n <= pairs.len(),
        !nested_within_of(pairs, levels, n),
    ensures
        !nested_within_of(pairs, levels, pairs.len()),
    decreases pairs.len() - n,
{
    if n < pairs.len() {
        lemma_not_nested_of(pairs, levels, n + 1);
    }
}

/// A tree that is nested within some levels is nested within more.
pub proof fn lemma_nested_within_more(v: TypedView, levels: nat, more: nat)
    requires
        nested_within(v, levels),
        levels <= more,
    ensures
        nested_within(v, more),
    decreases v, 0nat,
{
    match v {
        TypedView::Arr(items) => {
            lemma_nested_within_more_in(items, (levels - 1) as nat, (more - 1) as nat, items.len());
        },
        TypedView::Dict(pairs) => {
            lemma_nested_within_more_of(pairs, (levels - 1) as nat, (more - 1) as nat, pairs.len());
        },
        _ => {},
    }
}

/// Trees that are nested within some levels are nested within more.
pub proof fn lemma_nested_within_more_in(items: Seq<TypedView>, levels: nat, more: nat, n: nat)
    requires
        n <= items.len(),
        nested_within_in(items, levels, n),
        levels <= more,
    ensures
        nested_within_in(items, more, n),
    decreases items, n,
{
    if n > 0 {
        lemma_nested_within_more_in(items, levels, more, (n - 1) as nat);
        lemma_nested_within_more(items[n - 1], levels, more);
    }
}

/// Pairs that are nested within some levels are nested within more.
pub proof fn lemma_nested_within_more_of(
    pairs: Seq<(TypedView, TypedView)>,
    levels: nat,
    more: nat,
    n: nat,
)
    requires
        n <= pairs.len(),
        nested_within_of(pairs, levels, n),
        levels <= more,
    ensures
        nested_within_of(pairs, more, n),
    decreases pairs, n,
{
    if n > 0 {
        lemma_nested_within_more_of(pairs, levels, more, (n - 1) as nat);
        lemma_nested_within_more(pairs[n - 1].0, levels, more);
        lemma_nested_within_more(pairs[n - 1].1, levels, more);
    }
}

/// The trees that the bytes of a message spell, the pairs of each
/// dictionary in the order of the bytes: what `hcproto::decode_msg` reads
/// from bytes that it takes, before it gathers the pairs of a dictionary in
/// a map.
pub uninterp spec fn codec_msg_trees(bytes: Seq<u8>) -> Seq<TypedView>;

/// The dictionary that the bytes of a message that holds a bare dictionary
/// spell, its pairs in the order of the bytes: what `hcproto::decode_msg_map`
/// reads from bytes that it takes, before it gathers the pairs in a map.
pub uninterp spec fn codec_map_tree(bytes: Seq<u8>) -> TypedView;

/// `hcproto::decode_msg` on a buffer that holds the given bytes: the trees
/// of the message where the codec takes the bytes, nothing where it refuses
/// them. The codec faults on bytes that end where a value must begin, so the
/// bytes must frame a message. The codec opens an array or a dictionary
/// only where the bytes open one, so the trees are nested no deeper than
/// `MAX_NEST`, which the frame allows. The trees carry those that the bytes
/// spell, one by one.
#[verifier::external_body]
fn decode_frame(bytes: &Vec<u8>) -> (r: Option<Vec<hcproto::Value>>)
    requires
        frames_msg(bytes@),
    ensures
        r is Some <==> codec_takes_msg(bytes@),
        r matches Some(items) ==> nested_within_in(
            wire_views(items@),
            MAX_NEST as nat,
            items@.len(),
        ),
        r matches Some(items) ==> items@.len() == codec_msg_trees(bytes@).len() && carries_in(
            codec_msg_trees(bytes@),
            wire_views(items@),
            items@.len(),
        ),
{
    let mut buffer = hcproto::Buffer::new();
    let _ = std::io::Write::write_all(&mut buffer, bytes);
    hcproto::decode_msg(&mut buffer).ok()
}

/// `hcproto::decode_msg_map` on a buffer that holds the given bytes: the
/// dictionary of the message where the codec takes the bytes, nothing where
/// it refuses them. The bytes must frame a message that holds a bare
/// dictionary; the tree is then nested no deeper than `MAX_NEST`, and
/// carries the dictionary that the bytes spell.
#[verifier::external_body]
fn decode_map_frame(bytes: &Vec<u8>) -> (r: Option<hcproto::Value>)
    requires
        frames_msg_map(bytes@),
    ensures
        r is Some <==> codec_takes_map(bytes@),
        r matches Some(tree) ==> nested_within(wire_view(tree), MAX_NEST as nat),
        r matches Some(tree) ==> carries(codec_map_tree(bytes@), wire_view(tree)),
{
    let mut buffer = hcproto::Buffer::new();
    let _ = std::io::Write::write_all(&mut buffer, bytes);
    hcproto::decode_msg_map(&mut buffer).ok()
}

/// The tree is nil, a boolean or a number of 8 or 16 bits.
pub open spec fn is_small(v: TypedView) -> bool {
    v is Nil || v is Bool || v is U8 || v is I8 || v is U16 || v is I16
}

/// The tree is a number of 32 or 64 bits or of variable length.
pub open spec fn is_wide(v: TypedView) -> bool {
    v is U32 || v is I32 || v is U64 || v is I64 || v is Varint
}

/// The tree is a floating number, a text or a blob.
pub open spec fn is_other(v: TypedView) -> bool {
    v is F32 || v is F64 || v is Str || v is Raw
}

/// Tells the codec's nil, boolean and numbers of 8 and 16 bits apart and
/// gives the leaf of the same type and value; nothing for any other tree.
#[verifier::external_body]
fn wire_small(w: &hcproto::Value) -> (r: Option<TypedValue>)
    ensures
        r is Some <==> is_small(wire_view(*w)),
        r matches Some(v) ==> v@ == wire_view(*w),
{
    match w {
        hcproto::Value::Nil => Some(TypedValue::Nil),
        hcproto::Value::Bool(x) => Some(TypedValue::Bool(*x)),
        hcproto::Value::U8(x) => Some(TypedValue::U8(*x)),
        hcproto::Value::I8(x) => Some(TypedValue::I8(*x)),
        hcproto::Value::U16(x) => Some(TypedValue::U16(*x)),
        hcproto::Value::I16(x) => Some(TypedValue::I16(*x)),
        _ => None,
    }
}

/// Tells the codec's numbers of 32 and 64 bits and of variable length apart
/// and gives the leaf of the same type and value; nothing for any other
/// tree.
#[verifier::external_body]
fn wire_wide(w: &hcproto::Value) -> (r: Option<TypedValue>)
    ensures
        r is Some <==> is_wide(wire_view(*w)),
        r matches Some(v) ==> v@ == wire_view(*w),
{
    match w {
        hcproto::Value::U32(x) => Some(TypedValue::U32(*x)),
        hcproto::Value::I32(x) => Some(TypedValue::I32(*x)),
        hcproto::Value::U64(x) => Some(TypedValue::U64(*x)),
        hcproto::Value::I64(x) => Some(TypedValue::I64(*x)),
        hcproto::Value::Varint(x) => Some(TypedValue::Varint(*x)),
        _ => None,
    }
}

/// Tells the codec's floating numbers, text and blob apart and gives the
/// leaf of the same type and value, a floating number by its bit pattern;
/// nothing for any other tree.
#[verifier::external_body]
fn wire_other(w: &hcproto::Value) -> (r: Option<TypedValue>)
    ensures
        r is Some <==> is_other(wire_view(*w)),
        r matches Some(v) ==> v@ == wire_view(*w),
{
    match w {
        hcproto::Value::F32(x) => Some(TypedValue::F32(x.to_bits())),
        hcproto::Value::F64(x) => Some(TypedValue::F64(x.to_bits())),
        hcproto::Value::Str(x) => Some(TypedValue::Str(x.clone())),
        hcproto::Value::Raw(x) => Some(TypedValue::Raw(x.clone())),
        _ => None,
    }
}

/// Takes the codec's array apart: its items, in their order. Any other tree
/// is handed back.
#[verifier::external_body]
fn wire_items(w: hcproto::Value) -> (r: Result<Vec<hcproto::Value>, hcproto::Value>)
    ensures
        r is Ok <==> wire_view(w) is Arr,
        r matches Ok(items) ==> wire_view(w) == TypedView::Arr(wire_views(items@)),
        r matches Err(other) ==> other == w,
{
    match w {
        hcproto::Value::Arr(items) => Ok(items),
        other => Err(other),
    }
}

/// Takes the codec's map apart: its pairs, in the order in which the map
/// yields them. Any other tree is handed back.
#[verifier::external_body]
fn wire_pairs(w: hcproto::Value) -> (r: Result<
    Vec<(hcproto::Value, hcproto::Value)>,
    hcproto::Value,
>)
    ensures
        r is Ok <==> wire_view(w) is Dict,
        r matches Ok(pairs) ==> wire_view(w) == TypedView::Dict(wire_pair_views(pairs@)),
        r matches Err(other) ==> other == w,
{
    match w {
        hcproto::Value::Map(pairs) => Ok(pairs.into_iter().collect()),
        other => Err(other),
    }
}

/// The list turned round: its last item first.
fn turned_round<T>(list: Vec<T>) -> (r: Vec<T>)
    ensures
        r@.len() == list@.len(),
        forall|j: int| 0 <= j < r@.len() ==> #[trigger] r@[j] == list@[list@.len() - 1 - j],
{
    let ghost start = list@;
    let mut turned: Vec<T> = Vec::new();
    let mut rest = list;
    while rest.len() > 0
        invariant
            rest@.len() + turned@.len() == start.len(),
            rest@ == start.take(rest@.len() as int),
            forall|j: int|
                0 <= j < turned@.len() ==> #[trigger] turned@[j] == start[start.len() - 1 - j],
        decreases rest.len(),
    {
        let ghost before = rest@;
        match rest.pop() {
            Some(item) => {
                assert(item == start[before.len() - 1]);
                assert(rest@ =~= start.take(rest@.len() as int));
                turned.push(item);
            },
            None => {},
        }
    }
    turned
}

/// Builds the value tree for a tree of the codec, node by node, following
/// arrays and dictionaries `fuel` levels down: the tree that the codec's
/// tree holds where that is nested no deeper than `fuel`, nothing where it
/// is nested deeper.
pub fn from_wire(w: hcproto::Value, fuel: usize) -> (r: Option<TypedValue>)
    ensures
        r is Some <==> nested_within(wire_view(w), fuel as nat),
        r matches Some(v) ==> v@ == wire_view(w),
    decreases fuel, 0nat,
{
    match wire_small(&w) {
        Some(v) => {
            return Some(v);
        },
        None => {},
    }
    match wire_wide(&w) {
        Some(v) => {
            return Some(v);
        },
        None => {},
    }
    match wire_other(&w) {
        Some(v) => {
            return Some(v);
        },
        None => {},
    }
    if fuel == 0 {
        return None;
    }
    match wire_items(w) {
        Ok(items) => match from_wire_list(items, fuel - 1) {
            Some(out) => {
                proof {
                    lemma_arr_view(out);
                }
                Some(TypedValue::Arr(out))
            },
            None => None,
        },
        Err(other) => match wire_pairs(other) {
            Ok(pairs) => {
                let ghost views = wire_pair_views(pairs@);
                let ghost total = pairs@.len();
                let ghost levels = (fuel - 1) as nat;
                let mut turned = turned_round(pairs);
                let ghost start = turned@;
                let mut out: Vec<(TypedValue, TypedValue)> = Vec::new();
                assert(entry_views(out@) =~= views.take(0));
                while turned.len() > 0
                    invariant
                        fuel > 0,
                        levels == (fuel - 1) as nat,
                        wire_view(w) == TypedView::Dict(views),
                        views.len() == total,
                        start.len() == total,
                        forall|j: int|
                            0 <= j < total ==> views[j] == (
                                wire_view((#[trigger] start[total - 1 - j]).0),
                                wire_view(start[total - 1 - j].1),
                            ),
                        out@.len() + turned@.len() == total,
                        turned@ == start.take(turned@.len() as int),
                        entry_views(out@) == views.take(out@.len() as int),
                        nested_within_of(views, levels, out@.len() as nat),
                    decreases turned.len(),
                {
                    let ghost at = out@.len() as int;
                    let ghost before = turned@;
                    match turned.pop() {
                        Some((key, value)) => {
                            assert((key, value) == start[total - 1 - at]);
                            assert(turned@ =~= start.take(turned@.len() as int));
                            assert(views[at] == (wire_view(key), wire_view(value)));
                            match (from_wire(key, fuel - 1), from_wire(value, fuel - 1)) {
                                (Some(k), Some(v)) => {
                                    assert(entry_views(out@.push((k, v))) =~= views.take(at + 1));
                                    out.push((k, v));
                                },
                                _ => {
                                    proof {
                                        assert(!nested_within_of(views, levels, (at + 1) as nat));
                                        lemma_not_nested_of(views, levels, (at + 1) as nat);
                                    }
                                    return None;
                                },
                            }
                        },
                        None => {},
                    }
                }
                proof {
                    lemma_dict_view(out);
                    assert(views.take(total as int) =~= views);
                }
                Some(TypedValue::Dict(out))
            },
            Err(_) => None,
        },
    }
}

/// Builds the value trees for a list of trees of the codec, in their order:
/// the trees that they hold where each is nested no deeper than `fuel`,
/// nothing where one of them is nested deeper.
pub fn from_wire_list(items: Vec<hcproto::Value>, fuel: usize) -> (r: Option<Vec<TypedValue>>)
    ensures
        r is Some <==> nested_within_in(wire_views(items@), fuel as nat, items@.len()),
        r matches Some(out) ==> value_views(out@) == wire_views(items@),
    decreases fuel, 1nat,
{
    let ghost views = wire_views(items@);
    let ghost total = items@.len();
    let mut turned = turned_round(items);
    let ghost start = turned@;
    let mut out: Vec<TypedValue> = Vec::new();
    assert(value_views(out@) =~= views.take(0));
    while turned.len() > 0
        invariant
            views == wire_views(items@),
            total == items@.len(),
            views.len() == total,
            start.len() == total,
            forall|j: int| 0 <= j < total ==> views[j] == wire_view(#[trigger] start[total - 1 - j]),
            out@.len() + turned@.len() == total,
            turned@ == start.take(turned@.len() as int),
            value_views(out@) == views.take(out@.len() as int),
            nested_within_in(views, fuel as nat, out@.len() as nat),
        decreases turned.len(),
    {
        let ghost at = out@.len() as int;
        let ghost before = turned@;
        match turned.pop() {
            Some(item) => {
                assert(item == start[total - 1 - at]);
                assert(turned@ =~= start.take(turned@.len() as int));
                assert(views[at] == wire_view(item));
                match from_wire(item, fuel) {
                    Some(v) => {
                        assert(value_views(out@.push(v)) =~= views.take(at + 1));
                        out.push(v);
                    },
                    None => {
                        proof {
                            assert(!nested_within_in(views, fuel as nat, (at + 1) as nat));
                            lemma_not_nested_in(views, fuel as nat, (at + 1) as nat);
                        }
                        return None;
                    },
                }
            },
            None => {},
        }
    }
    assert(views.take(total as int) =~= views);
    Some(out)
}

/// Reads the bytes of a message into its trees: the trees that the codec
/// reads where the bytes frame a message and the codec takes them, nothing
/// for any other bytes. The trees carry those that the bytes spell, one by
/// one, and are nested no deeper than `MAX_NEST`.
pub fn decode_msg(bytes: &Vec<u8>) -> (r: Option<Vec<TypedValue>>)
    ensures
        r is Some <==> frames_msg(bytes@) && codec_takes_msg(bytes@),
        r matches Some(out) ==> nested_within_in(value_views(out@), MAX_NEST as nat, out@.len()),
        r matches Some(out) ==> read_msg(bytes@, value_views(out@)),
{
    if !is_msg_frame(bytes) {
        return None;
    }
    match decode_frame(bytes) {
        Some(items) => from_wire_list(items, MAX_NEST),
        None => None,
    }
}

/// Reads the bytes of a message that holds a bare dictionary into its tree:
/// the tree that the codec reads where the bytes frame such a message and
/// the codec takes them, nothing for any other bytes. The tree carries the
/// dictionary that the bytes spell, and is nested no deeper than `MAX_NEST`.
pub fn decode_msg_map(bytes: &Vec<u8>) -> (r: Option<TypedValue>)
    ensures
        r is Some <==> frames_msg_map(bytes@) && codec_takes_map(bytes@),
        r matches Some(tree) ==> nested_within(tree@, MAX_NEST as nat),
        r matches Some(tree) ==> carries(codec_map_tree(bytes@), tree@),
{
    if !is_msg_map_frame(bytes) {
        return None;
    }
    match decode_map_frame(bytes) {
        Some(tree) => from_wire(tree, MAX_NEST),
        None => None,
    }
}

} // verus!
