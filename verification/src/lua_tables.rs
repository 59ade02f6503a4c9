//! Tables of the script, read and written by field name.
use crate::protocol::ser_utils::{index_position, is_array, key_is, lemma_index_position, lemma_index_position_is};
use crate::sys::{lemma_table_view, pair_views, ScriptValue, ScriptView};
use vstd::prelude::*;

verus! {

/// The first position at or after `from` whose key is the string `name`, or
/// the number of entries where there is none.
pub open spec fn field_position(entries: Seq<(ScriptView, ScriptView)>, name: Seq<u8>, from: int) -> int
    decreases entries.len() - from,
{
    if from < 0 || from >= entries.len() {
        entries.len() as int
    } else if entries[from].0 == ScriptView::Str(name) {
        from
    } else {
        field_position(entries, name, from + 1)
    }
}

/// What the table holds under the string key `name`: the value of the first
/// such entry, or nil.
pub open spec fn field_value(entries: Seq<(ScriptView, ScriptView)>, name: Seq<u8>) -> ScriptView {
    let p = field_position(entries, name, 0);
    if p < entries.len() {
        entries[p].1
    } else {
        ScriptView::Nil
    }
}

/// A position found by `field_position` lies in range, holds the key, and
/// nothing between `from` and it does.
pub proof fn lemma_field_position(entries: Seq<(ScriptView, ScriptView)>, name: Seq<u8>, from: int)
    requires
        0 <= from <= entries.len(),
    ensures
        from <= field_position(entries, name, from) <= entries.len(),
        field_position(entries, name, from) < entries.len() ==> entries[field_position(
            entries,
            name,
            from,
        )].0 == ScriptView::Str(name),
        forall|j: int|
            from <= j < field_position(entries, name, from) ==> (#[trigger] entries[j]).0
                != ScriptView::Str(name),
    decreases entries.len() - from,
{
    if from < entries.len() && entries[from].0 != ScriptView::Str(name) {
        lemma_field_position(entries, name, from + 1);
    }
}

/// A position that holds the key, with no earlier one at or after `from` that
/// does, is the one that `field_position` finds.
pub proof fn lemma_field_position_is(
    entries: Seq<(ScriptView, ScriptView)>,
    name: Seq<u8>,
    from: int,
    p: int,
)
    requires
        0 <= from <= p <= entries.len(),
        p < entries.len() ==> entries[p].0 == ScriptView::Str(name),
        forall|j: int| from <= j < p ==> (#[trigger] entries[j]).0 != ScriptView::Str(name),
    ensures
        field_position(entries, name, from) == p,
    decreases p - from,
{
    if from < p {
        lemma_field_position_is(entries, name, from + 1, p);
    }
}

/// A table of the script, held by value.
#[derive(Debug, PartialEq)]
pub struct LuaTable {
    pub entries: Vec<(ScriptValue, ScriptValue)>,
}

impl View for LuaTable {
    type V = Seq<(ScriptView, ScriptView)>;

    open spec fn view(&self) -> Seq<(ScriptView, ScriptView)> {
        pair_views(self.entries@)
    }
}

/// Whether the key is the string `name`.
fn is_field_key(key: &ScriptValue, name: &Vec<u8>) -> (r: bool)
    ensures
        r == (key@ == ScriptView::Str(name@)),
{
    match key {
        ScriptValue::Str(bytes) => {
            if bytes.len() != name.len() {
                assert(bytes@.len() != name@.len());
                return false;
            }
            let mut i: usize = 0;
            while i < bytes.len()
                invariant
                    key@ == ScriptView::Str(bytes@),
                    i <= bytes.len(),
                    bytes.len() == name.len(),
                    forall|j: int| 0 <= j < i ==> bytes@[j] == name@[j],
                decreases bytes.len() - i,
            {
                if bytes[i] != name[i] {
                    assert(bytes@[i as int] != name@[i as int]);
                    assert(bytes@ != name@);
                    return false;
                }
                i += 1;
            }
            assert(bytes@ =~= name@);
            true
        },
        _ => false,
    }
}

impl LuaTable {
    /// What the table holds under the string key `name`; nil if nothing.
    pub open spec fn field(&self, name: Seq<u8>) -> ScriptView {
        field_value(self@, name)
    }

    /// A table without entries.
    pub fn new() -> (r: LuaTable)
        ensures
            r@ == Seq::<(ScriptView, ScriptView)>::empty(),
            r.entries@ == Seq::<(ScriptValue, ScriptValue)>::empty(),
    {
        let r = LuaTable { entries: Vec::new() };
        assert(r@ =~= Seq::<(ScriptView, ScriptView)>::empty());
        r
    }

    /// The table that a script value is, if it is one.
    pub fn from_value(value: ScriptValue) -> (r: Option<LuaTable>)
        ensures
            match r {
                Some(t) => value@ == ScriptView::Table(t@),
                None => !(value@ is Table),
            },
    {
        match value {
            ScriptValue::Table(entries) => {
                proof {
                    lemma_table_view(entries);
                }
                Some(LuaTable { entries })
            },
            _ => None,
        }
    }

    /// The table as a script value.
    pub fn into_value(self) -> (r: ScriptValue)
        ensures
            r@ == ScriptView::Table(self@),
    {
        proof {
            lemma_table_view(self.entries);
        }
        ScriptValue::Table(self.entries)
    }

    /// The position of the first entry under the string key `name`.
    fn find(&self, name: &Vec<u8>) -> (r: Option<usize>)
        ensures
            match r {
                Some(p) => p < self@.len() && field_position(self@, name@, 0) == p,
                None => field_position(self@, name@, 0) == self@.len(),
            },
    {
        let mut i: usize = 0;
        while i < self.entries.len()
            invariant
                i <= self.entries.len(),
                forall|j: int| 0 <= j < i ==> (#[trigger] self@[j]).0 != ScriptView::Str(name@),
            decreases self.entries.len() - i,
        {
            if is_field_key(&self.entries[i].0, name) {
                assert(self@[i as int].0 == ScriptView::Str(name@));
                proof {
                    lemma_field_position_is(self@, name@, 0, i as int);
                }
                return Some(i);
            }
            assert(self@[i as int].0 != ScriptView::Str(name@));
            i += 1;
        }
        proof {
            lemma_field_position_is(self@, name@, 0, i as int);
        }
        None
    }

    /// A copy of what the table holds under the string key `name`; nil if
    /// nothing.
    pub fn query(&self, name: &Vec<u8>) -> (r: ScriptValue)
        ensures
            r@ == self.field(name@),
    {
        match self.find(name) {
            Some(p) => self.entries[p].1.duplicate(),
            None => ScriptValue::Nil,
        }
    }

    /// Puts `value` under the string key `name`. Every other field keeps its
    /// value.
    pub fn set(&mut self, name: Vec<u8>, value: ScriptValue)
        ensures
            final(self)@.len() >= old(self)@.len(),
            final(self)@.len() >= 1,
            forall|n: Seq<u8>|
                #[trigger] field_value(final(self)@, n) == (if n == name@ {
                    value@
                } else {
                    field_value(old(self)@, n)
                }),
    {
        let ghost before = self@;
        let ghost key = ScriptView::Str(name@);
        match self.find(&name) {
            Some(p) => {
                self.entries.set(p, (ScriptValue::Str(name), value));
                proof {
                    let after = self@;
                    assert(after =~= before.update(p as int, (key, value@)));
                    assert forall|n: Seq<u8>| #[trigger]
                        field_value(after, n) == (if n == name@ {
                            value@
                        } else {
                            field_value(before, n)
                        }) by {
                        lemma_field_position(before, n, 0);
                        let q = field_position(before, n, 0);
                        if n == name@ {
                            lemma_field_position_is(after, n, 0, p as int);
                        } else {
                            lemma_field_position(before, name@, 0);
                            assert(ScriptView::Str(n) != key);
                            assert(q != p);
                            assert forall|j: int| 0 <= j < q implies (#[trigger] after[j]).0
                                != ScriptView::Str(n) by {
                                if j != p {
                                    assert(after[j] == before[j]);
                                }
                            }
                            lemma_field_position_is(after, n, 0, q);
                        }
                    }
                }
            },
            None => {
                self.entries.push((ScriptValue::Str(name), value));
                proof {
                    let after = self@;
                    assert(after =~= before.push((key, value@)));
                    assert forall|n: Seq<u8>| #[trigger]
                        field_value(after, n) == (if n == name@ {
                            value@
                        } else {
                            field_value(before, n)
                        }) by {
                        lemma_field_position(before, n, 0);
                        let q = field_position(before, n, 0);
                        if n == name@ {
                            lemma_field_position_is(after, n, 0, before.len() as int);
                        } else if q < before.len() {
                            lemma_field_position_is(after, n, 0, q);
                        } else {
                            lemma_field_position_is(after, n, 0, after.len() as int);
                        }
                    }
                }
            },
        }
    }
}

/// What the table holds under the whole number `k`: the value of the first
/// such entry, or nil.
pub open spec fn index_value(entries: Seq<(ScriptView, ScriptView)>, k: int) -> ScriptView {
    let p = index_position(entries, k, 0);
    if p < entries.len() {
        entries[p].1
    } else {
        ScriptView::Nil
    }
}

/// The table holds each of the keys 1 to `n`.
pub open spec fn holds_run(entries: Seq<(ScriptView, ScriptView)>, n: int) -> bool {
    forall|k: int| 1 <= k <= n ==> index_position(entries, k, 0) < entries.len()
}

impl LuaTable {
    /// The position of the first entry under the whole number `k`.
    fn find_index(&self, k: i64) -> (r: Option<usize>)
        ensures
            match r {
                Some(p) => p < self@.len() && index_position(self@, k as int, 0) == p,
                None => index_position(self@, k as int, 0) == self@.len(),
            },
    {
        let mut i: usize = 0;
        while i < self.entries.len()
            invariant
                i <= self.entries.len(),
                forall|j: int| 0 <= j < i ==> !key_is((#[trigger] self@[j]).0, k as int),
            decreases self.entries.len() - i,
        {
            let hit = match &self.entries[i].0 {
                ScriptValue::Integer(x) => *x == k,
                _ => false,
            };
            assert(hit == key_is(self@[i as int].0, k as int));
            if hit {
                proof {
                    lemma_index_position_is(self@, k as int, 0, i as int);
                }
                return Some(i);
            }
            i += 1;
        }
        proof {
            lemma_index_position_is(self@, k as int, 0, i as int);
        }
        None
    }

    /// A copy of what the table holds under the whole number `k`; nil if
    /// nothing.
    pub fn index(&self, k: i64) -> (r: ScriptValue)
        ensures
            r@ == index_value(self@, k as int),
    {
        match self.find_index(k) {
            Some(p) => self.entries[p].1.duplicate(),
            None => ScriptValue::Nil,
        }
    }

    /// Puts `value` under the whole number `k`. What stands under every
    /// other number, and under every name, stays.
    pub fn set_index(&mut self, k: i64, value: ScriptValue)
        ensures
            forall|j: int|
                #[trigger] index_value(final(self)@, j) == (if j == k {
                    value@
                } else {
                    index_value(old(self)@, j)
                }),
            forall|n: Seq<u8>| #[trigger] field_value(final(self)@, n) == field_value(old(self)@, n),
    {
        let ghost before = self@;
        let ghost key = ScriptView::Integer(k);
        match self.find_index(k) {
            Some(p) => {
                self.entries.set(p, (ScriptValue::Integer(k), value));
                proof {
                    let after = self@;
                    assert(after =~= before.update(p as int, (key, value@)));
                    lemma_index_position(before, k as int, 0);
                    assert forall|j: int| #[trigger]
                        index_value(after, j) == (if j == k {
                            value@
                        } else {
                            index_value(before, j)
                        }) by {
                        lemma_index_position(before, j, 0);
                        let q = index_position(before, j, 0);
                        if j == k {
                            lemma_index_position_is(after, j, 0, p as int);
                        } else {
                            assert forall|m: int| 0 <= m < q implies !key_is(
                                (#[trigger] after[m]).0,
                                j,
                            ) by {
                                if m != p {
                                    assert(after[m] == before[m]);
                                }
                            }
                            lemma_index_position_is(after, j, 0, q);
                        }
                    }
                    assert forall|n: Seq<u8>| #[trigger]
                        field_value(after, n) == field_value(before, n) by {
                        lemma_field_position(before, n, 0);
                        let q = field_position(before, n, 0);
                        assert forall|m: int| 0 <= m < q implies (#[trigger] after[m]).0
                            != ScriptView::Str(n) by {
                            if m != p {
                                assert(after[m] == before[m]);
                            }
                        }
                        lemma_field_position_is(after, n, 0, q);
                    }
                }
            },
            None => {
                self.entries.push((ScriptValue::Integer(k), value));
                proof {
                    let after = self@;
                    assert(after =~= before.push((key, value@)));
                    assert forall|j: int| #[trigger]
                        index_value(after, j) == (if j == k {
                            value@
                        } else {
                            index_value(before, j)
                        }) by {
                        lemma_index_position(before, j, 0);
                        let q = index_position(before, j, 0);
                        if j == k {
                            lemma_index_position_is(after, j, 0, before.len() as int);
                        } else if q < before.len() {
                            lemma_index_position_is(after, j, 0, q);
                        } else {
                            lemma_index_position_is(after, j, 0, after.len() as int);
                        }
                    }
                    assert forall|n: Seq<u8>| #[trigger]
                        field_value(after, n) == field_value(before, n) by {
                        lemma_field_position(before, n, 0);
                        let q = field_position(before, n, 0);
                        if q < before.len() {
                            lemma_field_position_is(after, n, 0, q);
                        } else {
                            lemma_field_position_is(after, n, 0, after.len() as int);
                        }
                    }
                }
            },
        }
    }

    /// The length of the list that the table holds: the number `n` for which
    /// the table holds each of the keys 1 to `n` and not the key `n + 1`.
    pub fn raw_len(&self) -> (n: usize)
        ensures
            n <= self@.len(),
            n <= i64::MAX,
            holds_run(self@, n as int),
            index_position(self@, n + 1, 0) == self@.len(),
    {
        let mut n: usize = 0;
        while n < self.entries.len()
            invariant
                n <= self.entries.len(),
                n <= 0x7fff_ffff_ffff_ffff,
                holds_run(self@, n as int),
            decreases self.entries.len() - n,
        {
            let wide: u64 = n as u64;
            if wide >= 0x7fff_ffff_ffff_ffff {
                proof {
                    lemma_index_position_is(self@, n + 1, 0, self@.len() as int);
                }
                return n;
            }
            match self.find_index((wide + 1) as i64) {
                Some(_) => {},
                None => {
                    return n;
                },
            }
            n += 1;
        }
        proof {
            // every entry stands under one of the keys 1 to n, so none stands under n + 1
            lemma_index_position(self@, n + 1, 0);
            if index_position(self@, n + 1, 0) < self@.len() {
                let p = index_position(self@, n + 1, 0);
                assert(self@.len() >= 1);
                assert(is_array(self@));
                crate::protocol::ser_utils::lemma_list_holds_only_indexes(self@, p);
            }
        }
        n
    }
}

} // verus!
