//! Several host values at once: a tuple goes to the stack item by item, the
//! first lowest, and is read from slots that follow one another.
use crate::sys::{lua_State, ScriptView};
use crate::{LuaPush, LuaRead};
use vstd::prelude::*;

verus! {

impl<A: LuaPush> LuaPush for (A,) {
    open spec fn pushed(&self) -> Seq<ScriptView> {
        self.0.pushed()
    }

    fn push_to_lua(self, lua: &mut lua_State) -> (n: i32) {
        let ghost start = lua.slots();
        let mut total: i32 = 0;
        let ghost part0 = self.0.pushed();
        let n0 = self.0.push_to_lua(lua);
        total = total + n0;
        assert(lua.slots() =~= start + part0);
        total
    }
}

impl<A: LuaRead> LuaRead for (A,) {
    /// The items are read from the slot that `index` names and the slots
    /// above it, in that order; the tuple is there where every item is.
    open spec fn reads_as(lua: &lua_State, index: int, r: Option<(A,)>) -> bool {
        match r {
            Some(t) => A::reads_as(lua, index, Some(t.0)),
            None => A::reads_as(lua, index, None),
        }
    }

    fn lua_read_with_pop_impl(lua: &lua_State, index: i32, pop: i32) -> (r: Option<(A,)>) {
        let x0 = A::lua_read_with_pop_impl(lua, index, 0);
        match x0 {
            Some(v0) => Some((v0,)),
            None => None,
        }
    }
}

impl<A: LuaPush, B: LuaPush> LuaPush for (A, B) {
    open spec fn pushed(&self) -> Seq<ScriptView> {
        self.0.pushed() + self.1.pushed()
    }

    fn push_to_lua(self, lua: &mut lua_State) -> (n: i32) {
        let ghost start = lua.slots();
        let mut total: i32 = 0;
        let ghost part0 = self.0.pushed();
        let ghost part1 = self.1.pushed();
        let n0 = self.0.push_to_lua(lua);
        total = total + n0;
        assert(lua.slots() =~= start + part0);
        let n1 = self.1.push_to_lua(lua);
        total = total + n1;
        assert(lua.slots() =~= start + (part0 + part1));
        total
    }
}

impl<A: LuaRead, B: LuaRead> LuaRead for (A, B) {
    /// The items are read from the slot that `index` names and the slots
    /// above it, in that order; the tuple is there where every item is.
    open spec fn reads_as(lua: &lua_State, index: int, r: Option<(A, B)>) -> bool {
        if index + 1 > i32::MAX {
            r is None
        } else {
            match r {
                Some(t) => A::reads_as(lua, index, Some(t.0)) && B::reads_as(lua, index + 1, Some(t.1)),
                None => exists|x0: Option<A>, x1: Option<B>|
                    #[trigger] A::reads_as(lua, index, x0) && #[trigger] B::reads_as(lua, index + 1, x1)
                        && (x0 is None || x1 is None),
            }
        }
    }

    fn lua_read_with_pop_impl(lua: &lua_State, index: i32, pop: i32) -> (r: Option<(A, B)>) {
        if index > i32::MAX - 1 {
            return None;
        }
        let x0 = A::lua_read_with_pop_impl(lua, index, 0);
        let x1 = B::lua_read_with_pop_impl(lua, index + 1, 0);
        match (x0, x1) {
            (Some(v0), Some(v1)) => Some((v0, v1)),
            _ => None,
        }
    }
}

impl<A: LuaPush, B: LuaPush, C: LuaPush> LuaPush for (A, B, C) {
    open spec fn pushed(&self) -> Seq<ScriptView> {
        self.0.pushed() + self.1.pushed() + self.2.pushed()
    }

    fn push_to_lua(self, lua: &mut lua_State) -> (n: i32) {
        let ghost start = lua.slots();
        let mut total: i32 = 0;
        let ghost part0 = self.0.pushed();
        let ghost part1 = self.1.pushed();
        let ghost part2 = self.2.pushed();
        let n0 = self.0.push_to_lua(lua);
        total = total + n0;
        assert(lua.slots() =~= start + part0);
        let n1 = self.1.push_to_lua(lua);
        total = total + n1;
        assert(lua.slots() =~= start + (part0 + part1));
        let n2 = self.2.push_to_lua(lua);
        total = total + n2;
        assert(lua.slots() =~= start + (part0 + part1 + part2));
        total
    }
}

impl<A: LuaRead, B: LuaRead, C: LuaRead> LuaRead for (A, B, C) {
    /// The items are read from the slot that `index` names and the slots
    /// above it, in that order; the tuple is there where every item is.
    open spec fn reads_as(lua: &lua_State, index: int, r: Option<(A, B, C)>) -> bool {
        if index + 2 > i32::MAX {
            r is None
        } else {
            match r {
                Some(t) => A::reads_as(lua, index, Some(t.0)) && B::reads_as(lua, index + 1, Some(t.1)) && C::reads_as(lua, index + 2, Some(t.2)),
                None => exists|x0: Option<A>, x1: Option<B>, x2: Option<C>|
                    #[trigger] A::reads_as(lua, index, x0) && #[trigger] B::reads_as(lua, index + 1, x1) && #[trigger] C::reads_as(lua, index + 2, x2)
                        && (x0 is None || x1 is None || x2 is None),
            }
        }
    }

    fn lua_read_with_pop_impl(lua: &lua_State, index: i32, pop: i32) -> (r: Option<(A, B, C)>) {
        if index > i32::MAX - 2 {
            return None;
        }
        let x0 = A::lua_read_with_pop_impl(lua, index, 0);
        let x1 = B::lua_read_with_pop_impl(lua, index + 1, 0);
        let x2 = C::lua_read_with_pop_impl(lua, index + 2, 0);
        match (x0, x1, x2) {
            (Some(v0), Some(v1), Some(v2)) => Some((v0, v1, v2)),
            _ => None,
        }
    }
}

impl<A: LuaPush, B: LuaPush, C: LuaPush, D: LuaPush> LuaPush for (A, B, C, D) {
    open spec fn pushed(&self) -> Seq<ScriptView> {
        self.0.pushed() + self.1.pushed() + self.2.pushed() + self.3.pushed()
    }

    fn push_to_lua(self, lua: &mut lua_State) -> (n: i32) {
        let ghost start = lua.slots();
        let mut total: i32 = 0;
        let ghost part0 = self.0.pushed();
        let ghost part1 = self.1.pushed();
        let ghost part2 = self.2.pushed();
        let ghost part3 = self.3.pushed();
        let n0 = self.0.push_to_lua(lua);
        total = total + n0;
        assert(lua.slots() =~= start + part0);
        let n1 = self.1.push_to_lua(lua);
        total = total + n1;
        assert(lua.slots() =~= start + (part0 + part1));
        let n2 = self.2.push_to_lua(lua);
        total = total + n2;
        assert(lua.slots() =~= start + (part0 + part1 + part2));
        let n3 = self.3.push_to_lua(lua);
        total = total + n3;
        assert(lua.slots() =~= start + (part0 + part1 + part2 + part3));
        total
    }
}

impl<A: LuaRead, B: LuaRead, C: LuaRead, D: LuaRead> LuaRead for (A, B, C, D) {
    /// The items are read from the slot that `index` names and the slots
    /// above it, in that order; the tuple is there where every item is.
    open spec fn reads_as(lua: &lua_State, index: int, r: Option<(A, B, C, D)>) -> bool {
        if index + 3 > i32::MAX {
            r is None
        } else {
            match r {
                Some(t) => A::reads_as(lua, index, Some(t.0)) && B::reads_as(lua, index + 1, Some(t.1)) && C::reads_as(lua, index + 2, Some(t.2)) && D::reads_as(lua, index + 3, Some(t.3)),
                None => exists|x0: Option<A>, x1: Option<B>, x2: Option<C>, x3: Option<D>|
                    #[trigger] A::reads_as(lua, index, x0) && #[trigger] B::reads_as(lua, index + 1, x1) && #[trigger] C::reads_as(lua, index + 2, x2) && #[trigger] D::reads_as(lua, index + 3, x3)
                        && (x0 is None || x1 is None || x2 is None || x3 is None),
            }
        }
    }

    fn lua_read_with_pop_impl(lua: &lua_State, index: i32, pop: i32) -> (r: Option<(A, B, C, D)>) {
        if index > i32::MAX - 3 {
            return None;
        }
        let x0 = A::lua_read_with_pop_impl(lua, index, 0);
        let x1 = B::lua_read_with_pop_impl(lua, index + 1, 0);
        let x2 = C::lua_read_with_pop_impl(lua, index + 2, 0);
        let x3 = D::lua_read_with_pop_impl(lua, index + 3, 0);
        match (x0, x1, x2, x3) {
            (Some(v0), Some(v1), Some(v2), Some(v3)) => Some((v0, v1, v2, v3)),
            _ => None,
        }
    }
}

impl<A: LuaPush, B: LuaPush, C: LuaPush, D: LuaPush, E: LuaPush> LuaPush for (A, B, C, D, E) {
    open spec fn pushed(&self) -> Seq<ScriptView> {
        self.0.pushed() + self.1.pushed() + self.2.pushed() + self.3.pushed() + self.4.pushed()
    }

    fn push_to_lua(self, lua: &mut lua_State) -> (n: i32) {
        let ghost start = lua.slots();
        let mut total: i32 = 0;
        let ghost part0 = self.0.pushed();
        let ghost part1 = self.1.pushed();
        let ghost part2 = self.2.pushed();
        let ghost part3 = self.3.pushed();
        let ghost part4 = self.4.pushed();
        let n0 = self.0.push_to_lua(lua);
        total = total + n0;
        assert(lua.slots() =~= start + part0);
        let n1 = self.1.push_to_lua(lua);
        total = total + n1;
        assert(lua.slots() =~= start + (part0 + part1));
        let n2 = self.2.push_to_lua(lua);
        total = total + n2;
        assert(lua.slots() =~= start + (part0 + part1 + part2));
        let n3 = self.3.push_to_lua(lua);
        total = total + n3;
        assert(lua.slots() =~= start + (part0 + part1 + part2 + part3));
        let n4 = self.4.push_to_lua(lua);
        total = total + n4;
        assert(lua.slots() =~= start + (part0 + part1 + part2 + part3 + part4));
        total
    }
}

impl<A: LuaRead, B: LuaRead, C: LuaRead, D: LuaRead, E: LuaRead> LuaRead for (A, B, C, D, E) {
    /// The items are read from the slot that `index` names and the slots
    /// above it, in that order; the tuple is there where every item is.
    open spec fn reads_as(lua: &lua_State, index: int, r: Option<(A, B, C, D, E)>) -> bool {
        if index + 4 > i32::MAX {
            r is None
        } else {
            match r {
                Some(t) => A::reads_as(lua, index, Some(t.0))
                    && B::reads_as(lua, index + 1, Some(t.1))
                    && C::reads_as(lua, index + 2, Some(t.2))
                    && D::reads_as(lua, index + 3, Some(t.3))
                    && E::reads_as(lua, index + 4, Some(t.4)),
                None => exists|x0: Option<A>, x1: Option<B>, x2: Option<C>, x3: Option<D>, x4: Option<E>|
                    #[trigger] A::reads_as(lua, index, x0)
                        && #[trigger] B::reads_as(lua, index + 1, x1)
                        && #[trigger] C::reads_as(lua, index + 2, x2)
                        && #[trigger] D::reads_as(lua, index + 3, x3)
                        && #[trigger] E::reads_as(lua, index + 4, x4)
                        && (x0 is None || x1 is None || x2 is None || x3 is None || x4 is None),
            }
        }
    }

    fn lua_read_with_pop_impl(lua: &lua_State, index: i32, pop: i32) -> (r: Option<(A, B, C, D, E)>) {
        if index > i32::MAX - 4 {
            return None;
        }
        let x0 = A::lua_read_with_pop_impl(lua, index, 0);
        let x1 = B::lua_read_with_pop_impl(lua, index + 1, 0);
        let x2 = C::lua_read_with_pop_impl(lua, index + 2, 0);
        let x3 = D::lua_read_with_pop_impl(lua, index + 3, 0);
        let x4 = E::lua_read_with_pop_impl(lua, index + 4, 0);
        match (x0, x1, x2, x3, x4) {
            (Some(v0), Some(v1), Some(v2), Some(v3), Some(v4)) => Some((v0, v1, v2, v3, v4)),
            _ => None,
        }
    }
}

impl<A: LuaPush, B: LuaPush, C: LuaPush, D: LuaPush, E: LuaPush, F: LuaPush> LuaPush for (A, B, C, D, E, F) {
    open spec fn pushed(&self) -> Seq<ScriptView> {
        self.0.pushed() + self.1.pushed() + self.2.pushed() + self.3.pushed() + self.4.pushed() + self.5.pushed()
    }

    fn push_to_lua(self, lua: &mut lua_State) -> (n: i32) {
        let ghost start = lua.slots();
        let mut total: i32 = 0;
        let ghost part0 = self.0.pushed();
        let ghost part1 = self.1.pushed();
        let ghost part2 = self.2.pushed();
        let ghost part3 = self.3.pushed();
        let ghost part4 = self.4.pushed();
        let ghost part5 = self.5.pushed();
        let n0 = self.0.push_to_lua(lua);
        total = total + n0;
        assert(lua.slots() =~= start + part0);
        let n1 = self.1.push_to_lua(lua);
        total = total + n1;
        assert(lua.slots() =~= start + (part0 + part1));
        let n2 = self.2.push_to_lua(lua);
        total = total + n2;
        assert(lua.slots() =~= start + (part0 + part1 + part2));
        let n3 = self.3.push_to_lua(lua);
        total = total + n3;
        assert(lua.slots() =~= start + (part0 + part1 + part2 + part3));
        let n4 = self.4.push_to_lua(lua);
        total = total + n4;
        assert(lua.slots() =~= start + (part0 + part1 + part2 + part3 + part4));
        let n5 = self.5.push_to_lua(lua);
        total = total + n5;
        assert(lua.slots() =~= start + (part0 + part1 + part2 + part3 + part4 + part5));
        total
    }
}

impl<A: LuaRead, B: LuaRead, C: LuaRead, D: LuaRead, E: LuaRead, F: LuaRead> LuaRead for (A, B, C, D, E, F) {
    /// The items are read from the slot that `index` names and the slots
    /// above it, in that order; the tuple is there where every item is.
    open spec fn reads_as(lua: &lua_State, index: int, r: Option<(A, B, C, D, E, F)>) -> bool {
        if index + 5 > i32::MAX {
            r is None
        } else {
            match r {
                Some(t) => A::reads_as(lua, index, Some(t.0))
                    && B::reads_as(lua, index + 1, Some(t.1))
                    && C::reads_as(lua, index + 2, Some(t.2))
                    && D::reads_as(lua, index + 3, Some(t.3))
                    && E::reads_as(lua, index + 4, Some(t.4))
                    && F::reads_as(lua, index + 5, Some(t.5)),
                None => exists|x0: Option<A>, x1: Option<B>, x2: Option<C>, x3: Option<D>, x4: Option<E>, x5: Option<F>|
                    #[trigger] A::reads_as(lua, index, x0)
                        && #[trigger] B::reads_as(lua, index + 1, x1)
                        && #[trigger] C::reads_as(lua, index + 2, x2)
                        && #[trigger] D::reads_as(lua, index + 3, x3)
                        && #[trigger] E::reads_as(lua, index + 4, x4)
                        && #[trigger] F::reads_as(lua, index + 5, x5)
                        && (x0 is None || x1 is None || x2 is None || x3 is None || x4 is None || x5 is None),
            }
        }
    }

    fn lua_read_with_pop_impl(lua: &lua_State, index: i32, pop: i32) -> (r: Option<(A, B, C, D, E, F)>) {
        if index > i32::MAX - 5 {
            return None;
        }
        let x0 = A::lua_read_with_pop_impl(lua, index, 0);
        let x1 = B::lua_read_with_pop_impl(lua, index + 1, 0);
        let x2 = C::lua_read_with_pop_impl(lua, index + 2, 0);
        let x3 = D::lua_read_with_pop_impl(lua, index + 3, 0);
        let x4 = E::lua_read_with_pop_impl(lua, index + 4, 0);
        let x5 = F::lua_read_with_pop_impl(lua, index + 5, 0);
        match (x0, x1, x2, x3, x4, x5) {
            (Some(v0), Some(v1), Some(v2), Some(v3), Some(v4), Some(v5)) => Some((v0, v1, v2, v3, v4, v5)),
            _ => None,
        }
    }
}

impl<A: LuaPush, B: LuaPush, C: LuaPush, D: LuaPush, E: LuaPush, F: LuaPush, G: LuaPush> LuaPush for (A, B, C, D, E, F, G) {
    open spec fn pushed(&self) -> Seq<ScriptView> {
        self.0.pushed() + self.1.pushed() + self.2.pushed() + self.3.pushed() + self.4.pushed() + self.5.pushed() + self.6.pushed()
    }

    fn push_to_lua(self, lua: &mut lua_State) -> (n: i32) {
        let ghost start = lua.slots();
        let mut total: i32 = 0;
        let ghost part0 = self.0.pushed();
        let ghost part1 = self.1.pushed();
        let ghost part2 = self.2.pushed();
        let ghost part3 = self.3.pushed();
        let ghost part4 = self.4.pushed();
        let ghost part5 = self.5.pushed();
        let ghost part6 = self.6.pushed();
        let n0 = self.0.push_to_lua(lua);
        total = total + n0;
        assert(lua.slots() =~= start + part0);
        let n1 = self.1.push_to_lua(lua);
        total = total + n1;
        assert(lua.slots() =~= start + (part0 + part1));
        let n2 = self.2.push_to_lua(lua);
        total = total + n2;
        assert(lua.slots() =~= start + (part0 + part1 + part2));
        let n3 = self.3.push_to_lua(lua);
        total = total + n3;
        assert(lua.slots() =~= start + (part0 + part1 + part2 + part3));
        let n4 = self.4.push_to_lua(lua);
        total = total + n4;
        assert(lua.slots() =~= start + (part0 + part1 + part2 + part3 + part4));
        let n5 = self.5.push_to_lua(lua);
        total = total + n5;
        assert(lua.slots() =~= start + (part0 + part1 + part2 + part3 + part4 + part5));
        let n6 = self.6.push_to_lua(lua);
        total = total + n6;
        assert(lua.slots() =~= start + (part0 + part1 + part2 + part3 + part4 + part5 + part6));
        total
    }
}

impl<A: LuaRead, B: LuaRead, C: LuaRead, D: LuaRead, E: LuaRead, F: LuaRead, G: LuaRead> LuaRead for (A, B, C, D, E, F, G) {
    /// The items are read from the slot that `index` names and the slots
    /// above it, in that order; the tuple is there where every item is.
    open spec fn reads_as(lua: &lua_State, index: int, r: Option<(A, B, C, D, E, F, G)>) -> bool {
        if index + 6 > i32::MAX {
            r is None
        } else {
            match r {
                Some(t) => A::reads_as(lua, index, Some(t.0))
                    && B::reads_as(lua, index + 1, Some(t.1))
                    && C::reads_as(lua, index + 2, Some(t.2))
                    && D::reads_as(lua, index + 3, Some(t.3))
                    && E::reads_as(lua, index + 4, Some(t.4))
                    && F::reads_as(lua, index + 5, Some(t.5))
                    && G::reads_as(lua, index + 6, Some(t.6)),
                None => exists|x0: Option<A>, x1: Option<B>, x2: Option<C>, x3: Option<D>, x4: Option<E>, x5: Option<F>, x6: Option<G>|
                    #[trigger] A::reads_as(lua, index, x0)
                        && #[trigger] B::reads_as(lua, index + 1, x1)
                        && #[trigger] C::reads_as(lua, index + 2, x2)
                        && #[trigger] D::reads_as(lua, index + 3, x3)
                        && #[trigger] E::reads_as(lua, index + 4, x4)
                        && #[trigger] F::reads_as(lua, index + 5, x5)
                        && #[trigger] G::reads_as(lua, index + 6, x6)
                        && (x0 is None || x1 is None || x2 is None || x3 is None || x4 is None || x5 is None || x6 is None),
            }
        }
    }

    fn lua_read_with_pop_impl(lua: &lua_State, index: i32, pop: i32) -> (r: Option<(A, B, C, D, E, F, G)>) {
        if index > i32::MAX - 6 {
            return None;
        }
        let x0 = A::lua_read_with_pop_impl(lua, index, 0);
        let x1 = B::lua_read_with_pop_impl(lua, index + 1, 0);
        let x2 = C::lua_read_with_pop_impl(lua, index + 2, 0);
        let x3 = D::lua_read_with_pop_impl(lua, index + 3, 0);
        let x4 = E::lua_read_with_pop_impl(lua, index + 4, 0);
        let x5 = F::lua_read_with_pop_impl(lua, index + 5, 0);
        let x6 = G::lua_read_with_pop_impl(lua, index + 6, 0);
        match (x0, x1, x2, x3, x4, x5, x6) {
            (Some(v0), Some(v1), Some(v2), Some(v3), Some(v4), Some(v5), Some(v6)) => Some((v0, v1, v2, v3, v4, v5, v6)),
            _ => None,
        }
    }
}

impl<A: LuaPush, B: LuaPush, C: LuaPush, D: LuaPush, E: LuaPush, F: LuaPush, G: LuaPush, H: LuaPush> LuaPush for (A, B, C, D, E, F, G, H) {
    open spec fn pushed(&self) -> Seq<ScriptView> {
        self.0.pushed() + self.1.pushed() + self.2.pushed() + self.3.pushed() + self.4.pushed() + self.5.pushed() + self.6.pushed() + self.7.pushed()
    }

    fn push_to_lua(self, lua: &mut lua_State) -> (n: i32) {
        let ghost start = lua.slots();
        let mut total: i32 = 0;
        let ghost part0 = self.0.pushed();
        let ghost part1 = self.1.pushed();
        let ghost part2 = self.2.pushed();
        let ghost part3 = self.3.pushed();
        let ghost part4 = self.4.pushed();
        let ghost part5 = self.5.pushed();
        let ghost part6 = self.6.pushed();
        let ghost part7 = self.7.pushed();
        let n0 = self.0.push_to_lua(lua);
        total = total + n0;
        assert(lua.slots() =~= start + part0);
        let n1 = self.1.push_to_lua(lua);
        total = total + n1;
        assert(lua.slots() =~= start + (part0 + part1));
        let n2 = self.2.push_to_lua(lua);
        total = total + n2;
        assert(lua.slots() =~= start + (part0 + part1 + part2));
        let n3 = self.3.push_to_lua(lua);
        total = total + n3;
        assert(lua.slots() =~= start + (part0 + part1 + part2 + part3));
        let n4 = self.4.push_to_lua(lua);
        total = total + n4;
        assert(lua.slots() =~= start + (part0 + part1 + part2 + part3 + part4));
        let n5 = self.5.push_to_lua(lua);
        total = total + n5;
        assert(lua.slots() =~= start + (part0 + part1 + part2 + part3 + part4 + part5));
        let n6 = self.6.push_to_lua(lua);
        total = total + n6;
        assert(lua.slots() =~= start + (part0 + part1 + part2 + part3 + part4 + part5 + part6));
        let n7 = self.7.push_to_lua(lua);
        total = total + n7;
        assert(lua.slots() =~= start + (part0 + part1 + part2 + part3 + part4 + part5 + part6 + part7));
        total
    }
}

impl<A: LuaRead, B: LuaRead, C: LuaRead, D: LuaRead, E: LuaRead, F: LuaRead, G: LuaRead, H: LuaRead> LuaRead for (A, B, C, D, E, F, G, H) {
    /// The items are read from the slot that `index` names and the slots
    /// above it, in that order; the tuple is there where every item is.
    open spec fn reads_as(lua: &lua_State, index: int, r: Option<(A, B, C, D, E, F, G, H)>) -> bool {
        if index + 7 > i32::MAX {
            r is None
        } else {
            match r {
                Some(t) => A::reads_as(lua, index, Some(t.0))
                    && B::reads_as(lua, index + 1, Some(t.1))
                    && C::reads_as(lua, index + 2, Some(t.2))
                    && D::reads_as(lua, index + 3, Some(t.3))
                    && E::reads_as(lua, index + 4, Some(t.4))
                    && F::reads_as(lua, index + 5, Some(t.5))
                    && G::reads_as(lua, index + 6, Some(t.6))
                    && H::reads_as(lua, index + 7, Some(t.7)),
                None => exists|x0: Option<A>, x1: Option<B>, x2: Option<C>, x3: Option<D>, x4: Option<E>, x5: Option<F>, x6: Option<G>, x7: Option<H>|
                    #[trigger] A::reads_as(lua, index, x0)
                        && #[trigger] B::reads_as(lua, index + 1, x1)
                        && #[trigger] C::reads_as(lua, index + 2, x2)
                        && #[trigger] D::reads_as(lua, index + 3, x3)
                        && #[trigger] E::reads_as(lua, index + 4, x4)
                        && #[trigger] F::reads_as(lua, index + 5, x5)
                        && #[trigger] G::reads_as(lua, index + 6, x6)
                        && #[trigger] H::reads_as(lua, index + 7, x7)
                        && (x0 is None || x1 is None || x2 is None || x3 is None || x4 is None || x5 is None || x6 is None || x7 is None),
            }
        }
    }

    fn lua_read_with_pop_impl(lua: &lua_State, index: i32, pop: i32) -> (r: Option<(A, B, C, D, E, F, G, H)>) {
        if index > i32::MAX - 7 {
            return None;
        }
        let x0 = A::lua_read_with_pop_impl(lua, index, 0);
        let x1 = B::lua_read_with_pop_impl(lua, index + 1, 0);
        let x2 = C::lua_read_with_pop_impl(lua, index + 2, 0);
        let x3 = D::lua_read_with_pop_impl(lua, index + 3, 0);
        let x4 = E::lua_read_with_pop_impl(lua, index + 4, 0);
        let x5 = F::lua_read_with_pop_impl(lua, index + 5, 0);
        let x6 = G::lua_read_with_pop_impl(lua, index + 6, 0);
        let x7 = H::lua_read_with_pop_impl(lua, index + 7, 0);
        match (x0, x1, x2, x3, x4, x5, x6, x7) {
            (Some(v0), Some(v1), Some(v2), Some(v3), Some(v4), Some(v5), Some(v6), Some(v7)) => Some((v0, v1, v2, v3, v4, v5, v6, v7)),
            _ => None,
        }
    }
}

impl<A: LuaPush, B: LuaPush, C: LuaPush, D: LuaPush, E: LuaPush, F: LuaPush, G: LuaPush, H: LuaPush, I: LuaPush> LuaPush for (A, B, C, D, E, F, G, H, I) {
    open spec fn pushed(&self) -> Seq<ScriptView> {
        self.0.pushed() + self.1.pushed() + self.2.pushed() + self.3.pushed() + self.4.pushed() + self.5.pushed() + self.6.pushed() + self.7.pushed() + self.8.pushed()
    }

    fn push_to_lua(self, lua: &mut lua_State) -> (n: i32) {
        let ghost start = lua.slots();
        let mut total: i32 = 0;
        let ghost part0 = self.0.pushed();
        let ghost part1 = self.1.pushed();
        let ghost part2 = self.2.pushed();
        let ghost part3 = self.3.pushed();
        let ghost part4 = self.4.pushed();
        let ghost part5 = self.5.pushed();
        let ghost part6 = self.6.pushed();
        let ghost part7 = self.7.pushed();
        let ghost part8 = self.8.pushed();
        let n0 = self.0.push_to_lua(lua);
        total = total + n0;
        assert(lua.slots() =~= start + part0);
        let n1 = self.1.push_to_lua(lua);
        total = total + n1;
        assert(lua.slots() =~= start + (part0 + part1));
        let n2 = self.2.push_to_lua(lua);
        total = total + n2;
        assert(lua.slots() =~= start + (part0 + part1 + part2));
        let n3 = self.3.push_to_lua(lua);
        total = total + n3;
        assert(lua.slots() =~= start + (part0 + part1 + part2 + part3));
        let n4 = self.4.push_to_lua(lua);
        total = total + n4;
        assert(lua.slots() =~= start + (part0 + part1 + part2 + part3 + part4));
        let n5 = self.5.push_to_lua(lua);
        total = total + n5;
        assert(lua.slots() =~= start + (part0 + part1 + part2 + part3 + part4 + part5));
        let n6 = self.6.push_to_lua(lua);
        total = total + n6;
        assert(lua.slots() =~= start + (part0 + part1 + part2 + part3 + part4 + part5 + part6));
        let n7 = self.7.push_to_lua(lua);
        total = total + n7;
        assert(lua.slots() =~= start + (part0 + part1 + part2 + part3 + part4 + part5 + part6 + part7));
        let n8 = self.8.push_to_lua(lua);
        total = total + n8;
        assert(lua.slots() =~= start + (part0 + part1 + part2 + part3 + part4 + part5 + part6 + part7 + part8));
        total
    }
}

impl<A: LuaRead, B: LuaRead, C: LuaRead, D: LuaRead, E: LuaRead, F: LuaRead, G: LuaRead, H: LuaRead, I: LuaRead> LuaRead for (A, B, C, D, E, F, G, H, I) {
    /// The items are read from the slot that `index` names and the slots
    /// above it, in that order; the tuple is there where every item is.
    open spec fn reads_as(lua: &lua_State, index: int, r: Option<(A, B, C, D, E, F, G, H, I)>) -> bool {
        if index + 8 > i32::MAX {
            r is None
        } else {
            match r {
                Some(t) => A::reads_as(lua, index, Some(t.0))
                    && B::reads_as(lua, index + 1, Some(t.1))
                    && C::reads_as(lua, index + 2, Some(t.2))
                    && D::reads_as(lua, index + 3, Some(t.3))
                    && E::reads_as(lua, index + 4, Some(t.4))
                    && F::reads_as(lua, index + 5, Some(t.5))
                    && G::reads_as(lua, index + 6, Some(t.6))
                    && H::reads_as(lua, index + 7, Some(t.7))
                    && I::reads_as(lua, index + 8, Some(t.8)),
                None => exists|x0: Option<A>, x1: Option<B>, x2: Option<C>, x3: Option<D>, x4: Option<E>, x5: Option<F>, x6: Option<G>, x7: Option<H>, x8: Option<I>|
                    #[trigger] A::reads_as(lua, index, x0)
                        && #[trigger] B::reads_as(lua, index + 1, x1)
                        && #[trigger] C::reads_as(lua, index + 2, x2)
                        && #[trigger] D::reads_as(lua, index + 3, x3)
                        && #[trigger] E::reads_as(lua, index + 4, x4)
                        && #[trigger] F::reads_as(lua, index + 5, x5)
                        && #[trigger] G::reads_as(lua, index + 6, x6)
                        && #[trigger] H::reads_as(lua, index + 7, x7)
                        && #[trigger] I::reads_as(lua, index + 8, x8)
                        && (x0 is None || x1 is None || x2 is None || x3 is None || x4 is None || x5 is None || x6 is None || x7 is None || x8 is None),
            }
        }
    }

    fn lua_read_with_pop_impl(lua: &lua_State, index: i32, pop: i32) -> (r: Option<(A, B, C, D, E, F, G, H, I)>) {
        if index > i32::MAX - 8 {
            return None;
        }
        let x0 = A::lua_read_with_pop_impl(lua, index, 0);
        let x1 = B::lua_read_with_pop_impl(lua, index + 1, 0);
        let x2 = C::lua_read_with_pop_impl(lua, index + 2, 0);
        let x3 = D::lua_read_with_pop_impl(lua, index + 3, 0);
        let x4 = E::lua_read_with_pop_impl(lua, index + 4, 0);
        let x5 = F::lua_read_with_pop_impl(lua, index + 5, 0);
        let x6 = G::lua_read_with_pop_impl(lua, index + 6, 0);
        let x7 = H::lua_read_with_pop_impl(lua, index + 7, 0);
        let x8 = I::lua_read_with_pop_impl(lua, index + 8, 0);
        match (x0, x1, x2, x3, x4, x5, x6, x7, x8) {
            (Some(v0), Some(v1), Some(v2), Some(v3), Some(v4), Some(v5), Some(v6), Some(v7), Some(v8)) => Some((v0, v1, v2, v3, v4, v5, v6, v7, v8)),
            _ => None,
        }
    }
}

impl<A: LuaPush, B: LuaPush, C: LuaPush, D: LuaPush, E: LuaPush, F: LuaPush, G: LuaPush, H: LuaPush, I: LuaPush, J: LuaPush> LuaPush for (A, B, C, D, E, F, G, H, I, J) {
    open spec fn pushed(&self) -> Seq<ScriptView> {
        self.0.pushed() + self.1.pushed() + self.2.pushed() + self.3.pushed() + self.4.pushed() + self.5.pushed() + self.6.pushed() + self.7.pushed() + self.8.pushed() + self.9.pushed()
    }

    fn push_to_lua(self, lua: &mut lua_State) -> (n: i32) {
        let ghost start = lua.slots();
        let mut total: i32 = 0;
        let ghost part0 = self.0.pushed();
        let ghost part1 = self.1.pushed();
        let ghost part2 = self.2.pushed();
        let ghost part3 = self.3.pushed();
        let ghost part4 = self.4.pushed();
        let ghost part5 = self.5.pushed();
        let ghost part6 = self.6.pushed();
        let ghost part7 = self.7.pushed();
        let ghost part8 = self.8.pushed();
        let ghost part9 = self.9.pushed();
        let n0 = self.0.push_to_lua(lua);
        total = total + n0;
        assert(lua.slots() =~= start + part0);
        let n1 = self.1.push_to_lua(lua);
        total = total + n1;
        assert(lua.slots() =~= start + (part0 + part1));
        let n2 = self.2.push_to_lua(lua);
        total = total + n2;
        assert(lua.slots() =~= start + (part0 + part1 + part2));
        let n3 = self.3.push_to_lua(lua);
        total = total + n3;
        assert(lua.slots() =~= start + (part0 + part1 + part2 + part3));
        let n4 = self.4.push_to_lua(lua);
        total = total + n4;
        assert(lua.slots() =~= start + (part0 + part1 + part2 + part3 + part4));
        let n5 = self.5.push_to_lua(lua);
        total = total + n5;
        assert(lua.slots() =~= start + (part0 + part1 + part2 + part3 + part4 + part5));
        let n6 = self.6.push_to_lua(lua);
        total = total + n6;
        assert(lua.slots() =~= start + (part0 + part1 + part2 + part3 + part4 + part5 + part6));
        let n7 = self.7.push_to_lua(lua);
        total = total + n7;
        assert(lua.slots() =~= start + (part0 + part1 + part2 + part3 + part4 + part5 + part6 + part7));
        let n8 = self.8.push_to_lua(lua);
        total = total + n8;
        assert(lua.slots() =~= start + (part0 + part1 + part2 + part3 + part4 + part5 + part6 + part7 + part8));
        let n9 = self.9.push_to_lua(lua);
        total = total + n9;
        assert(lua.slots() =~= start + (part0 + part1 + part2 + part3 + part4 + part5 + part6 + part7 + part8 + part9));
        total
    }
}

impl<A: LuaRead, B: LuaRead, C: LuaRead, D: LuaRead, E: LuaRead, F: LuaRead, G: LuaRead, H: LuaRead, I: LuaRead, J: LuaRead> LuaRead for (A, B, C, D, E, F, G, H, I, J) {
    /// The items are read from the slot that `index` names and the slots
    /// above it, in that order; the tuple is there where every item is.
    open spec fn reads_as(lua: &lua_State, index: int, r: Option<(A, B, C, D, E, F, G, H, I, J)>) -> bool {
        if index + 9 > i32::MAX {
            r is None
        } else {
            match r {
                Some(t) => A::reads_as(lua, index, Some(t.0))
                    && B::reads_as(lua, index + 1, Some(t.1))
                    && C::reads_as(lua, index + 2, Some(t.2))
                    && D::reads_as(lua, index + 3, Some(t.3))
                    && E::reads_as(lua, index + 4, Some(t.4))
                    && F::reads_as(lua, index + 5, Some(t.5))
                    && G::reads_as(lua, index + 6, Some(t.6))
                    && H::reads_as(lua, index + 7, Some(t.7))
                    && I::reads_as(lua, index + 8, Some(t.8))
                    && J::reads_as(lua, index + 9, Some(t.9)),
                None => exists|x0: Option<A>, x1: Option<B>, x2: Option<C>, x3: Option<D>, x4: Option<E>, x5: Option<F>, x6: Option<G>, x7: Option<H>, x8: Option<I>, x9: Option<J>|
                    #[trigger] A::reads_as(lua, index, x0)
                        && #[trigger] B::reads_as(lua, index + 1, x1)
                        && #[trigger] C::reads_as(lua, index + 2, x2)
                        && #[trigger] D::reads_as(lua, index + 3, x3)
                        && #[trigger] E::reads_as(lua, index + 4, x4)
                        && #[trigger] F::reads_as(lua, index + 5, x5)
                        && #[trigger] G::reads_as(lua, index + 6, x6)
                        && #[trigger] H::reads_as(lua, index + 7, x7)
                        && #[trigger] I::reads_as(lua, index + 8, x8)
                        && #[trigger] J::reads_as(lua, index + 9, x9)
                        && (x0 is None || x1 is None || x2 is None || x3 is None || x4 is None || x5 is None || x6 is None || x7 is None || x8 is None || x9 is None),
            }
        }
    }

    fn lua_read_with_pop_impl(lua: &lua_State, index: i32, pop: i32) -> (r: Option<(A, B, C, D, E, F, G, H, I, J)>) {
        if index > i32::MAX - 9 {
            return None;
        }
        let x0 = A::lua_read_with_pop_impl(lua, index, 0);
        let x1 = B::lua_read_with_pop_impl(lua, index + 1, 0);
        let x2 = C::lua_read_with_pop_impl(lua, index + 2, 0);
        let x3 = D::lua_read_with_pop_impl(lua, index + 3, 0);
        let x4 = E::lua_read_with_pop_impl(lua, index + 4, 0);
        let x5 = F::lua_read_with_pop_impl(lua, index + 5, 0);
        let x6 = G::lua_read_with_pop_impl(lua, index + 6, 0);
        let x7 = H::lua_read_with_pop_impl(lua, index + 7, 0);
        let x8 = I::lua_read_with_pop_impl(lua, index + 8, 0);
        let x9 = J::lua_read_with_pop_impl(lua, index + 9, 0);
        match (x0, x1, x2, x3, x4, x5, x6, x7, x8, x9) {
            (Some(v0), Some(v1), Some(v2), Some(v3), Some(v4), Some(v5), Some(v6), Some(v7), Some(v8), Some(v9)) => Some((v0, v1, v2, v3, v4, v5, v6, v7, v8, v9)),
            _ => None,
        }
    }
}

impl<A: LuaPush, B: LuaPush, C: LuaPush, D: LuaPush, E: LuaPush, F: LuaPush, G: LuaPush, H: LuaPush, I: LuaPush, J: LuaPush, K: LuaPush> LuaPush for (A, B, C, D, E, F, G, H, I, J, K) {
    open spec fn pushed(&self) -> Seq<ScriptView> {
        self.0.pushed() + self.1.pushed() + self.2.pushed() + self.3.pushed() + self.4.pushed() + self.5.pushed() + self.6.pushed() + self.7.pushed() + self.8.pushed() + self.9.pushed() + self.10.pushed()
    }

    fn push_to_lua(self, lua: &mut lua_State) -> (n: i32) {
        let ghost start = lua.slots();
        let mut total: i32 = 0;
        let ghost part0 = self.0.pushed();
        let ghost part1 = self.1.pushed();
        let ghost part2 = self.2.pushed();
        let ghost part3 = self.3.pushed();
        let ghost part4 = self.4.pushed();
        let ghost part5 = self.5.pushed();
        let ghost part6 = self.6.pushed();
        let ghost part7 = self.7.pushed();
        let ghost part8 = self.8.pushed();
        let ghost part9 = self.9.pushed();
        let ghost part10 = self.10.pushed();
        let n0 = self.0.push_to_lua(lua);
        total = total + n0;
        assert(lua.slots() =~= start + part0);
        let n1 = self.1.push_to_lua(lua);
        total = total + n1;
        assert(lua.slots() =~= start + (part0 + part1));
        let n2 = self.2.push_to_lua(lua);
        total = total + n2;
        assert(lua.slots() =~= start + (part0 + part1 + part2));
        let n3 = self.3.push_to_lua(lua);
        total = total + n3;
        assert(lua.slots() =~= start + (part0 + part1 + part2 + part3));
        let n4 = self.4.push_to_lua(lua);
        total = total + n4;
        assert(lua.slots() =~= start + (part0 + part1 + part2 + part3 + part4));
        let n5 = self.5.push_to_lua(lua);
        total = total + n5;
        assert(lua.slots() =~= start + (part0 + part1 + part2 + part3 + part4 + part5));
        let n6 = self.6.push_to_lua(lua);
        total = total + n6;
        assert(lua.slots() =~= start + (part0 + part1 + part2 + part3 + part4 + part5 + part6));
        let n7 = self.7.push_to_lua(lua);
        total = total + n7;
        assert(lua.slots() =~= start + (part0 + part1 + part2 + part3 + part4 + part5 + part6 + part7));
        let n8 = self.8.push_to_lua(lua);
        total = total + n8;
        assert(lua.slots() =~= start + (part0 + part1 + part2 + part3 + part4 + part5 + part6 + part7 + part8));
        let n9 = self.9.push_to_lua(lua);
        total = total + n9;
        assert(lua.slots() =~= start + (part0 + part1 + part2 + part3 + part4 + part5 + part6 + part7 + part8 + part9));
        let n10 = self.10.push_to_lua(lua);
        total = total + n10;
        assert(lua.slots() =~= start + (part0 + part1 + part2 + part3 + part4 + part5 + part6 + part7 + part8 + part9 + part10));
        total
    }
}

impl<A: LuaRead, B: LuaRead, C: LuaRead, D: LuaRead, E: LuaRead, F: LuaRead, G: LuaRead, H: LuaRead, I: LuaRead, J: LuaRead, K: LuaRead> LuaRead for (A, B, C, D, E, F, G, H, I, J, K) {
    /// The items are read from the slot that `index` names and the slots
    /// above it, in that order; the tuple is there where every item is.
    open spec fn reads_as(lua: &lua_State, index: int, r: Option<(A, B, C, D, E, F, G, H, I, J, K)>) -> bool {
        if index + 10 > i32::MAX {
            r is None
        } else {
            match r {
                Some(t) => A::reads_as(lua, index, Some(t.0))
                    && B::reads_as(lua, index + 1, Some(t.1))
                    && C::reads_as(lua, index + 2, Some(t.2))
                    && D::reads_as(lua, index + 3, Some(t.3))
                    && E::reads_as(lua, index + 4, Some(t.4))
                    && F::reads_as(lua, index + 5, Some(t.5))
                    && G::reads_as(lua, index + 6, Some(t.6))
                    && H::reads_as(lua, index + 7, Some(t.7))
                    && I::reads_as(lua, index + 8, Some(t.8))
                    && J::reads_as(lua, index + 9, Some(t.9))
                    && K::reads_as(lua, index + 10, Some(t.10)),
                None => exists|x0: Option<A>, x1: Option<B>, x2: Option<C>, x3: Option<D>, x4: Option<E>, x5: Option<F>, x6: Option<G>, x7: Option<H>, x8: Option<I>, x9: Option<J>, x10: Option<K>|
                    #[trigger] A::reads_as(lua, index, x0)
                        && #[trigger] B::reads_as(lua, index + 1, x1)
                        && #[trigger] C::reads_as(lua, index + 2, x2)
                        && #[trigger] D::reads_as(lua, index + 3, x3)
                        && #[trigger] E::reads_as(lua, index + 4, x4)
                        && #[trigger] F::reads_as(lua, index + 5, x5)
                        && #[trigger] G::reads_as(lua, index + 6, x6)
                        && #[trigger] H::reads_as(lua, index + 7, x7)
                        && #[trigger] I::reads_as(lua, index + 8, x8)
                        && #[trigger] J::reads_as(lua, index + 9, x9)
                        && #[trigger] K::reads_as(lua, index + 10, x10)
                        && (x0 is None || x1 is None || x2 is None || x3 is None || x4 is None || x5 is None || x6 is None || x7 is None || x8 is None || x9 is None || x10 is None),
            }
        }
    }

    fn lua_read_with_pop_impl(lua: &lua_State, index: i32, pop: i32) -> (r: Option<(A, B, C, D, E, F, G, H, I, J, K)>) {
        if index > i32::MAX - 10 {
            return None;
        }
        let x0 = A::lua_read_with_pop_impl(lua, index, 0);
        let x1 = B::lua_read_with_pop_impl(lua, index + 1, 0);
        let x2 = C::lua_read_with_pop_impl(lua, index + 2, 0);
        let x3 = D::lua_read_with_pop_impl(lua, index + 3, 0);
        let x4 = E::lua_read_with_pop_impl(lua, index + 4, 0);
        let x5 = F::lua_read_with_pop_impl(lua, index + 5, 0);
        let x6 = G::lua_read_with_pop_impl(lua, index + 6, 0);
        let x7 = H::lua_read_with_pop_impl(lua, index + 7, 0);
        let x8 = I::lua_read_with_pop_impl(lua, index + 8, 0);
        let x9 = J::lua_read_with_pop_impl(lua, index + 9, 0);
        let x10 = K::lua_read_with_pop_impl(lua, index + 10, 0);
        match (x0, x1, x2, x3, x4, x5, x6, x7, x8, x9, x10) {
            (Some(v0), Some(v1), Some(v2), Some(v3), Some(v4), Some(v5), Some(v6), Some(v7), Some(v8), Some(v9), Some(v10)) => Some((v0, v1, v2, v3, v4, v5, v6, v7, v8, v9, v10)),
            _ => None,
        }
    }
}

impl<A: LuaPush, B: LuaPush, C: LuaPush, D: LuaPush, E: LuaPush, F: LuaPush, G: LuaPush, H: LuaPush, I: LuaPush, J: LuaPush, K: LuaPush, L: LuaPush> LuaPush for (A, B, C, D, E, F, G, H, I, J, K, L) {
    open spec fn pushed(&self) -> Seq<ScriptView> {
        self.0.pushed() + self.1.pushed() + self.2.pushed() + self.3.pushed() + self.4.pushed() + self.5.pushed() + self.6.pushed() + self.7.pushed() + self.8.pushed() + self.9.pushed() + self.10.pushed() + self.11.pushed()
    }

    fn push_to_lua(self, lua: &mut lua_State) -> (n: i32) {
        let ghost start = lua.slots();
        let mut total: i32 = 0;
        let ghost part0 = self.0.pushed();
        let ghost part1 = self.1.pushed();
        let ghost part2 = self.2.pushed();
        let ghost part3 = self.3.pushed();
        let ghost part4 = self.4.pushed();
        let ghost part5 = self.5.pushed();
        let ghost part6 = self.6.pushed();
        let ghost part7 = self.7.pushed();
        let ghost part8 = self.8.pushed();
        let ghost part9 = self.9.pushed();
        let ghost part10 = self.10.pushed();
        let ghost part11 = self.11.pushed();
        let n0 = self.0.push_to_lua(lua);
        total = total + n0;
        assert(lua.slots() =~= start + part0);
        let n1 = self.1.push_to_lua(lua);
        total = total + n1;
        assert(lua.slots() =~= start + (part0 + part1));
        let n2 = self.2.push_to_lua(lua);
        total = total + n2;
        assert(lua.slots() =~= start + (part0 + part1 + part2));
        let n3 = self.3.push_to_lua(lua);
        total = total + n3;
        assert(lua.slots() =~= start + (part0 + part1 + part2 + part3));
        let n4 = self.4.push_to_lua(lua);
        total = total + n4;
        assert(lua.slots() =~= start + (part0 + part1 + part2 + part3 + part4));
        let n5 = self.5.push_to_lua(lua);
        total = total + n5;
        assert(lua.slots() =~= start + (part0 + part1 + part2 + part3 + part4 + part5));
        let n6 = self.6.push_to_lua(lua);
        total = total + n6;
        assert(lua.slots() =~= start + (part0 + part1 + part2 + part3 + part4 + part5 + part6));
        let n7 = self.7.push_to_lua(lua);
        total = total + n7;
        assert(lua.slots() =~= start + (part0 + part1 + part2 + part3 + part4 + part5 + part6 + part7));
        let n8 = self.8.push_to_lua(lua);
        total = total + n8;
        assert(lua.slots() =~= start + (part0 + part1 + part2 + part3 + part4 + part5 + part6 + part7 + part8));
        let n9 = self.9.push_to_lua(lua);
        total = total + n9;
        assert(lua.slots() =~= start + (part0 + part1 + part2 + part3 + part4 + part5 + part6 + part7 + part8 + part9));
        let n10 = self.10.push_to_lua(lua);
        total = total + n10;
        assert(lua.slots() =~= start + (part0 + part1 + part2 + part3 + part4 + part5 + part6 + part7 + part8 + part9 + part10));
        let n11 = self.11.push_to_lua(lua);
        total = total + n11;
        assert(lua.slots() =~= start + (part0 + part1 + part2 + part3 + part4 + part5 + part6 + part7 + part8 + part9 + part10 + part11));
        total
    }
}

impl<A: LuaRead, B: LuaRead, C: LuaRead, D: LuaRead, E: LuaRead, F: LuaRead, G: LuaRead, H: LuaRead, I: LuaRead, J: LuaRead, K: LuaRead, L: LuaRead> LuaRead for (A, B, C, D, E, F, G, H, I, J, K, L) {
    /// The items are read from the slot that `index` names and the slots
    /// above it, in that order; the tuple is there where every item is.
    open spec fn reads_as(lua: &lua_State, index: int, r: Option<(A, B, C, D, E, F, G, H, I, J, K, L)>) -> bool {
        if index + 11 > i32::MAX {
            r is None
        } else {
            match r {
                Some(t) => A::reads_as(lua, index, Some(t.0))
                    && B::reads_as(lua, index + 1, Some(t.1))
                    && C::reads_as(lua, index + 2, Some(t.2))
                    && D::reads_as(lua, index + 3, Some(t.3))
                    && E::reads_as(lua, index + 4, Some(t.4))
                    && F::reads_as(lua, index + 5, Some(t.5))
                    && G::reads_as(lua, index + 6, Some(t.6))
                    && H::reads_as(lua, index + 7, Some(t.7))
                    && I::reads_as(lua, index + 8, Some(t.8))
                    && J::reads_as(lua, index + 9, Some(t.9))
                    && K::reads_as(lua, index + 10, Some(t.10))
                    && L::reads_as(lua, index + 11, Some(t.11)),
                None => exists|x0: Option<A>, x1: Option<B>, x2: Option<C>, x3: Option<D>, x4: Option<E>, x5: Option<F>, x6: Option<G>, x7: Option<H>, x8: Option<I>, x9: Option<J>, x10: Option<K>, x11: Option<L>|
                    #[trigger] A::reads_as(lua, index, x0)
                        && #[trigger] B::reads_as(lua, index + 1, x1)
                        && #[trigger] C::reads_as(lua, index + 2, x2)
                        && #[trigger] D::reads_as(lua, index + 3, x3)
                        && #[trigger] E::reads_as(lua, index + 4, x4)
                        && #[trigger] F::reads_as(lua, index + 5, x5)
                        && #[trigger] G::reads_as(lua, index + 6, x6)
                        && #[trigger] H::reads_as(lua, index + 7, x7)
                        && #[trigger] I::reads_as(lua, index + 8, x8)
                        && #[trigger] J::reads_as(lua, index + 9, x9)
                        && #[trigger] K::reads_as(lua, index + 10, x10)
                        && #[trigger] L::reads_as(lua, index + 11, x11)
                        && (x0 is None || x1 is None || x2 is None || x3 is None || x4 is None || x5 is None || x6 is None || x7 is None || x8 is None || x9 is None || x10 is None || x11 is None),
            }
        }
    }

    fn lua_read_with_pop_impl(lua: &lua_State, index: i32, pop: i32) -> (r: Option<(A, B, C, D, E, F, G, H, I, J, K, L)>) {
        if index > i32::MAX - 11 {
            return None;
        }
        let x0 = A::lua_read_with_pop_impl(lua, index, 0);
        let x1 = B::lua_read_with_pop_impl(lua, index + 1, 0);
        let x2 = C::lua_read_with_pop_impl(lua, index + 2, 0);
        let x3 = D::lua_read_with_pop_impl(lua, index + 3, 0);
        let x4 = E::lua_read_with_pop_impl(lua, index + 4, 0);
        let x5 = F::lua_read_with_pop_impl(lua, index + 5, 0);
        let x6 = G::lua_read_with_pop_impl(lua, index + 6, 0);
        let x7 = H::lua_read_with_pop_impl(lua, index + 7, 0);
        let x8 = I::lua_read_with_pop_impl(lua, index + 8, 0);
        let x9 = J::lua_read_with_pop_impl(lua, index + 9, 0);
        let x10 = K::lua_read_with_pop_impl(lua, index + 10, 0);
        let x11 = L::lua_read_with_pop_impl(lua, index + 11, 0);
        match (x0, x1, x2, x3, x4, x5, x6, x7, x8, x9, x10, x11) {
            (Some(v0), Some(v1), Some(v2), Some(v3), Some(v4), Some(v5), Some(v6), Some(v7), Some(v8), Some(v9), Some(v10), Some(v11)) => Some((v0, v1, v2, v3, v4, v5, v6, v7, v8, v9, v10, v11)),
            _ => None,
        }
    }
}

impl<A: LuaPush, B: LuaPush, C: LuaPush, D: LuaPush, E: LuaPush, F: LuaPush, G: LuaPush, H: LuaPush, I: LuaPush, J: LuaPush, K: LuaPush, L: LuaPush, M: LuaPush> LuaPush for (A, B, C, D, E, F, G, H, I, J, K, L, M) {
    open spec fn pushed(&self) -> Seq<ScriptView> {
        self.0.pushed() + self.1.pushed() + self.2.pushed() + self.3.pushed() + self.4.pushed() + self.5.pushed() + self.6.pushed() + self.7.pushed() + self.8.pushed() + self.9.pushed() + self.10.pushed() + self.11.pushed() + self.12.pushed()
    }

    fn push_to_lua(self, lua: &mut lua_State) -> (n: i32) {
        let ghost start = lua.slots();
        let mut total: i32 = 0;
        let ghost part0 = self.0.pushed();
        let ghost part1 = self.1.pushed();
        let ghost part2 = self.2.pushed();
        let ghost part3 = self.3.pushed();
        let ghost part4 = self.4.pushed();
        let ghost part5 = self.5.pushed();
        let ghost part6 = self.6.pushed();
        let ghost part7 = self.7.pushed();
        let ghost part8 = self.8.pushed();
        let ghost part9 = self.9.pushed();
        let ghost part10 = self.10.pushed();
        let ghost part11 = self.11.pushed();
        let ghost part12 = self.12.pushed();
        let n0 = self.0.push_to_lua(lua);
        total = total + n0;
        assert(lua.slots() =~= start + part0);
        let n1 = self.1.push_to_lua(lua);
        total = total + n1;
        assert(lua.slots() =~= start + (part0 + part1));
        let n2 = self.2.push_to_lua(lua);
        total = total + n2;
        assert(lua.slots() =~= start + (part0 + part1 + part2));
        let n3 = self.3.push_to_lua(lua);
        total = total + n3;
        assert(lua.slots() =~= start + (part0 + part1 + part2 + part3));
        let n4 = self.4.push_to_lua(lua);
        total = total + n4;
        assert(lua.slots() =~= start + (part0 + part1 + part2 + part3 + part4));
        let n5 = self.5.push_to_lua(lua);
        total = total + n5;
        assert(lua.slots() =~= start + (part0 + part1 + part2 + part3 + part4 + part5));
        let n6 = self.6.push_to_lua(lua);
        total = total + n6;
        assert(lua.slots() =~= start + (part0 + part1 + part2 + part3 + part4 + part5 + part6));
        let n7 = self.7.push_to_lua(lua);
        total = total + n7;
        assert(lua.slots() =~= start + (part0 + part1 + part2 + part3 + part4 + part5 + part6 + part7));
        let n8 = self.8.push_to_lua(lua);
        total = total + n8;
        assert(lua.slots() =~= start + (part0 + part1 + part2 + part3 + part4 + part5 + part6 + part7 + part8));
        let n9 = self.9.push_to_lua(lua);
        total = total + n9;
        assert(lua.slots() =~= start + (part0 + part1 + part2 + part3 + part4 + part5 + part6 + part7 + part8 + part9));
        let n10 = self.10.push_to_lua(lua);
        total = total + n10;
        assert(lua.slots() =~= start + (part0 + part1 + part2 + part3 + part4 + part5 + part6 + part7 + part8 + part9 + part10));
        let n11 = self.11.push_to_lua(lua);
        total = total + n11;
        assert(lua.slots() =~= start + (part0 + part1 + part2 + part3 + part4 + part5 + part6 + part7 + part8 + part9 + part10 + part11));
        let n12 = self.12.push_to_lua(lua);
        total = total + n12;
        assert(lua.slots() =~= start + (part0 + part1 + part2 + part3 + part4 + part5 + part6 + part7 + part8 + part9 + part10 + part11 + part12));
        total
    }
}

impl<A: LuaRead, B: LuaRead, C: LuaRead, D: LuaRead, E: LuaRead, F: LuaRead, G: LuaRead, H: LuaRead, I: LuaRead, J: LuaRead, K: LuaRead, L: LuaRead, M: LuaRead> LuaRead for (A, B, C, D, E, F, G, H, I, J, K, L, M) {
    /// The items are read from the slot that `index` names and the slots
    /// above it, in that order; the tuple is there where every item is.
    open spec fn reads_as(lua: &lua_State, index: int, r: Option<(A, B, C, D, E, F, G, H, I, J, K, L, M)>) -> bool {
        if index + 12 > i32::MAX {
            r is None
        } else {
            match r {
                Some(t) => A::reads_as(lua, index, Some(t.0))
                    && B::reads_as(lua, index + 1, Some(t.1))
                    && C::reads_as(lua, index + 2, Some(t.2))
                    && D::reads_as(lua, index + 3, Some(t.3))
                    && E::reads_as(lua, index + 4, Some(t.4))
                    && F::reads_as(lua, index + 5, Some(t.5))
                    && G::reads_as(lua, index + 6, Some(t.6))
                    && H::reads_as(lua, index + 7, Some(t.7))
                    && I::reads_as(lua, index + 8, Some(t.8))
                    && J::reads_as(lua, index + 9, Some(t.9))
                    && K::reads_as(lua, index + 10, Some(t.10))
                    && L::reads_as(lua, index + 11, Some(t.11))
                    && M::reads_as(lua, index + 12, Some(t.12)),
                None => exists|x0: Option<A>, x1: Option<B>, x2: Option<C>, x3: Option<D>, x4: Option<E>, x5: Option<F>, x6: Option<G>, x7: Option<H>, x8: Option<I>, x9: Option<J>, x10: Option<K>, x11: Option<L>, x12: Option<M>|
                    #[trigger] A::reads_as(lua, index, x0)
                        && #[trigger] B::reads_as(lua, index + 1, x1)
                        && #[trigger] C::reads_as(lua, index + 2, x2)
                        && #[trigger] D::reads_as(lua, index + 3, x3)
                        && #[trigger] E::reads_as(lua, index + 4, x4)
                        && #[trigger] F::reads_as(lua, index + 5, x5)
                        && #[trigger] G::reads_as(lua, index + 6, x6)
                        && #[trigger] H::reads_as(lua, index + 7, x7)
                        && #[trigger] I::reads_as(lua, index + 8, x8)
                        && #[trigger] J::reads_as(lua, index + 9, x9)
                        && #[trigger] K::reads_as(lua, index + 10, x10)
                        && #[trigger] L::reads_as(lua, index + 11, x11)
                        && #[trigger] M::reads_as(lua, index + 12, x12)
                        && (x0 is None || x1 is None || x2 is None || x3 is None || x4 is None || x5 is None || x6 is None || x7 is None || x8 is None || x9 is None || x10 is None || x11 is None || x12 is None),
            }
        }
    }

    fn lua_read_with_pop_impl(lua: &lua_State, index: i32, pop: i32) -> (r: Option<(A, B, C, D, E, F, G, H, I, J, K, L, M)>) {
        if index > i32::MAX - 12 {
            return None;
        }
        let x0 = A::lua_read_with_pop_impl(lua, index, 0);
        let x1 = B::lua_read_with_pop_impl(lua, index + 1, 0);
        let x2 = C::lua_read_with_pop_impl(lua, index + 2, 0);
        let x3 = D::lua_read_with_pop_impl(lua, index + 3, 0);
        let x4 = E::lua_read_with_pop_impl(lua, index + 4, 0);
        let x5 = F::lua_read_with_pop_impl(lua, index + 5, 0);
        let x6 = G::lua_read_with_pop_impl(lua, index + 6, 0);
        let x7 = H::lua_read_with_pop_impl(lua, index + 7, 0);
        let x8 = I::lua_read_with_pop_impl(lua, index + 8, 0);
        let x9 = J::lua_read_with_pop_impl(lua, index + 9, 0);
        let x10 = K::lua_read_with_pop_impl(lua, index + 10, 0);
        let x11 = L::lua_read_with_pop_impl(lua, index + 11, 0);
        let x12 = M::lua_read_with_pop_impl(lua, index + 12, 0);
        match (x0, x1, x2, x3, x4, x5, x6, x7, x8, x9, x10, x11, x12) {
            (Some(v0), Some(v1), Some(v2), Some(v3), Some(v4), Some(v5), Some(v6), Some(v7), Some(v8), Some(v9), Some(v10), Some(v11), Some(v12)) => Some((v0, v1, v2, v3, v4, v5, v6, v7, v8, v9, v10, v11, v12)),
            _ => None,
        }
    }
}

} // verus!
