//! Host functions that scripts call.
use crate::sys::lua_State;
use crate::text::decimal;
use crate::LuaRead;
use std::marker::PhantomData;
use vstd::prelude::*;
use vstd::string::StringExecFns;

verus! {

/// A function or closure of the host, with the types of its parameters and
/// of its result written down.
pub struct Function<F, P, R> {
    pub function: F,
    pub marker: PhantomData<(P, R)>,
}

/// Wraps a function without parameters.
pub fn function0<Z, R>(f: Z) -> (r: Function<Z, (), R>) where Z: FnMut() -> R
    ensures
        r.function == f,
{
    Function { function: f, marker: PhantomData }
}

/// Wraps a function of one parameter.
pub fn function1<Z, R, A>(f: Z) -> (r: Function<Z, (A,), R>) where Z: FnMut(A) -> R
    ensures
        r.function == f,
{
    Function { function: f, marker: PhantomData }
}

/// Wraps a function of two parameters.
pub fn function2<Z, R, A, B>(f: Z) -> (r: Function<Z, (A, B), R>) where Z: FnMut(A, B) -> R
    ensures
        r.function == f,
{
    Function { function: f, marker: PhantomData }
}

/// Wraps a function of three parameters.
pub fn function3<Z, R, A, B, C>(f: Z) -> (r: Function<Z, (A, B, C), R>) where
    Z: FnMut(A, B, C) -> R,

    ensures
        r.function == f,
{
    Function { function: f, marker: PhantomData }
}

/// Wraps a function of four parameters.
pub fn function4<Z, R, A, B, C, D>(f: Z) -> (r: Function<Z, (A, B, C, D), R>) where
    Z: FnMut(A, B, C, D) -> R,

    ensures
        r.function == f,
{
    Function { function: f, marker: PhantomData }
}

/// Wraps a function of five parameters.
pub fn function5<Z, R, A, B, C, D, E>(f: Z) -> (r: Function<Z, (A, B, C, D, E), R>) where
    Z: FnMut(A, B, C, D, E) -> R,

    ensures
        r.function == f,
{
    Function { function: f, marker: PhantomData }
}

/// Wraps a function of six parameters.
pub fn function6<Z, R, A, B, C, D, E, F>(f: Z) -> (r: Function<Z, (A, B, C, D, E, F), R>) where
    Z: FnMut(A, B, C, D, E, F) -> R,

    ensures
        r.function == f,
{
    Function { function: f, marker: PhantomData }
}

/// Wraps a function of seven parameters.
pub fn function7<Z, R, A, B, C, D, E, F, G>(f: Z) -> (r: Function<Z, (A, B, C, D, E, F, G), R>) where
    Z: FnMut(A, B, C, D, E, F, G) -> R,

    ensures
        r.function == f,
{
    Function { function: f, marker: PhantomData }
}

/// Wraps a function of eight parameters.
pub fn function8<Z, R, A, B, C, D, E, F, G, H>(f: Z) -> (r: Function<Z, (A, B, C, D, E, F, G, H), R>) where
    Z: FnMut(A, B, C, D, E, F, G, H) -> R,

    ensures
        r.function == f,
{
    Function { function: f, marker: PhantomData }
}

/// Wraps a function of nine parameters.
pub fn function9<Z, R, A, B, C, D, E, F, G, H, I>(f: Z) -> (r: Function<Z, (A, B, C, D, E, F, G, H, I), R>) where
    Z: FnMut(A, B, C, D, E, F, G, H, I) -> R,

    ensures
        r.function == f,
{
    Function { function: f, marker: PhantomData }
}

/// Wraps a function of ten parameters.
pub fn function10<Z, R, A, B, C, D, E, F, G, H, I, J>(f: Z) -> (r: Function<Z, (A, B, C, D, E, F, G, H, I, J), R>) where
    Z: FnMut(A, B, C, D, E, F, G, H, I, J) -> R,

    ensures
        r.function == f,
{
    Function { function: f, marker: PhantomData }
}

/// The message of the error that a call with too few arguments raises.
pub open spec fn short_call_message(num: int, count: int) -> Seq<char> {
    "must have arguments num "@ + crate::text::decimal_text(num) + ", but only is "@
        + crate::text::decimal_text(count)
}

/// The message of the error that a call with arguments of the wrong types
/// raises.
pub open spec fn wrong_types_message(count: int) -> Seq<char> {
    "wrong parameter types for callback function arguments_count is "@
        + crate::text::decimal_text(count)
}

/// Reads the arguments of a call of a host function that takes `num`
/// parameters, from a stack that holds the arguments and nothing else.
///
/// With fewer than `num` slots the call is refused with a message that names
/// both numbers. Else the parameters are read from the bottom of the stack
/// up; where they do not read as the types `P`, the call is refused with a
/// message that names the number of arguments. The stack is left as it is.
pub fn read_arguments<P: LuaRead>(lua: &mut lua_State, num: i32) -> (r: Result<P, String>)
    requires
        old(lua).wf(),
    ensures
        final(lua).slots() == old(lua).slots(),
        final(lua).globals == old(lua).globals,
        match r {
            Ok(args) => old(lua).depth() >= num && P::reads_as(
                old(lua),
                -old(lua).depth(),
                Some(args),
            ),
            Err(msg) => if old(lua).depth() < num {
                msg@ == short_call_message(num as int, old(lua).depth())
            } else {
                P::reads_as(old(lua), -old(lua).depth(), None) && msg@ == wrong_types_message(
                    old(lua).depth(),
                )
            },
        },
{
    let arguments_count = lua.top();
    if arguments_count < num {
        let msg = "must have arguments num ".to_string().concat(decimal(num as i64).as_str()).concat(
            ", but only is ",
        ).concat(decimal(arguments_count as i64).as_str());
        return Err(msg);
    }
    match P::lua_read_at_position(lua, -arguments_count) {
        Some(args) => Ok(args),
        None => {
            let msg =
                "wrong parameter types for callback function arguments_count is ".to_string().concat(
                decimal(arguments_count as i64).as_str(),
            );
            Err(msg)
        },
    }
}

/// What a wrapped function can be called with, and the call itself.
pub trait FunctionExt<P> {
    type Output;

    /// Whether the function may be called with `params`.
    spec fn accepts(&self, params: P) -> bool;

    /// Whether the function, called with `params`, may return `out`.
    spec fn gives(&self, params: P, out: Self::Output) -> bool;

    /// Calls the function with `params`.
    fn call_mut(&mut self, params: P) -> (r: Self::Output)
        requires
            old(self).accepts(params),
        ensures
            old(self).gives(params, r),
    ;
}

impl<Z, R> FunctionExt<()> for Function<Z, (), R> where Z: FnMut() -> R {
    type Output = R;

    open spec fn accepts(&self, params: ()) -> bool {
        self.function.requires(())
    }

    open spec fn gives(&self, params: (), out: R) -> bool {
        self.function.ensures((), out)
    }

    fn call_mut(&mut self, params: ()) -> (r: R) {
        (self.function)()
    }
}

impl<Z, R, A> FunctionExt<(A,)> for Function<Z, (A,), R> where Z: FnMut(A) -> R {
    type Output = R;

    open spec fn accepts(&self, params: (A,)) -> bool {
        self.function.requires(params)
    }

    open spec fn gives(&self, params: (A,), out: R) -> bool {
        self.function.ensures(params, out)
    }

    fn call_mut(&mut self, params: (A,)) -> (r: R) {
        (self.function)(params.0)
    }
}

impl<Z, R, A, B> FunctionExt<(A, B)> for Function<Z, (A, B), R> where Z: FnMut(A, B) -> R {
    type Output = R;

    open spec fn accepts(&self, params: (A, B)) -> bool {
        self.function.requires(params)
    }

    open spec fn gives(&self, params: (A, B), out: R) -> bool {
        self.function.ensures(params, out)
    }

    fn call_mut(&mut self, params: (A, B)) -> (r: R) {
        (self.function)(params.0, params.1)
    }
}

impl<Z, R, A, B, C> FunctionExt<(A, B, C)> for Function<Z, (A, B, C), R> where
    Z: FnMut(A, B, C) -> R,
 {
    type Output = R;

    open spec fn accepts(&self, params: (A, B, C)) -> bool {
        self.function.requires(params)
    }

    open spec fn gives(&self, params: (A, B, C), out: R) -> bool {
        self.function.ensures(params, out)
    }

    fn call_mut(&mut self, params: (A, B, C)) -> (r: R) {
        (self.function)(params.0, params.1, params.2)
    }
}

impl<Z, R, A, B, C, D> FunctionExt<(A, B, C, D)> for Function<Z, (A, B, C, D), R> where
    Z: FnMut(A, B, C, D) -> R,
 {
    type Output = R;

    open spec fn accepts(&self, params: (A, B, C, D)) -> bool {
        self.function.requires(params)
    }

    open spec fn gives(&self, params: (A, B, C, D), out: R) -> bool {
        self.function.ensures(params, out)
    }

    fn call_mut(&mut self, params: (A, B, C, D)) -> (r: R) {
        (self.function)(params.0, params.1, params.2, params.3)
    }
}

impl<Z, R, A, B, C, D, E> FunctionExt<(A, B, C, D, E)> for Function<Z, (A, B, C, D, E), R> where
    Z: FnMut(A, B, C, D, E) -> R,
 {
    type Output = R;

    open spec fn accepts(&self, params: (A, B, C, D, E)) -> bool {
        self.function.requires(params)
    }

    open spec fn gives(&self, params: (A, B, C, D, E), out: R) -> bool {
        self.function.ensures(params, out)
    }

    fn call_mut(&mut self, params: (A, B, C, D, E)) -> (r: R) {
        (self.function)(params.0, params.1, params.2, params.3, params.4)
    }
}

impl<Z, R, A, B, C, D, E, F> FunctionExt<(A, B, C, D, E, F)> for Function<Z, (A, B, C, D, E, F), R> where
    Z: FnMut(A, B, C, D, E, F) -> R,
 {
    type Output = R;

    open spec fn accepts(&self, params: (A, B, C, D, E, F)) -> bool {
        self.function.requires(params)
    }

    open spec fn gives(&self, params: (A, B, C, D, E, F), out: R) -> bool {
        self.function.ensures(params, out)
    }

    fn call_mut(&mut self, params: (A, B, C, D, E, F)) -> (r: R) {
        (self.function)(params.0, params.1, params.2, params.3, params.4, params.5)
    }
}

impl<Z, R, A, B, C, D, E, F, G> FunctionExt<(A, B, C, D, E, F, G)> for Function<Z, (A, B, C, D, E, F, G), R> where
    Z: FnMut(A, B, C, D, E, F, G) -> R,
 {
    type Output = R;

    open spec fn accepts(&self, params: (A, B, C, D, E, F, G)) -> bool {
        self.function.requires(params)
    }

    open spec fn gives(&self, params: (A, B, C, D, E, F, G), out: R) -> bool {
        self.function.ensures(params, out)
    }

    fn call_mut(&mut self, params: (A, B, C, D, E, F, G)) -> (r: R) {
        (self.function)(params.0, params.1, params.2, params.3, params.4, params.5, params.6)
    }
}

impl<Z, R, A, B, C, D, E, F, G, H> FunctionExt<(A, B, C, D, E, F, G, H)> for Function<Z, (A, B, C, D, E, F, G, H), R> where
    Z: FnMut(A, B, C, D, E, F, G, H) -> R,
 {
    type Output = R;

    open spec fn accepts(&self, params: (A, B, C, D, E, F, G, H)) -> bool {
        self.function.requires(params)
    }

    open spec fn gives(&self, params: (A, B, C, D, E, F, G, H), out: R) -> bool {
        self.function.ensures(params, out)
    }

    fn call_mut(&mut self, params: (A, B, C, D, E, F, G, H)) -> (r: R) {
        (self.function)(params.0, params.1, params.2, params.3, params.4, params.5, params.6, params.7)
    }
}

impl<Z, R, A, B, C, D, E, F, G, H, I> FunctionExt<(A, B, C, D, E, F, G, H, I)> for Function<Z, (A, B, C, D, E, F, G, H, I), R> where
    Z: FnMut(A, B, C, D, E, F, G, H, I) -> R,
 {
    type Output = R;

    open spec fn accepts(&self, params: (A, B, C, D, E, F, G, H, I)) -> bool {
        self.function.requires(params)
    }

    open spec fn gives(&self, params: (A, B, C, D, E, F, G, H, I), out: R) -> bool {
        self.function.ensures(params, out)
    }

    fn call_mut(&mut self, params: (A, B, C, D, E, F, G, H, I)) -> (r: R) {
        (self.function)(params.0, params.1, params.2, params.3, params.4, params.5, params.6, params.7, params.8)
    }
}

impl<Z, R, A, B, C, D, E, F, G, H, I, J> FunctionExt<(A, B, C, D, E, F, G, H, I, J)> for Function<Z, (A, B, C, D, E, F, G, H, I, J), R> where
    Z: FnMut(A, B, C, D, E, F, G, H, I, J) -> R,
 {
    type Output = R;

    open spec fn accepts(&self, params: (A, B, C, D, E, F, G, H, I, J)) -> bool {
        self.function.requires(params)
    }

    open spec fn gives(&self, params: (A, B, C, D, E, F, G, H, I, J), out: R) -> bool {
        self.function.ensures(params, out)
    }

    fn call_mut(&mut self, params: (A, B, C, D, E, F, G, H, I, J)) -> (r: R) {
        (self.function)(params.0, params.1, params.2, params.3, params.4, params.5, params.6, params.7, params.8, params.9)
    }
}

} // verus!
