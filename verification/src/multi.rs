//! The paired multi-value conversion protocol.
//!
//! [`IntoLuaMulti`] and [`FromLuaMulti`] generalize the single-value
//! contracts over whole argument/return lists. Every single-value
//! convertible type gets a one-element multi-value conversion: to-guest
//! wraps the value in a singleton list, from-guest takes the first list
//! element and treats a missing one as nil. Fixed-size tuples thread
//! their elements left to right, and only the last tuple element may
//! itself be multi-valued, absorbing all remaining values — the variadic
//! trailing-parameter idiom. A success/failure result converts to-guest
//! as the success payload alone, or as nil followed by the failure
//! payload, so host functions can signal recoverable failure without
//! raising a guest-level error.
//!
//! Compound contracts quantify over the intermediate runtime states of
//! their element conversions; for element types whose conversions leave
//! the runtime unchanged, those intermediates collapse and the contracts
//! become fully explicit.
use vstd::prelude::*;
use crate::conversion::{from_chain, into_chain, FromLua, IntoLua};
use crate::error::Error;
use crate::multivalue::MultiValue;
use crate::runtime::Lua;
use crate::value::Value;

verus! {

/// Trait for host types convertible to any number of guest values.
pub trait IntoLuaMulti: Sized {
    /// Precondition of the conversion.
    spec fn into_lua_multi_req(self, pre: Lua) -> bool;

    /// Exact relation between the runtime before and after the
    /// conversion and its outcome.
    spec fn into_lua_multi_spec(
        self,
        pre: Lua,
        post: Lua,
        r: Result<Seq<Value>, Error>,
    ) -> bool;

    /// Performs the conversion.
    fn into_lua_multi(self, lua: &mut Lua) -> (r: Result<MultiValue, Error>)
        requires
            old(lua).wf(),
            self.into_lua_multi_req(*old(lua)),
        ensures
            final(lua).wf(),
            old(lua).conv_extends(*final(lua)),
            r matches Ok(mv) ==> final(lua).owns_all(mv@),
            self.into_lua_multi_spec(
                *old(lua),
                *final(lua),
                match r {
                    Ok(mv) => Ok(mv@),
                    Err(e) => Err(e),
                },
            ),
    ;
}

/// Trait for host types convertible from an arbitrary number of guest
/// values. Excess values are ignored; missing values count as nil.
pub trait FromLuaMulti: Sized {
    /// Exact relation between the offered values, the runtime before and
    /// after the conversion, and its outcome.
    spec fn from_lua_multi_spec(
        pre: Lua,
        vals: Seq<Value>,
        post: Lua,
        r: Result<Self, Error>,
    ) -> bool;

    /// Performs the conversion.
    fn from_lua_multi(values: MultiValue, lua: &mut Lua) -> (r: Result<Self, Error>)
        requires
            old(lua).wf(),
            old(lua).owns_all(values@),
        ensures
            final(lua).wf(),
            old(lua).conv_extends(*final(lua)),
            Self::from_lua_multi_spec(*old(lua), values@, *final(lua), r),
    ;

    /// Performs the conversion for a whole argument list; `i` is the
    /// one-based position of the first argument and `to` the called
    /// function's name. A failing argument conversion either propagates
    /// directly or comes back wrapped as an argument-position failure at
    /// or after position `i`, carrying the direct failure as its cause.
    fn from_lua_multi_args(values: MultiValue, i: usize, to: Option<&str>, lua: &mut Lua) -> (r:
        Result<Self, Error>)
        requires
            old(lua).wf(),
            old(lua).owns_all(values@),
        ensures
            final(lua).wf(),
            old(lua).conv_extends(*final(lua)),
            match r {
                Ok(x) => Self::from_lua_multi_spec(*old(lua), values@, *final(lua), Ok(x)),
                Err(e) => Self::from_lua_multi_spec(*old(lua), values@, *final(lua), Err(e))
                    || (e matches Error::BadArgument { to: t, pos, name, cause } && (i <= pos
                    && name is None && Self::from_lua_multi_spec(
                    *old(lua),
                    values@,
                    *final(lua),
                    Err(*cause),
                ))),
            },
    {
        Self::from_lua_multi(values, lua)
    }
}

/// The first value of a list, or nil when the list is empty.
pub open spec fn first_or_nil(vals: Seq<Value>) -> Value {
    if vals.len() > 0 {
        vals[0]
    } else {
        Value::Nil
    }
}

/// The list after its front value was consumed.
pub open spec fn rest_of(vals: Seq<Value>) -> Seq<Value> {
    if vals.len() > 0 {
        vals.drop_first()
    } else {
        vals
    }
}

impl<T: IntoLua> IntoLuaMulti for T {
    open spec fn into_lua_multi_req(self, pre: Lua) -> bool {
        self.into_lua_req(pre)
    }

    /// A single-value convertible type converts to a singleton list.
    open spec fn into_lua_multi_spec(
        self,
        pre: Lua,
        post: Lua,
        r: Result<Seq<Value>, Error>,
    ) -> bool {
        match r {
            Ok(vs) => exists|mid: Lua, v: Value|
                #![all_triggers]
                {
                    &&& self.into_lua_spec(pre, mid, Ok(v))
                    &&& vs == seq![v]
                },
            Err(e) => exists|mid: Lua| #![all_triggers] self.into_lua_spec(pre, mid, Err(e)),
        }
    }

    fn into_lua_multi(self, lua: &mut Lua) -> (r: Result<MultiValue, Error>) {
        let ghost pre = *lua;
        match self.into_lua(lua) {
            Ok(v) => {
                let ghost mid = *lua;
                let mut mv = lua.new_multivalue_from_pool();
                mv.push_front(v);
                proof {
                    pre.lemma_conv_extends_trans(mid, *lua);
                    assert(mv@ =~= seq![v]);
                    mid.lemma_conv_extends_owns(*lua, v);
                }
                Ok(mv)
            },
            Err(e) => Err(e),
        }
    }
}

impl<T: FromLua> FromLuaMulti for T {
    /// A single-value convertible type converts from the first list
    /// element, a missing element counting as nil; the rest of the list
    /// is discarded into the reuse pool.
    open spec fn from_lua_multi_spec(
        pre: Lua,
        vals: Seq<Value>,
        post: Lua,
        r: Result<Self, Error>,
    ) -> bool {
        exists|mid: Lua| #![all_triggers] T::from_lua_spec(pre, first_or_nil(vals), mid, r)
    }

    fn from_lua_multi(values: MultiValue, lua: &mut Lua) -> (r: Result<Self, Error>) {
        let ghost pre = *lua;
        let mut values = values;
        let front = match values.pop_front() {
            Some(v) => v,
            None => Value::Nil,
        };
        let res = T::from_lua(front, lua);
        let ghost mid = *lua;
        lua.return_multivalue_to_pool(values);
        proof {
            pre.lemma_conv_extends_trans(mid, *lua);
        }
        res
    }

    fn from_lua_multi_args(values: MultiValue, i: usize, to: Option<&str>, lua: &mut Lua) -> (r:
        Result<Self, Error>)
        ensures
            r matches Err(e) ==> (e matches Error::BadArgument { pos, .. } ==> pos == i),
    {
        let ghost pre = *lua;
        let mut values = values;
        let front = match values.pop_front() {
            Some(v) => v,
            None => Value::Nil,
        };
        let res = T::from_lua_arg(front, i, to, lua);
        let ghost mid = *lua;
        lua.return_multivalue_to_pool(values);
        proof {
            pre.lemma_conv_extends_trans(mid, *lua);
        }
        res
    }
}

impl IntoLuaMulti for MultiValue {
    open spec fn into_lua_multi_req(self, pre: Lua) -> bool {
        pre.owns_all(self@)
    }

    open spec fn into_lua_multi_spec(
        self,
        pre: Lua,
        post: Lua,
        r: Result<Seq<Value>, Error>,
    ) -> bool {
        post == pre && r == Ok::<Seq<Value>, Error>(self@)
    }

    fn into_lua_multi(self, lua: &mut Lua) -> (r: Result<MultiValue, Error>) {
        Ok(self)
    }
}

impl FromLuaMulti for MultiValue {
    open spec fn from_lua_multi_spec(
        pre: Lua,
        vals: Seq<Value>,
        post: Lua,
        r: Result<Self, Error>,
    ) -> bool {
        post == pre && (r matches Ok(mv) && mv@ == vals)
    }

    fn from_lua_multi(values: MultiValue, lua: &mut Lua) -> (r: Result<Self, Error>) {
        Ok(values)
    }
}

impl IntoLuaMulti for () {
    open spec fn into_lua_multi_req(self, pre: Lua) -> bool {
        true
    }

    open spec fn into_lua_multi_spec(
        self,
        pre: Lua,
        post: Lua,
        r: Result<Seq<Value>, Error>,
    ) -> bool {
        r == Ok::<Seq<Value>, Error>(Seq::<Value>::empty())
    }

    fn into_lua_multi(self, lua: &mut Lua) -> (r: Result<MultiValue, Error>) {
        Ok(lua.new_multivalue_from_pool())
    }
}

impl FromLuaMulti for () {
    open spec fn from_lua_multi_spec(
        pre: Lua,
        vals: Seq<Value>,
        post: Lua,
        r: Result<Self, Error>,
    ) -> bool {
        r == Ok::<(), Error>(())
    }

    fn from_lua_multi(values: MultiValue, lua: &mut Lua) -> (r: Result<Self, Error>) {
        lua.return_multivalue_to_pool(values);
        Ok(())
    }
}

impl<T: IntoLua, E: IntoLua> IntoLuaMulti for Result<T, E> {
    open spec fn into_lua_multi_req(self, pre: Lua) -> bool {
        match self {
            Ok(x) => x.into_lua_req(pre),
            Err(x) => x.into_lua_req(pre),
        }
    }

    /// The result-or-nil-plus-message idiom: a success payload becomes
    /// the one-element list `[v]`; a failure payload becomes the
    /// two-element list `[nil, e]`, in front-to-back order.
    open spec fn into_lua_multi_spec(
        self,
        pre: Lua,
        post: Lua,
        r: Result<Seq<Value>, Error>,
    ) -> bool {
        match self {
            Ok(x) => match r {
                Ok(vs) => exists|mid: Lua, v: Value|
                    #![all_triggers]
                    {
                        &&& x.into_lua_spec(pre, mid, Ok(v))
                        &&& vs == seq![v]
                    },
                Err(e) => exists|mid: Lua| #![all_triggers] x.into_lua_spec(pre, mid, Err(e)),
            },
            Err(x) => match r {
                Ok(vs) => exists|mid: Lua, v: Value|
                    #![all_triggers]
                    {
                        &&& x.into_lua_spec(pre, mid, Ok(v))
                        &&& vs == seq![Value::Nil, v]
                    },
                Err(e) => exists|mid: Lua| #![all_triggers] x.into_lua_spec(pre, mid, Err(e)),
            },
        }
    }

    fn into_lua_multi(self, lua: &mut Lua) -> (r: Result<MultiValue, Error>) {
        let ghost pre = *lua;
        match self {
            Ok(x) => {
                match x.into_lua(lua) {
                    Ok(v) => {
                        let ghost mid = *lua;
                        let mut mv = lua.new_multivalue_from_pool();
                        mv.push_front(v);
                        proof {
                            pre.lemma_conv_extends_trans(mid, *lua);
                            assert(mv@ =~= seq![v]);
                            mid.lemma_conv_extends_owns(*lua, v);
                        }
                        Ok(mv)
                    },
                    Err(e) => Err(e),
                }
            },
            Err(x) => {
                match x.into_lua(lua) {
                    Ok(v) => {
                        let ghost mid = *lua;
                        let mut mv = lua.new_multivalue_from_pool();
                        mv.push_front(v);
                        mv.push_front(Value::Nil);
                        proof {
                            pre.lemma_conv_extends_trans(mid, *lua);
                            assert(mv@ =~= seq![Value::Nil, v]);
                            mid.lemma_conv_extends_owns(*lua, v);
                        }
                        Ok(mv)
                    },
                    Err(e) => Err(e),
                }
            },
        }
    }
}

impl<A: FromLua, B: FromLuaMulti> FromLuaMulti for (A, B) {
    /// Tuple threading: the first element consumes exactly the front
    /// value (nil when missing) and the trailing element absorbs all
    /// remaining values.
    open spec fn from_lua_multi_spec(
        pre: Lua,
        vals: Seq<Value>,
        post: Lua,
        r: Result<Self, Error>,
    ) -> bool {
        match r {
            Ok(ab) => exists|mid: Lua, a: A, b: B|
                #![all_triggers]
                {
                    &&& ab == (a, b)
                    &&& A::from_lua_spec(pre, first_or_nil(vals), mid, Ok(a))
                    &&& B::from_lua_multi_spec(mid, rest_of(vals), post, Ok(b))
                },
            Err(e) => (exists|mid: Lua|
                #![all_triggers]
                A::from_lua_spec(pre, first_or_nil(vals), mid, Err(e))) || (exists|
                mid: Lua,
                a: A,
            |
                #![all_triggers]
                {
                    &&& A::from_lua_spec(pre, first_or_nil(vals), mid, Ok(a))
                    &&& B::from_lua_multi_spec(mid, rest_of(vals), post, Err(e))
                }),
        }
    }

    fn from_lua_multi(values: MultiValue, lua: &mut Lua) -> (r: Result<Self, Error>) {
        let ghost pre = *lua;
        let mut values = values;
        let ghost vals0 = values@;
        let front = match values.pop_front() {
            Some(v) => v,
            None => Value::Nil,
        };
        proof {
            assert(front == first_or_nil(vals0));
            assert(values@ == rest_of(vals0));
        }
        let a = match A::from_lua(front, lua) {
            Ok(a) => a,
            Err(e) => {
                let ghost m1 = *lua;
                lua.return_multivalue_to_pool(values);
                proof {
                    pre.lemma_conv_extends_trans(m1, *lua);
                    assert(Self::from_lua_multi_spec(pre, vals0, *lua, Err::<Self, Error>(e)))
                        by {
                        assert(A::from_lua_spec(pre, first_or_nil(vals0), m1, Err::<A, Error>(e)));
                    }
                }
                return Err(e);
            },
        };
        let ghost m1 = *lua;
        proof {
            assert forall|k: int| 0 <= k < values@.len() implies m1.owns(
                #[trigger] values@[k],
            ) by {
                pre.lemma_conv_extends_owns(m1, values@[k]);
            }
        }
        let b = match B::from_lua_multi(values, lua) {
            Ok(b) => b,
            Err(e) => {
                proof {
                    pre.lemma_conv_extends_trans(m1, *lua);
                    assert(Self::from_lua_multi_spec(pre, vals0, *lua, Err::<Self, Error>(e)))
                        by {
                        assert(A::from_lua_spec(pre, first_or_nil(vals0), m1, Ok::<A, Error>(a)));
                        assert(B::from_lua_multi_spec(m1, rest_of(vals0), *lua, Err::<B, Error>(e)));
                    }
                }
                return Err(e);
            },
        };
        proof {
            pre.lemma_conv_extends_trans(m1, *lua);
            assert(A::from_lua_spec(pre, first_or_nil(vals0), m1, Ok::<A, Error>(a)));
            assert(B::from_lua_multi_spec(m1, rest_of(vals0), *lua, Ok::<B, Error>(b)));
            let ghost post = *lua;
            assert(Self::from_lua_multi_spec(pre, vals0, post, Ok::<Self, Error>((a, b)))) by {
                assert(A::from_lua_spec(pre, first_or_nil(vals0), m1, Ok::<A, Error>(a)));
                assert(B::from_lua_multi_spec(m1, rest_of(vals0), post, Ok::<B, Error>(b)));
            }
        }
        Ok((a, b))
    }

    fn from_lua_multi_args(values: MultiValue, i: usize, to: Option<&str>, lua: &mut Lua) -> (r:
        Result<Self, Error>)
        ensures
            r matches Err(e) ==> (e matches Error::BadArgument { pos, cause, .. } ==> {
                ||| Self::from_lua_multi_spec(*old(lua), values@, *final(lua), Err(e))
                ||| (pos == i && (exists|m1: Lua|
                    #![all_triggers]
                    A::from_lua_spec(*old(lua), first_or_nil(values@), m1, Err(*cause))))
                ||| ((if i < usize::MAX {
                    pos >= i + 1
                } else {
                    pos >= i
                }) && (exists|m1: Lua, a: A|
                    #![all_triggers]
                    {
                        &&& A::from_lua_spec(*old(lua), first_or_nil(values@), m1, Ok(a))
                        &&& B::from_lua_multi_spec(
                            m1,
                            rest_of(values@),
                            *final(lua),
                            Err(*cause),
                        )
                    }))
            }),
    {
        let ghost pre = *lua;
        let mut values = values;
        let ghost vals0 = values@;
        let front = match values.pop_front() {
            Some(v) => v,
            None => Value::Nil,
        };
        proof {
            assert(front == first_or_nil(vals0));
            assert(values@ == rest_of(vals0));
        }
        let a = match A::from_lua_arg(front, i, to, lua) {
            Ok(a) => a,
            Err(e) => {
                let ghost m1 = *lua;
                lua.return_multivalue_to_pool(values);
                proof {
                    pre.lemma_conv_extends_trans(m1, *lua);
                    match &e {
                        Error::BadArgument { cause, .. } => {
                            assert(Self::from_lua_multi_spec(
                                pre,
                                vals0,
                                *lua,
                                Err::<Self, Error>(**cause),
                            )) by {
                                assert(A::from_lua_spec(pre, first_or_nil(vals0), m1, Err::<
                                    A,
                                    Error,
                                >(**cause)));
                            }
                        },
                        _ => {},
                    }
                }
                return Err(e);
            },
        };
        let ghost m1 = *lua;
        proof {
            assert forall|k: int| 0 <= k < values@.len() implies m1.owns(
                #[trigger] values@[k],
            ) by {
                pre.lemma_conv_extends_owns(m1, values@[k]);
            }
        }
        let i2 = if i == usize::MAX {
            i
        } else {
            i + 1
        };
        let b = match B::from_lua_multi_args(values, i2, to, lua) {
            Ok(b) => b,
            Err(e) => {
                proof {
                    pre.lemma_conv_extends_trans(m1, *lua);
                    if B::from_lua_multi_spec(m1, rest_of(vals0), *lua, Err::<B, Error>(e)) {
                        assert(Self::from_lua_multi_spec(pre, vals0, *lua, Err::<Self, Error>(
                            e,
                        ))) by {
                            assert(A::from_lua_spec(pre, first_or_nil(vals0), m1, Ok::<
                                A,
                                Error,
                            >(a)));
                        }
                    } else {
                        match &e {
                            Error::BadArgument { cause, .. } => {
                                if B::from_lua_multi_spec(m1, rest_of(vals0), *lua, Err::<
                                    B,
                                    Error,
                                >(**cause)) {
                                    assert(Self::from_lua_multi_spec(
                                        pre,
                                        vals0,
                                        *lua,
                                        Err::<Self, Error>(**cause),
                                    )) by {
                                        assert(A::from_lua_spec(
                                            pre,
                                            first_or_nil(vals0),
                                            m1,
                                            Ok::<A, Error>(a),
                                        ));
                                    }
                                }
                            },
                            _ => {},
                        }
                    }
                }
                return Err(e);
            },
        };
        let ghost post2 = *lua;
        proof {
            pre.lemma_conv_extends_trans(m1, *lua);
            assert(Self::from_lua_multi_spec(pre, vals0, post2, Ok::<Self, Error>((a, b))))
                by {
                assert(A::from_lua_spec(pre, first_or_nil(vals0), m1, Ok::<A, Error>(a)));
                assert(B::from_lua_multi_spec(m1, rest_of(vals0), post2, Ok::<B, Error>(b)));
            }
        }
        Ok((a, b))
    }
}

impl<A: FromLua, B: FromLua, C: FromLuaMulti> FromLuaMulti for (A, B, C) {
    /// Tuple threading for three elements: one front value each for the
    /// first two (nil when missing), all remaining values for the
    /// trailing element.
    open spec fn from_lua_multi_spec(
        pre: Lua,
        vals: Seq<Value>,
        post: Lua,
        r: Result<Self, Error>,
    ) -> bool {
        match r {
            Ok(abc) => exists|m1: Lua, m2: Lua, a: A, b: B, c: C|
                #![all_triggers]
                {
                    &&& abc == (a, b, c)
                    &&& A::from_lua_spec(pre, first_or_nil(vals), m1, Ok(a))
                    &&& B::from_lua_spec(m1, first_or_nil(rest_of(vals)), m2, Ok(b))
                    &&& C::from_lua_multi_spec(m2, rest_of(rest_of(vals)), post, Ok(c))
                },
            Err(e) => {
                ||| (exists|m1: Lua|
                    #![all_triggers]
                    A::from_lua_spec(pre, first_or_nil(vals), m1, Err(e)))
                ||| (exists|m1: Lua, m2: Lua, a: A|
                    #![all_triggers]
                    {
                        &&& A::from_lua_spec(pre, first_or_nil(vals), m1, Ok(a))
                        &&& B::from_lua_spec(m1, first_or_nil(rest_of(vals)), m2, Err(e))
                    })
                ||| (exists|m1: Lua, m2: Lua, a: A, b: B|
                    #![all_triggers]
                    {
                        &&& A::from_lua_spec(pre, first_or_nil(vals), m1, Ok(a))
                        &&& B::from_lua_spec(m1, first_or_nil(rest_of(vals)), m2, Ok(b))
                        &&& C::from_lua_multi_spec(m2, rest_of(rest_of(vals)), post, Err(e))
                    })
            },
        }
    }

    fn from_lua_multi(values: MultiValue, lua: &mut Lua) -> (r: Result<Self, Error>) {
        let ghost pre = *lua;
        let mut values = values;
        let ghost vals0 = values@;
        let front_a = match values.pop_front() {
            Some(v) => v,
            None => Value::Nil,
        };
        proof {
            assert(front_a == first_or_nil(vals0));
            assert(values@ == rest_of(vals0));
        }
        let a = match A::from_lua(front_a, lua) {
            Ok(a) => a,
            Err(e) => {
                let ghost m1 = *lua;
                lua.return_multivalue_to_pool(values);
                proof {
                    pre.lemma_conv_extends_trans(m1, *lua);
                    assert(Self::from_lua_multi_spec(pre, vals0, *lua, Err::<Self, Error>(e)))
                        by {
                        assert(A::from_lua_spec(pre, first_or_nil(vals0), m1, Err::<A, Error>(e)));
                    }
                }
                return Err(e);
            },
        };
        let ghost m1 = *lua;
        let front_b = match values.pop_front() {
            Some(v) => v,
            None => Value::Nil,
        };
        proof {
            assert(front_b == first_or_nil(rest_of(vals0)));
            assert(values@ == rest_of(rest_of(vals0)));
            if rest_of(vals0).len() > 0 {
                assert(pre.owns(vals0[1]));
            }
            assert(pre.owns(front_b));
            pre.lemma_conv_extends_owns(m1, front_b);
        }
        let b = match B::from_lua(front_b, lua) {
            Ok(b) => b,
            Err(e) => {
                let ghost m2 = *lua;
                lua.return_multivalue_to_pool(values);
                proof {
                    pre.lemma_conv_extends_trans(m1, m2);
                    pre.lemma_conv_extends_trans(m2, *lua);
                    assert(Self::from_lua_multi_spec(pre, vals0, *lua, Err::<Self, Error>(e)))
                        by {
                        assert(A::from_lua_spec(pre, first_or_nil(vals0), m1, Ok::<A, Error>(a)));
                        assert(B::from_lua_spec(m1, first_or_nil(rest_of(vals0)), m2, Err::<
                            B,
                            Error,
                        >(e)));
                    }
                }
                return Err(e);
            },
        };
        let ghost m2 = *lua;
        proof {
            assert forall|k: int| 0 <= k < values@.len() implies m2.owns(
                #[trigger] values@[k],
            ) by {
                pre.lemma_conv_extends_trans(m1, m2);
                pre.lemma_conv_extends_owns(m2, values@[k]);
            }
        }
        let c = match C::from_lua_multi(values, lua) {
            Ok(c) => c,
            Err(e) => {
                proof {
                    pre.lemma_conv_extends_trans(m1, m2);
                    pre.lemma_conv_extends_trans(m2, *lua);
                    assert(Self::from_lua_multi_spec(pre, vals0, *lua, Err::<Self, Error>(e)))
                        by {
                        assert(A::from_lua_spec(pre, first_or_nil(vals0), m1, Ok::<A, Error>(a)));
                        assert(B::from_lua_spec(m1, first_or_nil(rest_of(vals0)), m2, Ok::<
                            B,
                            Error,
                        >(b)));
                        assert(C::from_lua_multi_spec(m2, rest_of(rest_of(vals0)), *lua, Err::<
                            C,
                            Error,
                        >(e)));
                    }
                }
                return Err(e);
            },
        };
        proof {
            pre.lemma_conv_extends_trans(m1, m2);
            pre.lemma_conv_extends_trans(m2, *lua);
            assert(A::from_lua_spec(pre, first_or_nil(vals0), m1, Ok::<A, Error>(a)));
            assert(B::from_lua_spec(m1, first_or_nil(rest_of(vals0)), m2, Ok::<B, Error>(b)));
            assert(C::from_lua_multi_spec(m2, rest_of(rest_of(vals0)), *lua, Ok::<C, Error>(c)));
            let ghost post = *lua;
            assert(Self::from_lua_multi_spec(pre, vals0, post, Ok::<Self, Error>((a, b, c))))
                by {
                assert(A::from_lua_spec(pre, first_or_nil(vals0), m1, Ok::<A, Error>(a)));
                assert(B::from_lua_spec(m1, first_or_nil(rest_of(vals0)), m2, Ok::<B, Error>(b)));
                assert(C::from_lua_multi_spec(m2, rest_of(rest_of(vals0)), post, Ok::<C, Error>(
                    c,
                )));
            }
        }
        Ok((a, b, c))
    }

    fn from_lua_multi_args(values: MultiValue, i: usize, to: Option<&str>, lua: &mut Lua) -> (r:
        Result<Self, Error>)
        ensures
            r matches Err(e) ==> (e matches Error::BadArgument { pos, cause, .. } ==> {
                ||| Self::from_lua_multi_spec(*old(lua), values@, *final(lua), Err(e))
                ||| (pos == i && (exists|m1: Lua|
                    #![all_triggers]
                    A::from_lua_spec(*old(lua), first_or_nil(values@), m1, Err(*cause))))
                ||| ((if i < usize::MAX {
                    pos == i + 1
                } else {
                    pos == i
                }) && (exists|m1: Lua, m2: Lua, a: A|
                    #![all_triggers]
                    {
                        &&& A::from_lua_spec(*old(lua), first_or_nil(values@), m1, Ok(a))
                        &&& B::from_lua_spec(
                            m1,
                            first_or_nil(rest_of(values@)),
                            m2,
                            Err(*cause),
                        )
                    }))
                ||| ((if i + 2 <= usize::MAX {
                    pos >= i + 2
                } else {
                    pos >= usize::MAX
                }) && (exists|m1: Lua, m2: Lua, a: A, b: B|
                    #![all_triggers]
                    {
                        &&& A::from_lua_spec(*old(lua), first_or_nil(values@), m1, Ok(a))
                        &&& B::from_lua_spec(m1, first_or_nil(rest_of(values@)), m2, Ok(b))
                        &&& C::from_lua_multi_spec(
                            m2,
                            rest_of(rest_of(values@)),
                            *final(lua),
                            Err(*cause),
                        )
                    }))
            }),
    {
        let ghost pre = *lua;
        let mut values = values;
        let ghost vals0 = values@;
        let front_a = match values.pop_front() {
            Some(v) => v,
            None => Value::Nil,
        };
        proof {
            assert(front_a == first_or_nil(vals0));
            assert(values@ == rest_of(vals0));
        }
        let a = match A::from_lua_arg(front_a, i, to, lua) {
            Ok(a) => a,
            Err(e) => {
                let ghost m1 = *lua;
                lua.return_multivalue_to_pool(values);
                proof {
                    pre.lemma_conv_extends_trans(m1, *lua);
                    match &e {
                        Error::BadArgument { cause, .. } => {
                            assert(Self::from_lua_multi_spec(
                                pre,
                                vals0,
                                *lua,
                                Err::<Self, Error>(**cause),
                            )) by {
                                assert(A::from_lua_spec(pre, first_or_nil(vals0), m1, Err::<
                                    A,
                                    Error,
                                >(**cause)));
                            }
                        },
                        _ => {},
                    }
                }
                return Err(e);
            },
        };
        let ghost m1 = *lua;
        let front_b = match values.pop_front() {
            Some(v) => v,
            None => Value::Nil,
        };
        proof {
            assert(front_b == first_or_nil(rest_of(vals0)));
            assert(values@ == rest_of(rest_of(vals0)));
            if rest_of(vals0).len() > 0 {
                assert(pre.owns(vals0[1]));
            }
            assert(pre.owns(front_b));
            pre.lemma_conv_extends_owns(m1, front_b);
        }
        let i2 = if i == usize::MAX {
            i
        } else {
            i + 1
        };
        let b = match B::from_lua_arg(front_b, i2, to, lua) {
            Ok(b) => b,
            Err(e) => {
                let ghost m2 = *lua;
                lua.return_multivalue_to_pool(values);
                proof {
                    pre.lemma_conv_extends_trans(m1, m2);
                    pre.lemma_conv_extends_trans(m2, *lua);
                    match &e {
                        Error::BadArgument { cause, .. } => {
                            assert(Self::from_lua_multi_spec(
                                pre,
                                vals0,
                                *lua,
                                Err::<Self, Error>(**cause),
                            )) by {
                                assert(A::from_lua_spec(pre, first_or_nil(vals0), m1, Ok::<
                                    A,
                                    Error,
                                >(a)));
                                assert(B::from_lua_spec(
                                    m1,
                                    first_or_nil(rest_of(vals0)),
                                    m2,
                                    Err::<B, Error>(**cause),
                                ));
                            }
                        },
                        _ => {},
                    }
                }
                return Err(e);
            },
        };
        let ghost m2 = *lua;
        proof {
            assert forall|k: int| 0 <= k < values@.len() implies m2.owns(
                #[trigger] values@[k],
            ) by {
                pre.lemma_conv_extends_trans(m1, m2);
                pre.lemma_conv_extends_owns(m2, values@[k]);
            }
        }
        let i3 = if i2 == usize::MAX {
            i2
        } else {
            i2 + 1
        };
        let c = match C::from_lua_multi_args(values, i3, to, lua) {
            Ok(c) => c,
            Err(e) => {
                proof {
                    pre.lemma_conv_extends_trans(m1, m2);
                    pre.lemma_conv_extends_trans(m2, *lua);
                    if C::from_lua_multi_spec(m2, rest_of(rest_of(vals0)), *lua, Err::<
                        C,
                        Error,
                    >(e)) {
                        assert(Self::from_lua_multi_spec(pre, vals0, *lua, Err::<Self, Error>(
                            e,
                        ))) by {
                            assert(A::from_lua_spec(pre, first_or_nil(vals0), m1, Ok::<
                                A,
                                Error,
                            >(a)));
                            assert(B::from_lua_spec(m1, first_or_nil(rest_of(vals0)), m2, Ok::<
                                B,
                                Error,
                            >(b)));
                        }
                    } else {
                        match &e {
                            Error::BadArgument { cause, .. } => {
                                if C::from_lua_multi_spec(m2, rest_of(rest_of(vals0)), *lua,
                                    Err::<C, Error>(**cause)) {
                                    assert(Self::from_lua_multi_spec(
                                        pre,
                                        vals0,
                                        *lua,
                                        Err::<Self, Error>(**cause),
                                    )) by {
                                        assert(A::from_lua_spec(
                                            pre,
                                            first_or_nil(vals0),
                                            m1,
                                            Ok::<A, Error>(a),
                                        ));
                                        assert(B::from_lua_spec(
                                            m1,
                                            first_or_nil(rest_of(vals0)),
                                            m2,
                                            Ok::<B, Error>(b),
                                        ));
                                    }
                                }
                            },
                            _ => {},
                        }
                    }
                }
                return Err(e);
            },
        };
        let ghost post2 = *lua;
        proof {
            pre.lemma_conv_extends_trans(m1, m2);
            pre.lemma_conv_extends_trans(m2, *lua);
            assert(Self::from_lua_multi_spec(pre, vals0, post2, Ok::<Self, Error>((a, b, c))))
                by {
                assert(A::from_lua_spec(pre, first_or_nil(vals0), m1, Ok::<A, Error>(a)));
                assert(B::from_lua_spec(m1, first_or_nil(rest_of(vals0)), m2, Ok::<B, Error>(
                    b,
                )));
                assert(C::from_lua_multi_spec(m2, rest_of(rest_of(vals0)), post2, Ok::<
                    C,
                    Error,
                >(c)));
            }
        }
        Ok((a, b, c))
    }
}

impl<A: FromLua, B: FromLua, C: FromLua, D: FromLuaMulti> FromLuaMulti for (A, B, C, D) {
    /// Tuple threading for four elements: one front value each for the
    /// first three (nil when missing), all remaining values for the
    /// trailing element. Higher arities follow the same scheme.
    open spec fn from_lua_multi_spec(
        pre: Lua,
        vals: Seq<Value>,
        post: Lua,
        r: Result<Self, Error>,
    ) -> bool {
        match r {
            Ok(abcd) => exists|m1: Lua, a: A, rest: (B, C, D)|
                #![all_triggers]
                {
                    &&& abcd == (a, rest.0, rest.1, rest.2)
                    &&& A::from_lua_spec(pre, first_or_nil(vals), m1, Ok(a))
                    &&& <(B, C, D) as FromLuaMulti>::from_lua_multi_spec(
                        m1,
                        rest_of(vals),
                        post,
                        Ok(rest),
                    )
                },
            Err(e) => (exists|m1: Lua|
                #![all_triggers]
                A::from_lua_spec(pre, first_or_nil(vals), m1, Err(e))) || (exists|
                m1: Lua,
                a: A,
            |
                #![all_triggers]
                {
                    &&& A::from_lua_spec(pre, first_or_nil(vals), m1, Ok(a))
                    &&& <(B, C, D) as FromLuaMulti>::from_lua_multi_spec(
                        m1,
                        rest_of(vals),
                        post,
                        Err(e),
                    )
                }),
        }
    }

    fn from_lua_multi(values: MultiValue, lua: &mut Lua) -> (r: Result<Self, Error>) {
        let ghost pre = *lua;
        let mut values = values;
        let ghost vals0 = values@;
        let front = match values.pop_front() {
            Some(v) => v,
            None => Value::Nil,
        };
        proof {
            assert(front == first_or_nil(vals0));
            assert(values@ == rest_of(vals0));
        }
        let a = match A::from_lua(front, lua) {
            Ok(a) => a,
            Err(e) => {
                let ghost m1 = *lua;
                lua.return_multivalue_to_pool(values);
                proof {
                    pre.lemma_conv_extends_trans(m1, *lua);
                    assert(Self::from_lua_multi_spec(pre, vals0, *lua, Err::<Self, Error>(e)))
                        by {
                        assert(A::from_lua_spec(pre, first_or_nil(vals0), m1, Err::<A, Error>(
                            e,
                        )));
                    }
                }
                return Err(e);
            },
        };
        let ghost m1 = *lua;
        proof {
            assert forall|k: int| 0 <= k < values@.len() implies m1.owns(
                #[trigger] values@[k],
            ) by {
                pre.lemma_conv_extends_owns(m1, values@[k]);
            }
        }
        let rest = match <(B, C, D) as FromLuaMulti>::from_lua_multi(values, lua) {
            Ok(rest) => rest,
            Err(e) => {
                proof {
                    pre.lemma_conv_extends_trans(m1, *lua);
                    assert(Self::from_lua_multi_spec(pre, vals0, *lua, Err::<Self, Error>(e)))
                        by {
                        assert(A::from_lua_spec(pre, first_or_nil(vals0), m1, Ok::<A, Error>(
                            a,
                        )));
                        assert(<(B, C, D) as FromLuaMulti>::from_lua_multi_spec(
                            m1,
                            rest_of(vals0),
                            *lua,
                            Err::<(B, C, D), Error>(e),
                        ));
                    }
                }
                return Err(e);
            },
        };
        let (b, c, d) = rest;
        let ghost post2 = *lua;
        proof {
            pre.lemma_conv_extends_trans(m1, *lua);
            assert(Self::from_lua_multi_spec(
                pre,
                vals0,
                post2,
                Ok::<Self, Error>((a, b, c, d)),
            )) by {
                assert(A::from_lua_spec(pre, first_or_nil(vals0), m1, Ok::<A, Error>(a)));
                assert(<(B, C, D) as FromLuaMulti>::from_lua_multi_spec(
                    m1,
                    rest_of(vals0),
                    post2,
                    Ok::<(B, C, D), Error>((b, c, d)),
                ));
                assert((a, b, c, d) == (a, (b, c, d).0, (b, c, d).1, (b, c, d).2));
            }
        }
        Ok((a, b, c, d))
    }
}

impl<A: IntoLua, B: IntoLua, C: IntoLua, D: IntoLuaMulti> IntoLuaMulti for (A, B, C, D) {
    open spec fn into_lua_multi_req(self, pre: Lua) -> bool {
        self.0.into_lua_req(pre) && self.1.into_lua_req(pre) && self.2.into_lua_req(pre)
            && self.3.into_lua_multi_req(pre)
    }

    /// Tuple return for four elements: the trailing element's values
    /// with the three leading values prepended, converted right to
    /// left. Higher arities follow the same scheme.
    open spec fn into_lua_multi_spec(
        self,
        pre: Lua,
        post: Lua,
        r: Result<Seq<Value>, Error>,
    ) -> bool {
        match r {
            Ok(vs) => exists|m1: Lua, va: Value, tail: Seq<Value>|
                #![all_triggers]
                {
                    &&& <(B, C, D) as IntoLuaMulti>::into_lua_multi_spec(
                        (self.1, self.2, self.3),
                        pre,
                        m1,
                        Ok(tail),
                    )
                    &&& self.0.into_lua_spec(m1, post, Ok(va))
                    &&& vs == seq![va] + tail
                },
            Err(e) => (exists|m1: Lua|
                #![all_triggers]
                <(B, C, D) as IntoLuaMulti>::into_lua_multi_spec(
                    (self.1, self.2, self.3),
                    pre,
                    m1,
                    Err(e),
                )) || (exists|m1: Lua, m2: Lua, tail: Seq<Value>|
                #![all_triggers]
                {
                    &&& <(B, C, D) as IntoLuaMulti>::into_lua_multi_spec(
                        (self.1, self.2, self.3),
                        pre,
                        m1,
                        Ok(tail),
                    )
                    &&& self.0.into_lua_spec(m1, m2, Err(e))
                }),
        }
    }

    fn into_lua_multi(self, lua: &mut Lua) -> (r: Result<MultiValue, Error>) {
        let ghost pre = *lua;
        let (a, b, c, d) = self;
        let mut mv = match (b, c, d).into_lua_multi(lua) {
            Ok(mv) => mv,
            Err(e) => {
                return Err(e);
            },
        };
        let ghost m1 = *lua;
        proof {
            a.into_lua_req_preserved(pre, m1);
        }
        let ghost tail = mv@;
        let va = match a.into_lua(lua) {
            Ok(v) => v,
            Err(e) => {
                proof {
                    pre.lemma_conv_extends_trans(m1, *lua);
                }
                return Err(e);
            },
        };
        mv.push_front(va);
        proof {
            pre.lemma_conv_extends_trans(m1, *lua);
            assert forall|k: int| 0 <= k < mv@.len() implies lua.owns(#[trigger] mv@[k]) by {
                if k > 0 {
                    assert(mv@[k] == tail[k - 1]);
                    m1.lemma_conv_extends_owns(*lua, tail[k - 1]);
                }
            }
            assert(mv@ =~= seq![va] + tail);
        }
        Ok(mv)
    }
}

impl<A: IntoLua, B: IntoLuaMulti> IntoLuaMulti for (A, B) {
    open spec fn into_lua_multi_req(self, pre: Lua) -> bool {
        self.0.into_lua_req(pre) && self.1.into_lua_multi_req(pre)
    }

    /// Tuple return: the trailing element's values, with the leading
    /// element's value prepended; the trailing element converts first,
    /// then the leading one, mirroring right-to-left composition.
    open spec fn into_lua_multi_spec(
        self,
        pre: Lua,
        post: Lua,
        r: Result<Seq<Value>, Error>,
    ) -> bool {
        match r {
            Ok(vs) => exists|m1: Lua, va: Value, tail: Seq<Value>|
                #![all_triggers]
                {
                    &&& self.1.into_lua_multi_spec(pre, m1, Ok(tail))
                    &&& self.0.into_lua_spec(m1, post, Ok(va))
                    &&& vs == seq![va] + tail
                },
            Err(e) => (exists|m1: Lua|
                #![all_triggers]
                self.1.into_lua_multi_spec(pre, m1, Err(e))) || (exists|
                m1: Lua,
                m2: Lua,
                tail: Seq<Value>,
            |
                #![all_triggers]
                {
                    &&& self.1.into_lua_multi_spec(pre, m1, Ok(tail))
                    &&& self.0.into_lua_spec(m1, m2, Err(e))
                }),
        }
    }

    fn into_lua_multi(self, lua: &mut Lua) -> (r: Result<MultiValue, Error>) {
        let ghost pre = *lua;
        let (a, b) = self;
        let mut mv = match b.into_lua_multi(lua) {
            Ok(mv) => mv,
            Err(e) => {
                return Err(e);
            },
        };
        let ghost m1 = *lua;
        proof {
            a.into_lua_req_preserved(pre, m1);
        }
        let ghost tail = mv@;
        let va = match a.into_lua(lua) {
            Ok(v) => v,
            Err(e) => {
                proof {
                    pre.lemma_conv_extends_trans(m1, *lua);
                }
                return Err(e);
            },
        };
        mv.push_front(va);
        proof {
            pre.lemma_conv_extends_trans(m1, *lua);
            assert forall|k: int| 0 <= k < mv@.len() implies lua.owns(#[trigger] mv@[k]) by {
                if k > 0 {
                    assert(mv@[k] == tail[k - 1]);
                    m1.lemma_conv_extends_owns(*lua, tail[k - 1]);
                }
            }
            assert(mv@ =~= seq![va] + tail);
        }
        Ok(mv)
    }
}

impl<A: IntoLua, B: IntoLua, C: IntoLuaMulti> IntoLuaMulti for (A, B, C) {
    open spec fn into_lua_multi_req(self, pre: Lua) -> bool {
        self.0.into_lua_req(pre) && self.1.into_lua_req(pre) && self.2.into_lua_multi_req(pre)
    }

    /// Tuple return for three elements: the trailing element's values
    /// with the two leading values prepended; conversion runs trailing
    /// element first, then the second, then the first.
    open spec fn into_lua_multi_spec(
        self,
        pre: Lua,
        post: Lua,
        r: Result<Seq<Value>, Error>,
    ) -> bool {
        match r {
            Ok(vs) => exists|m1: Lua, m2: Lua, va: Value, vb: Value, tail: Seq<Value>|
                #![all_triggers]
                {
                    &&& self.2.into_lua_multi_spec(pre, m1, Ok(tail))
                    &&& self.1.into_lua_spec(m1, m2, Ok(vb))
                    &&& self.0.into_lua_spec(m2, post, Ok(va))
                    &&& vs == seq![va, vb] + tail
                },
            Err(e) => {
                ||| (exists|m1: Lua|
                    #![all_triggers]
                    self.2.into_lua_multi_spec(pre, m1, Err(e)))
                ||| (exists|m1: Lua, m2: Lua, tail: Seq<Value>|
                    #![all_triggers]
                    {
                        &&& self.2.into_lua_multi_spec(pre, m1, Ok(tail))
                        &&& self.1.into_lua_spec(m1, m2, Err(e))
                    })
                ||| (exists|m1: Lua, m2: Lua, m3: Lua, vb: Value, tail: Seq<Value>|
                    #![all_triggers]
                    {
                        &&& self.2.into_lua_multi_spec(pre, m1, Ok(tail))
                        &&& self.1.into_lua_spec(m1, m2, Ok(vb))
                        &&& self.0.into_lua_spec(m2, m3, Err(e))
                    })
            },
        }
    }

    fn into_lua_multi(self, lua: &mut Lua) -> (r: Result<MultiValue, Error>) {
        let ghost pre = *lua;
        let (a, b, c) = self;
        let mut mv = match c.into_lua_multi(lua) {
            Ok(mv) => mv,
            Err(e) => {
                return Err(e);
            },
        };
        let ghost m1 = *lua;
        proof {
            b.into_lua_req_preserved(pre, m1);
        }
        let ghost tail = mv@;
        let vb = match b.into_lua(lua) {
            Ok(v) => v,
            Err(e) => {
                proof {
                    pre.lemma_conv_extends_trans(m1, *lua);
                }
                return Err(e);
            },
        };
        let ghost m2 = *lua;
        proof {
            a.into_lua_req_preserved(pre, m1);
            a.into_lua_req_preserved(m1, m2);
        }
        let va = match a.into_lua(lua) {
            Ok(v) => v,
            Err(e) => {
                proof {
                    pre.lemma_conv_extends_trans(m1, m2);
                    pre.lemma_conv_extends_trans(m2, *lua);
                }
                return Err(e);
            },
        };
        mv.push_front(vb);
        mv.push_front(va);
        proof {
            pre.lemma_conv_extends_trans(m1, m2);
            pre.lemma_conv_extends_trans(m2, *lua);
            assert forall|k: int| 0 <= k < mv@.len() implies lua.owns(#[trigger] mv@[k]) by {
                if k == 1 {
                    assert(mv@[k] == vb);
                    m2.lemma_conv_extends_owns(*lua, vb);
                } else if k > 1 {
                    assert(mv@[k] == tail[k - 2]);
                    m1.lemma_conv_extends_trans(m2, *lua);
                    m1.lemma_conv_extends_owns(*lua, tail[k - 2]);
                }
            }
            assert(mv@ =~= seq![va, vb] + tail);
        }
        Ok(mv)
    }
}

/// Wraps a variable number of host values of one type.
///
/// Used as the trailing element of an argument tuple, it accepts any
/// number of guest values and converts each; returned from a host
/// callback, it yields a variable number of guest values.
pub struct Variadic<T>(pub(crate) Vec<T>);

impl<T> Variadic<T> {
    /// The wrapped values, front to back.
    pub closed spec fn view_spec(self) -> Seq<T> {
        self.0@
    }

    /// Creates an empty wrapper containing no values.
    pub fn new() -> (r: Variadic<T>)
        ensures
            r.view_spec() == Seq::<T>::empty(),
    {
        let r = Variadic(Vec::new());
        proof {
            assert(r.view_spec() =~= Seq::<T>::empty());
        }
        r
    }

    /// Wraps a vector of values.
    pub fn from_vec(v: Vec<T>) -> (r: Variadic<T>)
        ensures
            r.view_spec() == v@,
    {
        Variadic(v)
    }

    /// Unwraps into the underlying vector.
    pub fn into_vec(self) -> (r: Vec<T>)
        ensures
            r@ == self.view_spec(),
    {
        self.0
    }

    /// Appends a value at the back.
    pub fn push(&mut self, value: T)
        ensures
            final(self).view_spec() == old(self).view_spec().push(value),
    {
        self.0.push(value);
    }

    /// Number of wrapped values.
    pub fn len(&self) -> (r: usize)
        ensures
            r == self.view_spec().len(),
    {
        self.0.len()
    }
}

impl<T: IntoLua> IntoLuaMulti for Variadic<T> {
    open spec fn into_lua_multi_req(self, pre: Lua) -> bool {
        forall|i: int|
            0 <= i < self.view_spec().len() ==> (#[trigger] self.view_spec()[i]).into_lua_req(
                pre,
            )
    }

    /// On success, the guest value at each position is the conversion
    /// of the wrapped value at that position, the conversions chained
    /// left to right from `pre`; on failure, the first failing value's
    /// error is reported after a chain of successful conversions.
    open spec fn into_lua_multi_spec(
        self,
        pre: Lua,
        post: Lua,
        r: Result<Seq<Value>, Error>,
    ) -> bool {
        match r {
            Ok(vs) => vs.len() == self.view_spec().len() && (exists|sts: Seq<Lua>|
                #![all_triggers]
                {
                    &&& sts[0] == pre
                    &&& into_chain(sts, self.view_spec(), vs, vs.len() as int)
                    &&& sts[vs.len() as int].conv_extends(post)
                }),
            Err(e) => exists|sts: Seq<Lua>, ws: Seq<Value>, k: int, l2: Lua|
                #![all_triggers]
                {
                    &&& 0 <= k < self.view_spec().len()
                    &&& sts[0] == pre
                    &&& into_chain(sts, self.view_spec(), ws, k)
                    &&& self.view_spec()[k].into_lua_spec(sts[k], l2, Err(e))
                    &&& l2.conv_extends(post)
                },
        }
    }

    #[verifier::loop_isolation(false)]
    fn into_lua_multi(self, lua: &mut Lua) -> (r: Result<MultiValue, Error>) {
        let ghost pre = *lua;
        let ghost items = self.view_spec();
        let ghost mut sts: Seq<Lua> = seq![pre];
        let mut vals: Vec<Value> = Vec::new();
        let mut rest = self.0;
        // Reverse so values can be moved out in forward order.
        let mut rev: Vec<T> = Vec::new();
        while rest.len() > 0
            invariant
                rest@.len() + rev@.len() == items.len(),
                forall|i: int| 0 <= i < rest@.len() ==> rest@[i] == items[i],
                forall|i: int| 0 <= i < rev@.len() ==> rev@[i] == items[items.len() - 1 - i],
            decreases rest@.len(),
        {
            let x = rest.pop().unwrap();
            rev.push(x);
        }
        while rev.len() > 0
            invariant
                pre.wf(),
                lua.wf(),
                pre.conv_extends(*lua),
                vals@.len() + rev@.len() == items.len(),
                forall|i: int|
                    0 <= i < rev@.len() ==> rev@[i] == items[items.len() - 1 - i],
                forall|i: int|
                    0 <= i < items.len() ==> (#[trigger] items[i]).into_lua_req(pre),
                forall|i: int| 0 <= i < vals@.len() ==> lua.owns(#[trigger] vals@[i]),
                sts.len() == vals@.len() + 1,
                sts[0] == pre,
                sts[vals@.len() as int] == *lua,
                into_chain(sts, items, vals@, vals@.len() as int),
            decreases rev@.len(),
        {
            let x = rev.pop().unwrap();
            let ghost idx = vals@.len() as int;
            let ghost l1 = *lua;
            proof {
                assert(x == items[idx]);
                assert(items[idx].into_lua_req(pre));
                x.into_lua_req_preserved(pre, *lua);
            }
            match x.into_lua(lua) {
                Ok(v) => {
                    vals.push(v);
                    proof {
                        let ghost prev_sts = sts;
                        sts = sts.push(*lua);
                        assert forall|k: int|
                            0 <= k < vals@.len() implies (#[trigger] items[k]).into_lua_spec(
                            sts[k],
                            sts[k + 1],
                            Ok(vals@[k]),
                        ) by {
                            if k == idx {
                                assert(sts[idx] == l1);
                                assert(items[idx].into_lua_spec(l1, *lua, Ok(vals@[idx])));
                            } else {
                                assert(sts[k] == prev_sts[k]);
                                assert(sts[k + 1] == prev_sts[k + 1]);
                            }
                        }
                        assert forall|i: int| 0 <= i < vals@.len() implies lua.owns(
                            #[trigger] vals@[i],
                        ) by {
                            if i < idx {
                                l1.lemma_conv_extends_owns(*lua, vals@[i]);
                            }
                        }
                        pre.lemma_conv_extends_trans(l1, *lua);
                    }
                },
                Err(e) => {
                    proof {
                        pre.lemma_conv_extends_trans(l1, *lua);
                        assert(exists|sts2: Seq<Lua>, ws: Seq<Value>, k: int, l2: Lua|
                            #![all_triggers]
                            {
                                &&& 0 <= k < items.len()
                                &&& sts2[0] == pre
                                &&& into_chain(sts2, items, ws, k)
                                &&& items[k].into_lua_spec(sts2[k], l2, Err(e))
                                &&& l2.conv_extends(*lua)
                            }) by {
                            assert(sts[0] == pre);
                            assert(into_chain(sts, items, vals@, idx));
                            assert(items[idx].into_lua_spec(sts[idx], *lua, Err::<
                                Value,
                                Error,
                            >(e)));
                            lua.lemma_conv_extends_trans(*lua, *lua);
                        }
                    }
                    return Err(e);
                },
            }
        }
        let mv = MultiValue::from_vec(vals);
        proof {
            assert(exists|sts2: Seq<Lua>|
                #![all_triggers]
                {
                    &&& sts2[0] == pre
                    &&& into_chain(sts2, items, mv@, mv@.len() as int)
                    &&& sts2[mv@.len() as int].conv_extends(*lua)
                }) by {
                assert(mv@ == vals@);
                assert(sts[0] == pre);
                assert(into_chain(sts, items, mv@, mv@.len() as int));
                assert(sts[mv@.len() as int] == *lua);
                lua.lemma_conv_extends_trans(*lua, *lua);
            }
        }
        Ok(mv)
    }
}

impl<T: FromLua> FromLuaMulti for Variadic<T> {
    /// Every offered guest value is consumed (the variadic trailing
    /// parameter): on success, the host value at each position is the
    /// conversion of the guest value at that position, the conversions
    /// chained left to right from `pre`; on failure, the first failing
    /// value's error is reported after a chain of successful
    /// conversions.
    open spec fn from_lua_multi_spec(
        pre: Lua,
        vals: Seq<Value>,
        post: Lua,
        r: Result<Self, Error>,
    ) -> bool {
        match r {
            Ok(var) => var.view_spec().len() == vals.len() && (exists|sts: Seq<Lua>|
                #![all_triggers]
                {
                    &&& sts[0] == pre
                    &&& from_chain(sts, vals, var.view_spec(), vals.len() as int)
                    &&& sts[vals.len() as int].conv_extends(post)
                }),
            Err(e) => exists|sts: Seq<Lua>, ws: Seq<T>, k: int, l2: Lua|
                #![all_triggers]
                {
                    &&& 0 <= k < vals.len()
                    &&& sts[0] == pre
                    &&& from_chain(sts, vals, ws, k)
                    &&& T::from_lua_spec(sts[k], vals[k], l2, Err(e))
                    &&& l2.conv_extends(post)
                },
        }
    }

    #[verifier::loop_isolation(false)]
    fn from_lua_multi(values: MultiValue, lua: &mut Lua) -> (r: Result<Self, Error>) {
        let ghost pre = *lua;
        let ghost vals0 = values@;
        let ghost mut sts: Seq<Lua> = seq![pre];
        let mut values = values;
        let mut out: Vec<T> = Vec::new();
        loop
            invariant
                pre.wf(),
                lua.wf(),
                pre.conv_extends(*lua),
                out@.len() + values@.len() == vals0.len(),
                values@ == vals0.skip(out@.len() as int),
                forall|i: int| 0 <= i < vals0.len() ==> pre.owns(#[trigger] vals0[i]),
                sts.len() == out@.len() + 1,
                sts[0] == pre,
                sts[out@.len() as int] == *lua,
                from_chain(sts, vals0, out@, out@.len() as int),
            decreases values@.len(),
        {
            let ghost idx = out@.len() as int;
            let front = match values.pop_front() {
                Some(v) => v,
                None => {
                    break;
                },
            };
            let ghost l1 = *lua;
            proof {
                assert(front == vals0[idx]);
                assert(pre.owns(vals0[idx]));
                pre.lemma_conv_extends_owns(l1, front);
                assert(values@ =~= vals0.skip(idx + 1));
            }
            match T::from_lua(front, lua) {
                Ok(x) => {
                    out.push(x);
                    proof {
                        let ghost prev_sts = sts;
                        sts = sts.push(*lua);
                        assert forall|k: int|
                            0 <= k < out@.len() implies T::from_lua_spec(
                            sts[k],
                            #[trigger] vals0[k],
                            sts[k + 1],
                            Ok(out@[k]),
                        ) by {
                            if k == idx {
                                assert(sts[idx] == l1);
                                assert(T::from_lua_spec(l1, vals0[idx], *lua, Ok(out@[idx])));
                            } else {
                                assert(sts[k] == prev_sts[k]);
                                assert(sts[k + 1] == prev_sts[k + 1]);
                            }
                        }
                        pre.lemma_conv_extends_trans(l1, *lua);
                    }
                },
                Err(e) => {
                    let ghost l2 = *lua;
                    lua.return_multivalue_to_pool(values);
                    proof {
                        assert(T::from_lua_spec(l1, vals0[idx], l2, Err::<T, Error>(e)));
                        pre.lemma_conv_extends_trans(l1, l2);
                        pre.lemma_conv_extends_trans(l2, *lua);
                        assert(exists|sts2: Seq<Lua>, ws: Seq<T>, k: int, lx: Lua|
                            #![all_triggers]
                            {
                                &&& 0 <= k < vals0.len()
                                &&& sts2[0] == pre
                                &&& from_chain(sts2, vals0, ws, k)
                                &&& T::from_lua_spec(sts2[k], vals0[k], lx, Err(e))
                                &&& lx.conv_extends(*lua)
                            }) by {
                            assert(sts[0] == pre);
                            assert(from_chain(sts, vals0, out@, idx));
                            assert(T::from_lua_spec(sts[idx], vals0[idx], l2, Err::<
                                T,
                                Error,
                            >(e)));
                            l2.lemma_conv_extends_trans(*lua, *lua);
                        }
                    }
                    return Err(e);
                },
            }
        }
        let ghost l3 = *lua;
        lua.return_multivalue_to_pool(values);
        proof {
            pre.lemma_conv_extends_trans(l3, *lua);
            assert(vals0.skip(0) =~= vals0);
            assert(exists|sts2: Seq<Lua>|
                #![all_triggers]
                {
                    &&& sts2[0] == pre
                    &&& from_chain(sts2, vals0, out@, vals0.len() as int)
                    &&& sts2[vals0.len() as int].conv_extends(*lua)
                }) by {
                assert(sts[0] == pre);
                assert(out@.len() == vals0.len());
                assert(from_chain(sts, vals0, out@, vals0.len() as int));
                assert(sts[vals0.len() as int] == l3);
                assert(l3.conv_extends(*lua));
            }
        }
        Ok(Variadic(out))
    }
}

} // verus!
