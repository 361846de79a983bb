//! Laws of the conversion protocol, stated and proved over the
//! specifications that the executable conversions are verified against.
use vstd::prelude::*;
use vstd::utf8::encode_utf8;
use crate::conversion::{integer_coercion, FromLua, IntoLua};
use crate::error::Error;
use crate::multi::{first_or_nil, rest_of, FromLuaMulti, IntoLuaMulti};
use crate::multivalue::MultiValue;
use crate::runtime::{find_method_idx, Lua, MethodKind};
use crate::value::{AnyUserData, Function};
use crate::value::{is_truthy, LuaString, Value};

verus! {

/// Round trip for booleans: converting a host boolean to a guest value
/// and back yields the same boolean, and converting a guest boolean to
/// the host and back yields the same guest value.
pub proof fn lemma_round_trip_bool(
    x: bool,
    v: Value,
    l0: Lua,
    l1: Lua,
    l2: Lua,
    back: Result<bool, Error>,
)
    requires
        x.into_lua_spec(l0, l1, Ok(v)),
        <bool as FromLua>::from_lua_spec(l1, v, l2, back),
    ensures
        back == Ok::<bool, Error>(x),
{
}

/// Round trip for guest booleans through the host: a guest boolean
/// converts to the host boolean it denotes, and that boolean converts
/// back to the very same guest value.
pub proof fn lemma_round_trip_guest_bool(
    v: Value,
    b: bool,
    l0: Lua,
    l1: Lua,
    l2: Lua,
    fwd: Result<Value, Error>,
)
    requires
        v is Boolean,
        <bool as FromLua>::from_lua_spec(l0, v, l1, Ok(b)),
        b.into_lua_spec(l1, l2, fwd),
    ensures
        fwd == Ok::<Value, Error>(v),
{
}

/// Round trip for guest integers: a host integer becomes the guest
/// integer of the same value and converts back unchanged.
pub proof fn lemma_round_trip_i64(
    x: i64,
    v: Value,
    l0: Lua,
    l1: Lua,
    l2: Lua,
    back: Result<i64, Error>,
)
    requires
        x.into_lua_spec(l0, l1, Ok(v)),
        <i64 as FromLua>::from_lua_spec(l1, v, l2, back),
    ensures
        back == Ok::<i64, Error>(x),
{
    assert(v == Value::Integer(x));
    assert(integer_coercion(l1, v) == Some(x));
}

/// Round trip for a narrowing integer target: a small host integer
/// becomes the guest integer of the same value and converts back
/// unchanged. Every other integer width carries the same range contract
/// and obeys the same law by the same argument.
pub proof fn lemma_round_trip_u8(
    x: u8,
    v: Value,
    l0: Lua,
    l1: Lua,
    l2: Lua,
    back: Result<u8, Error>,
)
    requires
        x.into_lua_spec(l0, l1, Ok(v)),
        <u8 as FromLua>::from_lua_spec(l1, v, l2, back),
    ensures
        back == Ok::<u8, Error>(x),
{
    assert(v == Value::Integer(x as i64));
    assert(integer_coercion(l1, v) == Some(x as i64));
}

/// Round trip for guest-integer values through the host integer type.
pub proof fn lemma_round_trip_guest_i64(
    v: Value,
    x: i64,
    l0: Lua,
    l1: Lua,
    l2: Lua,
    fwd: Result<Value, Error>,
)
    requires
        v is Integer,
        <i64 as FromLua>::from_lua_spec(l0, v, l1, Ok(x)),
        x.into_lua_spec(l1, l2, fwd),
    ensures
        fwd == Ok::<Value, Error>(v),
{
    assert(integer_coercion(l0, v) == Some(v->Integer_0));
}

/// Round trip for host text: interning a host string and reading it
/// back yields text with the same characters.
pub proof fn lemma_round_trip_string(
    x: String,
    v: Value,
    l0: Lua,
    l1: Lua,
    l2: Lua,
    back: Result<String, Error>,
)
    requires
        x.into_lua_spec(l0, l1, Ok(v)),
        <String as FromLua>::from_lua_spec(l1, v, l2, back),
    ensures
        back matches Ok(s) && encode_utf8(s@) == encode_utf8(x@),
{
    let h = v->String_0;
    assert(l1.str_bytes(h) == encode_utf8(x@));
    vstd::utf8::encode_utf8_valid_utf8(x@);
}

/// Round trip for guest strings through the guest-string handle type:
/// the handle converts to itself in both directions.
pub proof fn lemma_round_trip_guest_string(
    v: Value,
    h: LuaString,
    l0: Lua,
    l1: Lua,
    l2: Lua,
    fwd: Result<Value, Error>,
)
    requires
        v is String,
        <LuaString as FromLua>::from_lua_spec(l0, v, l1, Ok(h)),
        h.into_lua_spec(l1, l2, fwd),
    ensures
        fwd == Ok::<Value, Error>(v),
{
}

/// Truthiness law: the boolean target yields false exactly for nil and
/// guest false; every other value — integer zero, number zero and the
/// empty string included — yields true, and the conversion never fails.
pub proof fn lemma_truthiness(v: Value, l0: Lua, l1: Lua, r: Result<bool, Error>)
    requires
        <bool as FromLua>::from_lua_spec(l0, v, l1, r),
    ensures
        r == Ok::<bool, Error>(is_truthy(v)),
        r == Ok::<bool, Error>(false) <==> (v is Nil || v == Value::Boolean(false)),
{
}

/// Result encoding law, success side: the to-guest multi-value of a
/// success payload is the one-element list holding the payload's guest
/// value.
pub proof fn lemma_result_encoding_ok<T: IntoLua, E: IntoLua>(
    t: T,
    l0: Lua,
    l1: Lua,
    vs: Seq<Value>,
)
    requires
        <Result<T, E> as IntoLuaMulti>::into_lua_multi_spec(Ok(t), l0, l1, Ok(vs)),
    ensures
        vs.len() == 1,
        exists|mid: Lua| #![all_triggers] T::into_lua_spec(t, l0, mid, Ok(vs[0])),
{
    let (mid, v) = choose|mid: Lua, v: Value|
        #![all_triggers]
        {
            &&& t.into_lua_spec(l0, mid, Ok(v))
            &&& vs == seq![v]
        };
    assert(vs[0] == v);
    assert(t.into_lua_spec(l0, mid, Ok(vs[0])));
}

/// Result encoding law, failure side: the to-guest multi-value of a
/// failure payload is the two-element list nil-then-payload, in
/// front-to-back order.
pub proof fn lemma_result_encoding_err<T: IntoLua, E: IntoLua>(
    e: E,
    l0: Lua,
    l1: Lua,
    vs: Seq<Value>,
)
    requires
        <Result<T, E> as IntoLuaMulti>::into_lua_multi_spec(Err(e), l0, l1, Ok(vs)),
    ensures
        vs.len() == 2,
        vs[0] == Value::Nil,
        exists|mid: Lua| #![all_triggers] E::into_lua_spec(e, l0, mid, Ok(vs[1])),
{
    let (mid, v) = choose|mid: Lua, v: Value|
        #![all_triggers]
        {
            &&& e.into_lua_spec(l0, mid, Ok(v))
            &&& vs == seq![Value::Nil, v]
        };
    assert(vs[1] == v);
    assert(e.into_lua_spec(l0, mid, Ok(vs[1])));
}

/// Tuple threading law: a three-element tuple whose trailing element is
/// itself multi-valued consumes exactly one front value for each of the
/// first two elements — nil when the list runs out early — and hands
/// every remaining value to the trailing element.
pub proof fn lemma_tuple_threading<A: FromLua, B: FromLua, C: FromLuaMulti>(
    vals: Seq<Value>,
    l0: Lua,
    l1: Lua,
    a: A,
    b: B,
    c: C,
)
    requires
        <(A, B, C) as FromLuaMulti>::from_lua_multi_spec(l0, vals, l1, Ok((a, b, c))),
    ensures
        exists|m1: Lua, m2: Lua|
            #![all_triggers]
            {
                &&& A::from_lua_spec(l0, first_or_nil(vals), m1, Ok(a))
                &&& B::from_lua_spec(m1, first_or_nil(rest_of(vals)), m2, Ok(b))
                &&& C::from_lua_multi_spec(m2, rest_of(rest_of(vals)), l1, Ok(c))
            },
        vals.len() == 0 ==> first_or_nil(vals) == Value::Nil && first_or_nil(rest_of(vals))
            == Value::Nil && rest_of(rest_of(vals)) == Seq::<Value>::empty(),
{
    let (m1, m2, a2, b2, c2) = choose|m1: Lua, m2: Lua, a2: A, b2: B, c2: C|
        #![all_triggers]
        {
            &&& (a, b, c) == (a2, b2, c2)
            &&& A::from_lua_spec(l0, first_or_nil(vals), m1, Ok(a2))
            &&& B::from_lua_spec(m1, first_or_nil(rest_of(vals)), m2, Ok(b2))
            &&& C::from_lua_multi_spec(m2, rest_of(rest_of(vals)), l1, Ok(c2))
        };
    assert(a2 == a && b2 == b && c2 == c);
    assert(A::from_lua_spec(l0, first_or_nil(vals), m1, Ok(a)));
    assert(B::from_lua_spec(m1, first_or_nil(rest_of(vals)), m2, Ok(b)));
    assert(C::from_lua_multi_spec(m2, rest_of(rest_of(vals)), l1, Ok(c)));
    if vals.len() == 0 {
        assert(rest_of(rest_of(vals)) =~= Seq::<Value>::empty());
    }
}

/// Sequential calls through one callback handle compose: a live,
/// non-re-entered callback starts, finishes and starts again, yielding
/// the same host callback key both times — the repeated-call shape of
/// the boundary's end-to-end scenario, written as a verified driver.
pub fn drive_callback_twice(lua: &mut Lua, f: Function) -> (r: Result<(usize, usize), Error>)
    requires
        old(lua).wf(),
        old(lua).valid_fn(f),
    ensures
        final(lua).wf(),
        (!old(lua).fn_released(f) && !(old(lua).fn_mutable(f) && old(lua).fn_busy(f))) ==> (r
            matches Ok(ks) && ks.0 == old(lua).fn_callback(f) as usize && ks.1 == ks.0),
{
    let ghost l0 = *lua;
    let k1 = match lua.start_callback_call(f) {
        Ok(k) => k,
        Err(e) => {
            proof {
                if !l0.fn_released(f) && !(l0.fn_mutable(f) && l0.fn_busy(f)) {
                    assert(l0.callback_call_error(f) is None);
                    assert(false);
                }
            }
            return Err(e);
        },
    };
    proof {
        if !l0.fn_released(f) && !(l0.fn_mutable(f) && l0.fn_busy(f)) {
            assert(l0.callback_call_error(f) is None);
            assert(k1 == l0.fn_callback(f) as usize);
        }
    }
    lua.finish_callback_call(f);
    let ghost l2 = *lua;
    proof {
        if !l0.fn_released(f) && !(l0.fn_mutable(f) && l0.fn_busy(f)) {
            assert(!l2.fn_released(f));
            assert(!l2.fn_busy(f));
            assert(l2.fn_callback(f) == l0.fn_callback(f));
        }
    }
    let k2 = match lua.start_callback_call(f) {
        Ok(k) => k,
        Err(e) => {
            proof {
                if !l0.fn_released(f) && !(l0.fn_mutable(f) && l0.fn_busy(f)) {
                    assert(!l2.fn_released(f));
                    assert(!l2.fn_busy(f));
                    assert(l2.callback_call_error(f) is None);
                    assert(false);
                }
            }
            return Err(e);
        },
    };
    proof {
        if !l0.fn_released(f) && !(l0.fn_mutable(f) && l0.fn_busy(f)) {
            assert(l2.callback_call_error(f) is None);
            assert(k2 == l2.fn_callback(f) as usize);
        }
    }
    lua.finish_callback_call(f);
    Ok((k1, k2))
}

/// Sequential method calls through one opaque object compose: a live
/// exclusive-borrow method whose receiver is presented correctly
/// dispatches, finishes and dispatches again, yielding the same host
/// callback key both times — the two sequential guest calls of the
/// boundary's end-to-end scenario, written as a verified driver.
pub fn drive_method_twice(
    lua: &mut Lua,
    target: AnyUserData,
    name: &String,
    args1: MultiValue,
    args2: MultiValue,
) -> (r: Result<(usize, usize), Error>)
    requires
        old(lua).wf(),
        old(lua).valid_ud(target),
        old(lua).owns_all(args1@),
        old(lua).owns_all(args2@),
        find_method_idx(old(lua).ud_methods(target), name@) is Some,
        args1@.len() > 0 && args1@[0] == Value::UserData(target),
        args2@.len() > 0 && args2@[0] == Value::UserData(target),
    ensures
        final(lua).wf(),
        ({
            let entries = old(lua).ud_methods(target);
            let entry = entries[find_method_idx(entries, name@)->Some_0];
            (!old(lua).ud_released(target) && entry.kind == MethodKind::MethodMut && !entry.busy
                && old(lua).ud_cell_kind(target) != crate::runtime::CellKind::SharedRef && old(
                lua,
            ).ud_borrow(target) == crate::runtime::BorrowState::Unborrowed) ==> (r matches Ok(ks)
                && ks.0 == entry.callback && ks.1 == ks.0)
        }),
{
    let ghost l0 = *lua;
    let ghost entries0 = old(lua).ud_methods(target);
    let mut args1 = args1;
    let k1 = match lua.start_method_call(target, name, &mut args1) {
        Ok(k) => k,
        Err(e) => {
            return Err(e);
        },
    };
    proof {
        crate::runtime::lemma_find_method_idx_props(entries0, name@);
    }
    lua.finish_method_call(target, name);
    let ghost l2 = *lua;
    proof {
        crate::runtime::lemma_find_method_idx_props(l2.ud_methods(target), name@);
        assert forall|k: int| 0 <= k < args2@.len() implies l2.owns(#[trigger] args2@[k]) by {
            assert(l0.owns(args2@[k]));
            match args2@[k] {
                Value::String(h) => {
                    let _b = l0.str_bytes(h);
                },
                Value::Table(t) => {
                    let _t = l0.table_seq(t);
                },
                Value::Function(g) => {
                    let _c = l0.fn_callback(g);
                },
                Value::UserData(w) => {
                    let _r = l0.ud_released(w);
                    let _k = l0.ud_cell_kind(w);
                },
                _ => {},
            }
        }
    }
    let mut args2 = args2;
    let k2 = match lua.start_method_call(target, name, &mut args2) {
        Ok(k) => k,
        Err(e) => {
            return Err(e);
        },
    };
    lua.finish_method_call(target, name);
    Ok((k1, k2))
}

} // verus!
