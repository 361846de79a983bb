//! The paired single-value conversion protocol: to-guest and from-guest.
//!
//! [`IntoLua`] converts a host value into a guest [`Value`]; it may fail,
//! for instance on numeric overflow when narrowing. [`FromLua`] converts a
//! guest value into a host value; it may fail on a kind mismatch or an
//! out-of-range narrowing. Numeric targets accept a guest integer or
//! number directly and otherwise try the guest's built-in text-to-number
//! coercion; string targets accept a guest string or a number coerced to
//! its textual guest form; the boolean target follows guest truthiness,
//! under which zero and the empty string are true.
//!
//! Every implementation carries its exact contract in its
//! `into_lua_spec` / `from_lua_spec` function; the trait ties each
//! executable conversion to that specification.
use vstd::prelude::*;
use vstd::slice::slice_to_vec;
use vstd::utf8::{encode_utf8, valid_utf8};
use crate::cast::{
    cast_i64_to_i8, cast_i64_to_u8, cast_i64_to_i16, cast_i64_to_u16, cast_i64_to_i32,
    cast_i64_to_u32, cast_i64_to_u64, cast_i64_to_usize, cast_i64_to_isize, cast_i128_to_i64,
    cast_u128_to_i64, cast_u64_to_i64, cast_usize_to_i64,
};
use crate::error::Error;
use crate::numbits::{nb_is_finite, nb_trunc, nb_trunc_i64};
use crate::runtime::Lua;
use crate::text::text_int;
use crate::value::{
    is_truthy, AnyUserData, Function, LightUserData, LuaString, Table, Thread, Value,
};

verus! {

/// The error is a from-guest conversion failure with the given source
/// kind tag, target type name and optional detail.
pub open spec fn is_from_err(
    e: Error,
    from: Seq<char>,
    to: Seq<char>,
    msg: Option<Seq<char>>,
) -> bool {
    match e {
        Error::FromLuaConversionError { from: f, to: t, message: m } => {
            &&& f@ == from
            &&& t@ == to
            &&& match (m, msg) {
                (None, None) => true,
                (Some(s), Some(q)) => s@ == q,
                _ => false,
            }
        },
        _ => false,
    }
}

/// Trait for host types convertible to a single guest value.
pub trait IntoLua: Sized {
    /// Precondition of the conversion (handle types must belong to the
    /// runtime they are handed to).
    spec fn into_lua_req(self, pre: Lua) -> bool;

    /// Exact relation between the runtime before and after the
    /// conversion and its outcome.
    spec fn into_lua_spec(self, pre: Lua, post: Lua, r: Result<Value, Error>) -> bool;

    /// Performs the conversion.
    fn into_lua(self, lua: &mut Lua) -> (r: Result<Value, Error>)
        requires
            old(lua).wf(),
            self.into_lua_req(*old(lua)),
        ensures
            final(lua).wf(),
            old(lua).conv_extends(*final(lua)),
            r matches Ok(v) ==> final(lua).owns(v),
            self.into_lua_spec(*old(lua), *final(lua), r),
    ;

    /// The conversion's precondition survives any pure-conversion step
    /// of the runtime.
    proof fn into_lua_req_preserved(self, pre: Lua, post: Lua)
        requires
            self.into_lua_req(pre),
            pre.conv_extends(post),
        ensures
            self.into_lua_req(post),
    ;
}

/// Trait for host types convertible from a single guest value.
pub trait FromLua: Sized {
    /// Exact relation between the offered guest value, the runtime before
    /// and after the conversion, and its outcome.
    spec fn from_lua_spec(pre: Lua, v: Value, post: Lua, r: Result<Self, Error>) -> bool;

    /// Performs the conversion.
    fn from_lua(value: Value, lua: &mut Lua) -> (r: Result<Self, Error>)
        requires
            old(lua).wf(),
            old(lua).owns(value),
        ensures
            final(lua).wf(),
            old(lua).conv_extends(*final(lua)),
            Self::from_lua_spec(*old(lua), value, *final(lua), r),
    ;

    /// Performs the conversion for a call argument: a failure is wrapped
    /// as an argument-position error carrying the one-based position and,
    /// when known, the called function's name.
    fn from_lua_arg(value: Value, i: usize, to: Option<&str>, lua: &mut Lua) -> (r: Result<
        Self,
        Error,
    >)
        requires
            old(lua).wf(),
            old(lua).owns(value),
        ensures
            final(lua).wf(),
            old(lua).conv_extends(*final(lua)),
            match r {
                Ok(x) => Self::from_lua_spec(*old(lua), value, *final(lua), Ok(x)),
                Err(e) => e matches Error::BadArgument { to: t, pos, name, cause } && (pos == i
                    && name is None && Self::from_lua_spec(
                    *old(lua),
                    value,
                    *final(lua),
                    Err(*cause),
                ) && (match (t, to) {
                    (Some(s), Some(s0)) => s@ == s0@,
                    (None, None) => true,
                    _ => false,
                })),
            },
    {
        match Self::from_lua(value, lua) {
            Ok(x) => Ok(x),
            Err(e) => Err(Error::BadArgument {
                to: match to {
                    Some(s) => Some(s.to_owned()),
                    None => None,
                },
                pos: i,
                name: None,
                cause: Box::new(e),
            }),
        }
    }
}

impl IntoLua for Value {
    open spec fn into_lua_req(self, pre: Lua) -> bool {
        pre.owns(self)
    }

    proof fn into_lua_req_preserved(self, pre: Lua, post: Lua) {
        match self {
            Value::String(h) => {
                let _b = pre.str_bytes(h);
            },
            Value::Table(t) => {
                let _t = pre.table_seq(t);
            },
            Value::Function(f) => {
                let _c = pre.fn_callback(f);
            },
            Value::UserData(u) => {
                let _r = pre.ud_released(u);
            },
            _ => {},
        }
    }

    open spec fn into_lua_spec(self, pre: Lua, post: Lua, r: Result<Value, Error>) -> bool {
        post == pre && r == Ok::<Value, Error>(self)
    }

    fn into_lua(self, lua: &mut Lua) -> (r: Result<Value, Error>) {
        Ok(self)
    }
}

impl FromLua for Value {
    open spec fn from_lua_spec(pre: Lua, v: Value, post: Lua, r: Result<Self, Error>) -> bool {
        post == pre && r == Ok::<Value, Error>(v)
    }

    fn from_lua(value: Value, lua: &mut Lua) -> (r: Result<Self, Error>) {
        Ok(value)
    }
}

impl IntoLua for bool {
    open spec fn into_lua_req(self, pre: Lua) -> bool {
        true
    }

    proof fn into_lua_req_preserved(self, pre: Lua, post: Lua) {
    }

    open spec fn into_lua_spec(self, pre: Lua, post: Lua, r: Result<Value, Error>) -> bool {
        post == pre && r == Ok::<Value, Error>(Value::Boolean(self))
    }

    fn into_lua(self, lua: &mut Lua) -> (r: Result<Value, Error>) {
        Ok(Value::Boolean(self))
    }
}

impl FromLua for bool {
    /// Guest truthiness: only nil and false convert to false; every
    /// other value — integer zero, number zero and the empty string
    /// included — converts to true. The conversion never fails.
    open spec fn from_lua_spec(pre: Lua, v: Value, post: Lua, r: Result<Self, Error>) -> bool {
        post == pre && r == Ok::<bool, Error>(is_truthy(v))
    }

    fn from_lua(value: Value, lua: &mut Lua) -> (r: Result<Self, Error>) {
        match value {
            Value::Nil => Ok(false),
            Value::Boolean(b) => Ok(b),
            _ => Ok(true),
        }
    }
}

impl IntoLua for LightUserData {
    open spec fn into_lua_req(self, pre: Lua) -> bool {
        true
    }

    proof fn into_lua_req_preserved(self, pre: Lua, post: Lua) {
    }

    open spec fn into_lua_spec(self, pre: Lua, post: Lua, r: Result<Value, Error>) -> bool {
        post == pre && r == Ok::<Value, Error>(Value::LightUserData(self))
    }

    fn into_lua(self, lua: &mut Lua) -> (r: Result<Value, Error>) {
        Ok(Value::LightUserData(self))
    }
}

impl FromLua for LightUserData {
    open spec fn from_lua_spec(pre: Lua, v: Value, post: Lua, r: Result<Self, Error>) -> bool {
        &&& post == pre
        &&& match v {
            Value::LightUserData(p) => r == Ok::<LightUserData, Error>(p),
            _ => r matches Err(e) && is_from_err(
                e,
                v.kind_name_spec(),
                "light userdata"@,
                None,
            ),
        }
    }

    fn from_lua(value: Value, lua: &mut Lua) -> (r: Result<Self, Error>) {
        match value {
            Value::LightUserData(p) => Ok(p),
            _ => Err(Error::FromLuaConversionError {
                from: value.kind_name(),
                to: "light userdata",
                message: None,
            }),
        }
    }
}

/// The guest integer a value converts to for an integer-typed host
/// target: a guest integer directly, a guest number by truncation toward
/// zero when it fits the guest integer range, a guest string through the
/// built-in text coercion; nothing else converts.
pub open spec fn integer_coercion(pre: Lua, v: Value) -> Option<i64> {
    match v {
        Value::Integer(i) => Some(i),
        Value::Number(b) => if nb_is_finite(b) && i64::MIN <= nb_trunc(b) <= i64::MAX {
            Some(nb_trunc(b) as i64)
        } else {
            None
        },
        Value::String(h) => text_int(pre.str_bytes(h)),
        _ => None,
    }
}

/// The outcome an integer-typed host target owes for a guest value:
/// the coerced guest integer when it exists and fits the target range,
/// an out-of-range failure when it exists and does not fit, and a
/// kind-mismatch failure when no integer can be coerced at all.
pub open spec fn int_target_spec(
    pre: Lua,
    v: Value,
    lo: int,
    hi: int,
    to: Seq<char>,
    r: Option<i64>,
    err: Option<Error>,
) -> bool {
    match integer_coercion(pre, v) {
        Some(i) => if lo <= i <= hi {
            r == Some(i) && err is None
        } else {
            r is None && (err matches Some(e) && is_from_err(
                e,
                v.kind_name_spec(),
                to,
                Some("out of range"@),
            ))
        },
        None => r is None && (err matches Some(e) && is_from_err(
            e,
            v.kind_name_spec(),
            to,
            Some("expected number or string coercible to number"@),
        )),
    }
}

/// Coerces a guest value to the guest integer an integer-typed target
/// starts from, following [`integer_coercion`].
fn coerce_int_value(value: &Value, lua: &Lua) -> (r: Option<i64>)
    requires
        lua.owns(*value),
    ensures
        r == integer_coercion(*lua, *value),
{
    match value {
        Value::Integer(i) => Some(*i),
        Value::Number(b) => nb_trunc_i64(*b),
        Value::String(h) => crate::text::parse_i64(lua.string_as_bytes(*h)),
        _ => None,
    }
}

/// Builds the failure an integer-typed target reports.
fn int_target_err(value: &Value, to: &'static str, had_integer: bool) -> (e: Error)
    ensures
        is_from_err(
            e,
            value.kind_name_spec(),
            to@,
            Some(
                if had_integer {
                    "out of range"@
                } else {
                    "expected number or string coercible to number"@
                },
            ),
        ),
{
    let message: String = if had_integer {
        "out of range".to_owned()
    } else {
        "expected number or string coercible to number".to_owned()
    };
    Error::FromLuaConversionError { from: value.kind_name(), to, message: Some(message) }
}

impl IntoLua for i64 {
    open spec fn into_lua_req(self, pre: Lua) -> bool {
        true
    }

    proof fn into_lua_req_preserved(self, pre: Lua, post: Lua) {
    }

    open spec fn into_lua_spec(self, pre: Lua, post: Lua, r: Result<Value, Error>) -> bool {
        post == pre && r == Ok::<Value, Error>(Value::Integer(self))
    }

    fn into_lua(self, lua: &mut Lua) -> (r: Result<Value, Error>) {
        Ok(Value::Integer(self))
    }
}

impl FromLua for i64 {
    open spec fn from_lua_spec(pre: Lua, v: Value, post: Lua, r: Result<Self, Error>) -> bool {
        &&& post == pre
        &&& match r {
            Ok(i) => int_target_spec(pre, v, i64::MIN as int, i64::MAX as int, "i64"@, Some(i), None),
            Err(e) => int_target_spec(pre, v, i64::MIN as int, i64::MAX as int, "i64"@, None, Some(e)),
        }
    }

    fn from_lua(value: Value, lua: &mut Lua) -> (r: Result<Self, Error>) {
        match coerce_int_value(&value, lua) {
            Some(i) => Ok(i),
            None => Err(int_target_err(&value, "i64", false)),
        }
    }
}

impl IntoLua for i32 {
    open spec fn into_lua_req(self, pre: Lua) -> bool {
        true
    }

    proof fn into_lua_req_preserved(self, pre: Lua, post: Lua) {
    }

    open spec fn into_lua_spec(self, pre: Lua, post: Lua, r: Result<Value, Error>) -> bool {
        post == pre && r == Ok::<Value, Error>(Value::Integer(self as i64))
    }

    fn into_lua(self, lua: &mut Lua) -> (r: Result<Value, Error>) {
        Ok(Value::Integer(self as i64))
    }
}

impl FromLua for i32 {
    open spec fn from_lua_spec(pre: Lua, v: Value, post: Lua, r: Result<Self, Error>) -> bool {
        &&& post == pre
        &&& match r {
            Ok(i) => int_target_spec(pre, v, i32::MIN as int, i32::MAX as int, "i32"@, Some(i as i64), None),
            Err(e) => int_target_spec(pre, v, i32::MIN as int, i32::MAX as int, "i32"@, None, Some(e)),
        }
    }

    fn from_lua(value: Value, lua: &mut Lua) -> (r: Result<Self, Error>) {
        match coerce_int_value(&value, lua) {
            Some(i) => match cast_i64_to_i32(i) {
                Some(x) => Ok(x),
                None => Err(int_target_err(&value, "i32", true)),
            },
            None => Err(int_target_err(&value, "i32", false)),
        }
    }
}

impl IntoLua for u32 {
    open spec fn into_lua_req(self, pre: Lua) -> bool {
        true
    }

    proof fn into_lua_req_preserved(self, pre: Lua, post: Lua) {
    }

    open spec fn into_lua_spec(self, pre: Lua, post: Lua, r: Result<Value, Error>) -> bool {
        post == pre && r == Ok::<Value, Error>(Value::Integer(self as i64))
    }

    fn into_lua(self, lua: &mut Lua) -> (r: Result<Value, Error>) {
        Ok(Value::Integer(self as i64))
    }
}

impl FromLua for u32 {
    open spec fn from_lua_spec(pre: Lua, v: Value, post: Lua, r: Result<Self, Error>) -> bool {
        &&& post == pre
        &&& match r {
            Ok(i) => int_target_spec(pre, v, 0, u32::MAX as int, "u32"@, Some(i as i64), None),
            Err(e) => int_target_spec(pre, v, 0, u32::MAX as int, "u32"@, None, Some(e)),
        }
    }

    fn from_lua(value: Value, lua: &mut Lua) -> (r: Result<Self, Error>) {
        match coerce_int_value(&value, lua) {
            Some(i) => match cast_i64_to_u32(i) {
                Some(x) => Ok(x),
                None => Err(int_target_err(&value, "u32", true)),
            },
            None => Err(int_target_err(&value, "u32", false)),
        }
    }
}

impl IntoLua for i16 {
    open spec fn into_lua_req(self, pre: Lua) -> bool {
        true
    }

    proof fn into_lua_req_preserved(self, pre: Lua, post: Lua) {
    }

    open spec fn into_lua_spec(self, pre: Lua, post: Lua, r: Result<Value, Error>) -> bool {
        post == pre && r == Ok::<Value, Error>(Value::Integer(self as i64))
    }

    fn into_lua(self, lua: &mut Lua) -> (r: Result<Value, Error>) {
        Ok(Value::Integer(self as i64))
    }
}

impl FromLua for i16 {
    open spec fn from_lua_spec(pre: Lua, v: Value, post: Lua, r: Result<Self, Error>) -> bool {
        &&& post == pre
        &&& match r {
            Ok(i) => int_target_spec(pre, v, i16::MIN as int, i16::MAX as int, "i16"@, Some(i as i64), None),
            Err(e) => int_target_spec(pre, v, i16::MIN as int, i16::MAX as int, "i16"@, None, Some(e)),
        }
    }

    fn from_lua(value: Value, lua: &mut Lua) -> (r: Result<Self, Error>) {
        match coerce_int_value(&value, lua) {
            Some(i) => match cast_i64_to_i16(i) {
                Some(x) => Ok(x),
                None => Err(int_target_err(&value, "i16", true)),
            },
            None => Err(int_target_err(&value, "i16", false)),
        }
    }
}

impl IntoLua for u16 {
    open spec fn into_lua_req(self, pre: Lua) -> bool {
        true
    }

    proof fn into_lua_req_preserved(self, pre: Lua, post: Lua) {
    }

    open spec fn into_lua_spec(self, pre: Lua, post: Lua, r: Result<Value, Error>) -> bool {
        post == pre && r == Ok::<Value, Error>(Value::Integer(self as i64))
    }

    fn into_lua(self, lua: &mut Lua) -> (r: Result<Value, Error>) {
        Ok(Value::Integer(self as i64))
    }
}

impl FromLua for u16 {
    open spec fn from_lua_spec(pre: Lua, v: Value, post: Lua, r: Result<Self, Error>) -> bool {
        &&& post == pre
        &&& match r {
            Ok(i) => int_target_spec(pre, v, 0, u16::MAX as int, "u16"@, Some(i as i64), None),
            Err(e) => int_target_spec(pre, v, 0, u16::MAX as int, "u16"@, None, Some(e)),
        }
    }

    fn from_lua(value: Value, lua: &mut Lua) -> (r: Result<Self, Error>) {
        match coerce_int_value(&value, lua) {
            Some(i) => match cast_i64_to_u16(i) {
                Some(x) => Ok(x),
                None => Err(int_target_err(&value, "u16", true)),
            },
            None => Err(int_target_err(&value, "u16", false)),
        }
    }
}

impl IntoLua for i8 {
    open spec fn into_lua_req(self, pre: Lua) -> bool {
        true
    }

    proof fn into_lua_req_preserved(self, pre: Lua, post: Lua) {
    }

    open spec fn into_lua_spec(self, pre: Lua, post: Lua, r: Result<Value, Error>) -> bool {
        post == pre && r == Ok::<Value, Error>(Value::Integer(self as i64))
    }

    fn into_lua(self, lua: &mut Lua) -> (r: Result<Value, Error>) {
        Ok(Value::Integer(self as i64))
    }
}

impl FromLua for i8 {
    open spec fn from_lua_spec(pre: Lua, v: Value, post: Lua, r: Result<Self, Error>) -> bool {
        &&& post == pre
        &&& match r {
            Ok(i) => int_target_spec(pre, v, i8::MIN as int, i8::MAX as int, "i8"@, Some(i as i64), None),
            Err(e) => int_target_spec(pre, v, i8::MIN as int, i8::MAX as int, "i8"@, None, Some(e)),
        }
    }

    fn from_lua(value: Value, lua: &mut Lua) -> (r: Result<Self, Error>) {
        match coerce_int_value(&value, lua) {
            Some(i) => match cast_i64_to_i8(i) {
                Some(x) => Ok(x),
                None => Err(int_target_err(&value, "i8", true)),
            },
            None => Err(int_target_err(&value, "i8", false)),
        }
    }
}

impl IntoLua for u8 {
    open spec fn into_lua_req(self, pre: Lua) -> bool {
        true
    }

    proof fn into_lua_req_preserved(self, pre: Lua, post: Lua) {
    }

    open spec fn into_lua_spec(self, pre: Lua, post: Lua, r: Result<Value, Error>) -> bool {
        post == pre && r == Ok::<Value, Error>(Value::Integer(self as i64))
    }

    fn into_lua(self, lua: &mut Lua) -> (r: Result<Value, Error>) {
        Ok(Value::Integer(self as i64))
    }
}

impl FromLua for u8 {
    open spec fn from_lua_spec(pre: Lua, v: Value, post: Lua, r: Result<Self, Error>) -> bool {
        &&& post == pre
        &&& match r {
            Ok(i) => int_target_spec(pre, v, 0, u8::MAX as int, "u8"@, Some(i as i64), None),
            Err(e) => int_target_spec(pre, v, 0, u8::MAX as int, "u8"@, None, Some(e)),
        }
    }

    fn from_lua(value: Value, lua: &mut Lua) -> (r: Result<Self, Error>) {
        match coerce_int_value(&value, lua) {
            Some(i) => match cast_i64_to_u8(i) {
                Some(x) => Ok(x),
                None => Err(int_target_err(&value, "u8", true)),
            },
            None => Err(int_target_err(&value, "u8", false)),
        }
    }
}

impl IntoLua for u64 {
    open spec fn into_lua_req(self, pre: Lua) -> bool {
        true
    }

    /// Widening may fail: a host value above the guest integer maximum
    /// is refused rather than rounded into a guest number.
    proof fn into_lua_req_preserved(self, pre: Lua, post: Lua) {
    }

    open spec fn into_lua_spec(self, pre: Lua, post: Lua, r: Result<Value, Error>) -> bool {
        &&& post == pre
        &&& if self <= i64::MAX {
            r == Ok::<Value, Error>(Value::Integer(self as i64))
        } else {
            r matches Err(Error::ToLuaConversionError { from, to, message }) && (from@
                == "u64"@ && to@ == "integer"@ && (message matches Some(m) && m@
                == "out of range"@))
        }
    }

    fn into_lua(self, lua: &mut Lua) -> (r: Result<Value, Error>) {
        match cast_u64_to_i64(self) {
            Some(i) => Ok(Value::Integer(i)),
            None => Err(Error::ToLuaConversionError {
                from: "u64",
                to: "integer",
                message: Some("out of range".to_owned()),
            }),
        }
    }
}

impl FromLua for u64 {
    open spec fn from_lua_spec(pre: Lua, v: Value, post: Lua, r: Result<Self, Error>) -> bool {
        &&& post == pre
        &&& match r {
            Ok(i) => int_target_spec(pre, v, 0, i64::MAX as int, "u64"@, Some(i as i64), None),
            Err(e) => int_target_spec(pre, v, 0, i64::MAX as int, "u64"@, None, Some(e)),
        }
    }

    fn from_lua(value: Value, lua: &mut Lua) -> (r: Result<Self, Error>) {
        match coerce_int_value(&value, lua) {
            Some(i) => match cast_i64_to_u64(i) {
                Some(x) => Ok(x),
                None => Err(int_target_err(&value, "u64", true)),
            },
            None => Err(int_target_err(&value, "u64", false)),
        }
    }
}

impl IntoLua for usize {
    open spec fn into_lua_req(self, pre: Lua) -> bool {
        true
    }

    /// Widening may fail: a host value above the guest integer maximum
    /// is refused rather than rounded into a guest number.
    proof fn into_lua_req_preserved(self, pre: Lua, post: Lua) {
    }

    open spec fn into_lua_spec(self, pre: Lua, post: Lua, r: Result<Value, Error>) -> bool {
        &&& post == pre
        &&& if self <= i64::MAX {
            r == Ok::<Value, Error>(Value::Integer(self as i64))
        } else {
            r matches Err(Error::ToLuaConversionError { from, to, message }) && (from@
                == "usize"@ && to@ == "integer"@ && (message matches Some(m) && m@
                == "out of range"@))
        }
    }

    fn into_lua(self, lua: &mut Lua) -> (r: Result<Value, Error>) {
        match cast_usize_to_i64(self) {
            Some(i) => Ok(Value::Integer(i)),
            None => Err(Error::ToLuaConversionError {
                from: "usize",
                to: "integer",
                message: Some("out of range".to_owned()),
            }),
        }
    }
}

impl FromLua for usize {
    open spec fn from_lua_spec(pre: Lua, v: Value, post: Lua, r: Result<Self, Error>) -> bool {
        &&& post == pre
        &&& match r {
            Ok(i) => int_target_spec(
                pre,
                v,
                0,
                if usize::MAX <= i64::MAX {
                    usize::MAX as int
                } else {
                    i64::MAX as int
                },
                "usize"@,
                Some(i as i64),
                None,
            ),
            Err(e) => int_target_spec(
                pre,
                v,
                0,
                if usize::MAX <= i64::MAX {
                    usize::MAX as int
                } else {
                    i64::MAX as int
                },
                "usize"@,
                None,
                Some(e),
            ),
        }
    }

    fn from_lua(value: Value, lua: &mut Lua) -> (r: Result<Self, Error>) {
        match coerce_int_value(&value, lua) {
            Some(i) => match cast_i64_to_usize(i) {
                Some(x) => Ok(x),
                None => Err(int_target_err(&value, "usize", true)),
            },
            None => Err(int_target_err(&value, "usize", false)),
        }
    }
}

/// Relies on String::from_utf8: it succeeds exactly on valid UTF-8, and
/// the returned text re-encodes to the given bytes.
#[verifier::external_body]
fn string_from_utf8(bytes: Vec<u8>) -> (r: Option<String>)
    ensures
        match r {
            Some(s) => valid_utf8(bytes@) && encode_utf8(s@) == bytes@,
            None => !valid_utf8(bytes@),
        },
{
    match std::string::String::from_utf8(bytes) {
        Ok(s) => Some(s),
        Err(_) => None,
    }
}

impl IntoLua for String {
    open spec fn into_lua_req(self, pre: Lua) -> bool {
        true
    }

    /// The host text is interned as a guest string holding its UTF-8
    /// bytes.
    proof fn into_lua_req_preserved(self, pre: Lua, post: Lua) {
    }

    open spec fn into_lua_spec(self, pre: Lua, post: Lua, r: Result<Value, Error>) -> bool {
        r matches Ok(v) && (v matches Value::String(h) && post.valid_str(h) && post.str_bytes(h)
            == encode_utf8(self@))
    }

    fn into_lua(self, lua: &mut Lua) -> (r: Result<Value, Error>) {
        let bytes = slice_to_vec(self.as_str().as_bytes());
        let h = lua.create_string(bytes);
        Ok(Value::String(h))
    }
}

impl FromLua for String {
    /// A guest string (or a number, through its textual guest form)
    /// whose bytes are valid UTF-8 converts to the host text they
    /// encode; invalid UTF-8 and uncoercible kinds are refused.
    open spec fn from_lua_spec(pre: Lua, v: Value, post: Lua, r: Result<Self, Error>) -> bool {
        &&& post == pre
        &&& match pre.coerce_string_spec(v) {
            Some(bs) => if valid_utf8(bs) {
                r matches Ok(s) && encode_utf8(s@) == bs
            } else {
                r matches Err(e) && is_from_err(
                    e,
                    v.kind_name_spec(),
                    "String"@,
                    Some("invalid utf-8"@),
                )
            },
            None => r matches Err(e) && is_from_err(
                e,
                v.kind_name_spec(),
                "String"@,
                Some("expected string or number"@),
            ),
        }
    }

    fn from_lua(value: Value, lua: &mut Lua) -> (r: Result<Self, Error>) {
        match lua.coerce_string_bytes(&value) {
            Some(bs) => match string_from_utf8(bs) {
                Some(s) => Ok(s),
                None => Err(Error::FromLuaConversionError {
                    from: value.kind_name(),
                    to: "String",
                    message: Some("invalid utf-8".to_owned()),
                }),
            },
            None => Err(Error::FromLuaConversionError {
                from: value.kind_name(),
                to: "String",
                message: Some("expected string or number".to_owned()),
            }),
        }
    }
}

impl IntoLua for LuaString {
    open spec fn into_lua_req(self, pre: Lua) -> bool {
        pre.valid_str(self)
    }

    proof fn into_lua_req_preserved(self, pre: Lua, post: Lua) {
        let _b = pre.str_bytes(self);
    }

    open spec fn into_lua_spec(self, pre: Lua, post: Lua, r: Result<Value, Error>) -> bool {
        post == pre && r == Ok::<Value, Error>(Value::String(self))
    }

    fn into_lua(self, lua: &mut Lua) -> (r: Result<Value, Error>) {
        Ok(Value::String(self))
    }
}

impl FromLua for LuaString {
    /// A guest string converts as itself; an integer or an integral
    /// number is interned under its textual guest form; anything else is
    /// refused.
    open spec fn from_lua_spec(pre: Lua, v: Value, post: Lua, r: Result<Self, Error>) -> bool {
        match pre.coerce_string_spec(v) {
            Some(bs) => {
                &&& r matches Ok(h) && post.valid_str(h) && post.str_bytes(h) == bs
                &&& (v matches Value::String(h0) ==> post == pre && (r matches Ok(h) && h == h0))
            },
            None => post == pre && (r matches Err(e) && is_from_err(
                e,
                v.kind_name_spec(),
                "String"@,
                Some("expected string or number"@),
            )),
        }
    }

    fn from_lua(value: Value, lua: &mut Lua) -> (r: Result<Self, Error>) {
        match value {
            Value::String(h) => Ok(h),
            _ => match lua.coerce_string_bytes(&value) {
                Some(bs) => {
                    let h = lua.create_string(bs);
                    Ok(h)
                },
                None => Err(Error::FromLuaConversionError {
                    from: value.kind_name(),
                    to: "String",
                    message: Some("expected string or number".to_owned()),
                }),
            },
        }
    }
}

impl IntoLua for Table {
    open spec fn into_lua_req(self, pre: Lua) -> bool {
        pre.valid_table(self)
    }

    proof fn into_lua_req_preserved(self, pre: Lua, post: Lua) {
        let _t = pre.table_seq(self);
    }

    open spec fn into_lua_spec(self, pre: Lua, post: Lua, r: Result<Value, Error>) -> bool {
        post == pre && r == Ok::<Value, Error>(Value::Table(self))
    }

    fn into_lua(self, lua: &mut Lua) -> (r: Result<Value, Error>) {
        Ok(Value::Table(self))
    }
}

impl FromLua for Table {
    open spec fn from_lua_spec(pre: Lua, v: Value, post: Lua, r: Result<Self, Error>) -> bool {
        &&& post == pre
        &&& match v {
            Value::Table(t) => r == Ok::<Table, Error>(t),
            _ => r matches Err(e) && is_from_err(e, v.kind_name_spec(), "table"@, None),
        }
    }

    fn from_lua(value: Value, lua: &mut Lua) -> (r: Result<Self, Error>) {
        match value {
            Value::Table(t) => Ok(t),
            _ => Err(Error::FromLuaConversionError {
                from: value.kind_name(),
                to: "table",
                message: None,
            }),
        }
    }
}

impl IntoLua for Function {
    open spec fn into_lua_req(self, pre: Lua) -> bool {
        pre.valid_fn(self)
    }

    proof fn into_lua_req_preserved(self, pre: Lua, post: Lua) {
        let _c = pre.fn_callback(self);
    }

    open spec fn into_lua_spec(self, pre: Lua, post: Lua, r: Result<Value, Error>) -> bool {
        post == pre && r == Ok::<Value, Error>(Value::Function(self))
    }

    fn into_lua(self, lua: &mut Lua) -> (r: Result<Value, Error>) {
        Ok(Value::Function(self))
    }
}

impl FromLua for Function {
    open spec fn from_lua_spec(pre: Lua, v: Value, post: Lua, r: Result<Self, Error>) -> bool {
        &&& post == pre
        &&& match v {
            Value::Function(f) => r == Ok::<Function, Error>(f),
            _ => r matches Err(e) && is_from_err(e, v.kind_name_spec(), "function"@, None),
        }
    }

    fn from_lua(value: Value, lua: &mut Lua) -> (r: Result<Self, Error>) {
        match value {
            Value::Function(f) => Ok(f),
            _ => Err(Error::FromLuaConversionError {
                from: value.kind_name(),
                to: "function",
                message: None,
            }),
        }
    }
}

impl IntoLua for Thread {
    open spec fn into_lua_req(self, pre: Lua) -> bool {
        true
    }

    proof fn into_lua_req_preserved(self, pre: Lua, post: Lua) {
    }

    open spec fn into_lua_spec(self, pre: Lua, post: Lua, r: Result<Value, Error>) -> bool {
        post == pre && r == Ok::<Value, Error>(Value::Thread(self))
    }

    fn into_lua(self, lua: &mut Lua) -> (r: Result<Value, Error>) {
        Ok(Value::Thread(self))
    }
}

impl FromLua for Thread {
    open spec fn from_lua_spec(pre: Lua, v: Value, post: Lua, r: Result<Self, Error>) -> bool {
        &&& post == pre
        &&& match v {
            Value::Thread(t) => r == Ok::<Thread, Error>(t),
            _ => r matches Err(e) && is_from_err(e, v.kind_name_spec(), "thread"@, None),
        }
    }

    fn from_lua(value: Value, lua: &mut Lua) -> (r: Result<Self, Error>) {
        match value {
            Value::Thread(t) => Ok(t),
            _ => Err(Error::FromLuaConversionError {
                from: value.kind_name(),
                to: "thread",
                message: None,
            }),
        }
    }
}

impl IntoLua for AnyUserData {
    open spec fn into_lua_req(self, pre: Lua) -> bool {
        pre.valid_ud(self)
    }

    proof fn into_lua_req_preserved(self, pre: Lua, post: Lua) {
        let _r = pre.ud_released(self);
    }

    open spec fn into_lua_spec(self, pre: Lua, post: Lua, r: Result<Value, Error>) -> bool {
        post == pre && r == Ok::<Value, Error>(Value::UserData(self))
    }

    fn into_lua(self, lua: &mut Lua) -> (r: Result<Value, Error>) {
        Ok(Value::UserData(self))
    }
}

impl FromLua for AnyUserData {
    open spec fn from_lua_spec(pre: Lua, v: Value, post: Lua, r: Result<Self, Error>) -> bool {
        &&& post == pre
        &&& match v {
            Value::UserData(u) => r == Ok::<AnyUserData, Error>(u),
            _ => r matches Err(e) && is_from_err(e, v.kind_name_spec(), "userdata"@, None),
        }
    }

    fn from_lua(value: Value, lua: &mut Lua) -> (r: Result<Self, Error>) {
        match value {
            Value::UserData(u) => Ok(u),
            _ => Err(Error::FromLuaConversionError {
                from: value.kind_name(),
                to: "userdata",
                message: None,
            }),
        }
    }
}

impl IntoLua for Error {
    open spec fn into_lua_req(self, pre: Lua) -> bool {
        true
    }

    proof fn into_lua_req_preserved(self, pre: Lua, post: Lua) {
    }

    open spec fn into_lua_spec(self, pre: Lua, post: Lua, r: Result<Value, Error>) -> bool {
        post == pre && r == Ok::<Value, Error>(Value::Error(self))
    }

    fn into_lua(self, lua: &mut Lua) -> (r: Result<Value, Error>) {
        Ok(Value::Error(self))
    }
}

impl FromLua for Error {
    /// A guest-carried host error converts as itself; any other value
    /// becomes a runtime error carrying the value's textual form, or a
    /// placeholder text when it has none.
    open spec fn from_lua_spec(pre: Lua, v: Value, post: Lua, r: Result<Self, Error>) -> bool {
        &&& post == pre
        &&& match v {
            Value::Error(e) => r == Ok::<Error, Error>(e),
            _ => r matches Ok(Error::RuntimeError(s)) && (match pre.coerce_string_spec(v) {
                Some(bs) => if valid_utf8(bs) {
                    encode_utf8(s@) == bs
                } else {
                    s@ == "<unprintable error>"@
                },
                None => s@ == "<unprintable error>"@,
            }),
        }
    }

    fn from_lua(value: Value, lua: &mut Lua) -> (r: Result<Self, Error>) {
        match value {
            Value::Error(e) => Ok(e),
            _ => {
                let text: String = match lua.coerce_string_bytes(&value) {
                    Some(bs) => match string_from_utf8(bs) {
                        Some(s) => s,
                        None => "<unprintable error>".to_owned(),
                    },
                    None => "<unprintable error>".to_owned(),
                };
                Ok(Error::RuntimeError(text))
            },
        }
    }
}

impl<T: IntoLua> IntoLua for Option<T> {
    open spec fn into_lua_req(self, pre: Lua) -> bool {
        match self {
            Some(x) => x.into_lua_req(pre),
            None => true,
        }
    }

    proof fn into_lua_req_preserved(self, pre: Lua, post: Lua) {
        match self {
            Some(x) => x.into_lua_req_preserved(pre, post),
            None => {},
        }
    }

    open spec fn into_lua_spec(self, pre: Lua, post: Lua, r: Result<Value, Error>) -> bool {
        match self {
            Some(x) => x.into_lua_spec(pre, post, r),
            None => post == pre && r == Ok::<Value, Error>(Value::Nil),
        }
    }

    fn into_lua(self, lua: &mut Lua) -> (r: Result<Value, Error>) {
        match self {
            Some(x) => x.into_lua(lua),
            None => Ok(Value::Nil),
        }
    }
}

impl<T: FromLua> FromLua for Option<T> {
    open spec fn from_lua_spec(pre: Lua, v: Value, post: Lua, r: Result<Self, Error>) -> bool {
        match v {
            Value::Nil => post == pre && r == Ok::<Option<T>, Error>(None),
            _ => match r {
                Ok(o) => o matches Some(x) && T::from_lua_spec(pre, v, post, Ok(x)),
                Err(e) => T::from_lua_spec(pre, v, post, Err(e)),
            },
        }
    }

    fn from_lua(value: Value, lua: &mut Lua) -> (r: Result<Self, Error>) {
        match value {
            Value::Nil => Ok(None),
            _ => match T::from_lua(value, lua) {
                Ok(x) => Ok(Some(x)),
                Err(e) => Err(e),
            },
        }
    }
}

impl IntoLua for isize {
    open spec fn into_lua_req(self, pre: Lua) -> bool {
        true
    }

    open spec fn into_lua_spec(self, pre: Lua, post: Lua, r: Result<Value, Error>) -> bool {
        post == pre && r == Ok::<Value, Error>(Value::Integer(self as i64))
    }

    proof fn into_lua_req_preserved(self, pre: Lua, post: Lua) {
    }

    fn into_lua(self, lua: &mut Lua) -> (r: Result<Value, Error>) {
        Ok(Value::Integer(self as i64))
    }
}

impl FromLua for isize {
    open spec fn from_lua_spec(pre: Lua, v: Value, post: Lua, r: Result<Self, Error>) -> bool {
        &&& post == pre
        &&& match r {
            Ok(i) => int_target_spec(
                pre,
                v,
                isize::MIN as int,
                isize::MAX as int,
                "isize"@,
                Some(i as i64),
                None,
            ),
            Err(e) => int_target_spec(
                pre,
                v,
                isize::MIN as int,
                isize::MAX as int,
                "isize"@,
                None,
                Some(e),
            ),
        }
    }

    fn from_lua(value: Value, lua: &mut Lua) -> (r: Result<Self, Error>) {
        match coerce_int_value(&value, lua) {
            Some(i) => match cast_i64_to_isize(i) {
                Some(x) => Ok(x),
                None => Err(int_target_err(&value, "isize", true)),
            },
            None => Err(int_target_err(&value, "isize", false)),
        }
    }
}

impl IntoLua for i128 {
    open spec fn into_lua_req(self, pre: Lua) -> bool {
        true
    }

    /// Widening may fail: a host value outside the guest integer range
    /// is refused rather than rounded into a guest number.
    open spec fn into_lua_spec(self, pre: Lua, post: Lua, r: Result<Value, Error>) -> bool {
        &&& post == pre
        &&& if i64::MIN <= self <= i64::MAX {
            r == Ok::<Value, Error>(Value::Integer(self as i64))
        } else {
            r matches Err(Error::ToLuaConversionError { from, to, message }) && (from@
                == "i128"@ && to@ == "integer"@ && (message matches Some(m) && m@
                == "out of range"@))
        }
    }

    proof fn into_lua_req_preserved(self, pre: Lua, post: Lua) {
    }

    fn into_lua(self, lua: &mut Lua) -> (r: Result<Value, Error>) {
        match cast_i128_to_i64(self) {
            Some(i) => Ok(Value::Integer(i)),
            None => Err(Error::ToLuaConversionError {
                from: "i128",
                to: "integer",
                message: Some("out of range".to_owned()),
            }),
        }
    }
}

impl FromLua for i128 {
    /// Every coerced guest integer fits the wider host target.
    open spec fn from_lua_spec(pre: Lua, v: Value, post: Lua, r: Result<Self, Error>) -> bool {
        &&& post == pre
        &&& match r {
            Ok(i) => i64::MIN <= i <= i64::MAX && int_target_spec(
                pre,
                v,
                i64::MIN as int,
                i64::MAX as int,
                "i128"@,
                Some(i as i64),
                None,
            ),
            Err(e) => int_target_spec(
                pre,
                v,
                i64::MIN as int,
                i64::MAX as int,
                "i128"@,
                None,
                Some(e),
            ),
        }
    }

    fn from_lua(value: Value, lua: &mut Lua) -> (r: Result<Self, Error>) {
        match coerce_int_value(&value, lua) {
            Some(i) => Ok(i as i128),
            None => Err(int_target_err(&value, "i128", false)),
        }
    }
}

impl IntoLua for u128 {
    open spec fn into_lua_req(self, pre: Lua) -> bool {
        true
    }

    /// Widening may fail: a host value above the guest integer maximum
    /// is refused rather than rounded into a guest number.
    open spec fn into_lua_spec(self, pre: Lua, post: Lua, r: Result<Value, Error>) -> bool {
        &&& post == pre
        &&& if self <= i64::MAX {
            r == Ok::<Value, Error>(Value::Integer(self as i64))
        } else {
            r matches Err(Error::ToLuaConversionError { from, to, message }) && (from@
                == "u128"@ && to@ == "integer"@ && (message matches Some(m) && m@
                == "out of range"@))
        }
    }

    proof fn into_lua_req_preserved(self, pre: Lua, post: Lua) {
    }

    fn into_lua(self, lua: &mut Lua) -> (r: Result<Value, Error>) {
        match cast_u128_to_i64(self) {
            Some(i) => Ok(Value::Integer(i)),
            None => Err(Error::ToLuaConversionError {
                from: "u128",
                to: "integer",
                message: Some("out of range".to_owned()),
            }),
        }
    }
}

impl FromLua for u128 {
    /// Every non-negative coerced guest integer fits the wider host
    /// target.
    open spec fn from_lua_spec(pre: Lua, v: Value, post: Lua, r: Result<Self, Error>) -> bool {
        &&& post == pre
        &&& match r {
            Ok(i) => i <= i64::MAX && int_target_spec(
                pre,
                v,
                0,
                i64::MAX as int,
                "u128"@,
                Some(i as i64),
                None,
            ),
            Err(e) => int_target_spec(pre, v, 0, i64::MAX as int, "u128"@, None, Some(e)),
        }
    }

    fn from_lua(value: Value, lua: &mut Lua) -> (r: Result<Self, Error>) {
        match coerce_int_value(&value, lua) {
            Some(i) => {
                if i >= 0 {
                    Ok(i as u128)
                } else {
                    Err(int_target_err(&value, "u128", true))
                }
            },
            None => Err(int_target_err(&value, "u128", false)),
        }
    }
}

impl IntoLua for &str {
    open spec fn into_lua_req(self, pre: Lua) -> bool {
        true
    }

    /// The borrowed host text is interned as a guest string holding its
    /// UTF-8 bytes.
    open spec fn into_lua_spec(self, pre: Lua, post: Lua, r: Result<Value, Error>) -> bool {
        r matches Ok(v) && (v matches Value::String(h) && post.valid_str(h) && post.str_bytes(h)
            == encode_utf8(self@))
    }

    proof fn into_lua_req_preserved(self, pre: Lua, post: Lua) {
    }

    fn into_lua(self, lua: &mut Lua) -> (r: Result<Value, Error>) {
        let bytes = slice_to_vec(self.as_bytes());
        let h = lua.create_string(bytes);
        Ok(Value::String(h))
    }
}

/// The runtime states of an element-by-element to-guest conversion:
/// `sts[k]` is the state element `k` converts from, and `vs[k]` its
/// guest value.
pub open spec fn into_chain<T: IntoLua>(
    sts: Seq<Lua>,
    items: Seq<T>,
    vs: Seq<Value>,
    n: int,
) -> bool {
    &&& sts.len() == n + 1
    &&& forall|k: int|
        0 <= k < n ==> (#[trigger] items[k]).into_lua_spec(sts[k], sts[k + 1], Ok(vs[k]))
}

/// The runtime states of an element-by-element from-guest conversion:
/// `sts[k]` is the state value `k` converts from, and `out[k]` its host
/// value.
pub open spec fn from_chain<T: FromLua>(
    sts: Seq<Lua>,
    vals: Seq<Value>,
    out: Seq<T>,
    n: int,
) -> bool {
    &&& sts.len() == n + 1
    &&& forall|k: int|
        0 <= k < n ==> T::from_lua_spec(sts[k], #[trigger] vals[k], sts[k + 1], Ok(out[k]))
}

impl<T: IntoLua> IntoLua for Vec<T> {
    open spec fn into_lua_req(self, pre: Lua) -> bool {
        forall|i: int| 0 <= i < self@.len() ==> (#[trigger] self@[i]).into_lua_req(pre)
    }

    /// A host vector converts to a fresh guest table whose sequence part
    /// holds, at each position, the converted value of the element at
    /// that position, the element conversions chained left to right from
    /// `pre`; on failure, the first failing element's error is reported,
    /// after a chain of successful conversions from `pre`.
    open spec fn into_lua_spec(self, pre: Lua, post: Lua, r: Result<Value, Error>) -> bool {
        match r {
            Ok(v) => v matches Value::Table(t) && post.valid_table(t) && !pre.valid_table(t)
                && post.table_seq(t).len() == self@.len() && (exists|sts: Seq<Lua>|
                #![all_triggers]
                {
                    &&& sts[0] == pre
                    &&& into_chain(sts, self@, post.table_seq(t), self@.len() as int)
                    &&& sts[self@.len() as int].conv_extends(post)
                }),
            Err(e) => exists|sts: Seq<Lua>, ws: Seq<Value>, k: int, l2: Lua|
                #![all_triggers]
                {
                    &&& 0 <= k < self@.len()
                    &&& sts[0] == pre
                    &&& into_chain(sts, self@, ws, k)
                    &&& self@[k].into_lua_spec(sts[k], l2, Err(e))
                    &&& l2.conv_extends(post)
                },
        }
    }

    proof fn into_lua_req_preserved(self, pre: Lua, post: Lua) {
        assert forall|i: int|
            0 <= i < self@.len() implies (#[trigger] self@[i]).into_lua_req(post) by {
            self@[i].into_lua_req_preserved(pre, post);
        }
    }

    #[verifier::loop_isolation(false)]
    fn into_lua(self, lua: &mut Lua) -> (r: Result<Value, Error>) {
        let ghost pre = *lua;
        let ghost items = self@;
        let ghost mut sts: Seq<Lua> = seq![pre];
        let mut vals: Vec<Value> = Vec::new();
        let mut rest = self;
        let mut rev: Vec<T> = Vec::new();
        while rest.len() > 0
            invariant
                rest@.len() + rev@.len() == items.len(),
                forall|i: int| 0 <= i < rest@.len() ==> rest@[i] == items[i],
                forall|i: int| 0 <= i < rev@.len() ==> rev@[i] == items[items.len() - 1 - i],
            decreases rest@.len(),
        {
            let x = rest.pop().unwrap();
            rev.push(x);
        }
        while rev.len() > 0
            invariant
                lua.wf(),
                pre.conv_extends(*lua),
                vals@.len() + rev@.len() == items.len(),
                forall|i: int|
                    0 <= i < rev@.len() ==> rev@[i] == items[items.len() - 1 - i],
                forall|i: int| 0 <= i < vals@.len() ==> lua.owns(#[trigger] vals@[i]),
                sts.len() == vals@.len() + 1,
                sts[0] == pre,
                sts[vals@.len() as int] == *lua,
                into_chain(sts, items, vals@, vals@.len() as int),
            decreases rev@.len(),
        {
            let x = rev.pop().unwrap();
            let ghost idx = vals@.len() as int;
            let ghost l1 = *lua;
            proof {
                assert(x == items[idx]);
                assert(items[idx].into_lua_req(pre));
                x.into_lua_req_preserved(pre, *lua);
            }
            match x.into_lua(lua) {
                Ok(v) => {
                    vals.push(v);
                    proof {
                        let ghost prev_sts = sts;
                        sts = sts.push(*lua);
                        assert forall|k: int|
                            0 <= k < vals@.len() implies (#[trigger] items[k]).into_lua_spec(
                            sts[k],
                            sts[k + 1],
                            Ok(vals@[k]),
                        ) by {
                            if k == idx {
                                assert(sts[idx] == l1);
                                assert(items[idx].into_lua_spec(l1, *lua, Ok(vals@[idx])));
                            } else {
                                assert(sts[k] == prev_sts[k]);
                                assert(sts[k + 1] == prev_sts[k + 1]);
                            }
                        }
                        assert forall|i: int| 0 <= i < vals@.len() implies lua.owns(
                            #[trigger] vals@[i],
                        ) by {
                            if i < idx {
                                l1.lemma_conv_extends_owns(*lua, vals@[i]);
                            }
                        }
                        pre.lemma_conv_extends_trans(l1, *lua);
                    }
                },
                Err(e) => {
                    proof {
                        assert(items[idx].into_lua_spec(l1, *lua, Err::<Value, Error>(e)));
                        pre.lemma_conv_extends_trans(l1, *lua);
                        assert(exists|sts2: Seq<Lua>, ws: Seq<Value>, k: int, l2: Lua|
                            #![all_triggers]
                            {
                                &&& 0 <= k < items.len()
                                &&& sts2[0] == pre
                                &&& into_chain(sts2, items, ws, k)
                                &&& items[k].into_lua_spec(sts2[k], l2, Err(e))
                                &&& l2.conv_extends(*lua)
                            }) by {
                            assert(sts[0] == pre);
                            assert(into_chain(sts, items, vals@, idx));
                            assert(items[idx].into_lua_spec(sts[idx], *lua, Err::<
                                Value,
                                Error,
                            >(e)));
                            lua.lemma_conv_extends_trans(*lua, *lua);
                        }
                    }
                    return Err(e);
                },
            }
        }
        let ghost mid = *lua;
        let t = lua.create_sequence_from(vals);
        proof {
            pre.lemma_conv_extends_trans(mid, *lua);
            if pre.valid_table(t) {
                let _s = pre.table_seq(t);
                assert(mid.valid_table(t));
                assert(false);
            }
            assert(exists|sts2: Seq<Lua>|
                #![all_triggers]
                {
                    &&& sts2[0] == pre
                    &&& into_chain(sts2, items, lua.table_seq(t), items.len() as int)
                    &&& sts2[items.len() as int].conv_extends(*lua)
                }) by {
                assert(sts[0] == pre);
                assert(lua.table_seq(t) == vals@);
                assert(into_chain(sts, items, lua.table_seq(t), items.len() as int));
                assert(sts[items.len() as int] == mid);
                assert(mid.conv_extends(*lua));
            }
        }
        Ok(Value::Table(t))
    }
}

impl<T: FromLua> FromLua for Vec<T> {
    /// A guest table converts by walking its sequence part in order: on
    /// success, element `i` of the result is the conversion of sequence
    /// value `i`, the conversions chained left to right from `pre`; on
    /// failure, the first failing value's error is reported after a
    /// chain of successful conversions. Every other kind is refused.
    open spec fn from_lua_spec(pre: Lua, v: Value, post: Lua, r: Result<Self, Error>) -> bool {
        match v {
            Value::Table(t) => match r {
                Ok(xs) => xs@.len() == pre.table_seq(t).len() && (exists|sts: Seq<Lua>|
                    #![all_triggers]
                    {
                        &&& sts[0] == pre
                        &&& from_chain(sts, pre.table_seq(t), xs@, xs@.len() as int)
                        &&& sts[xs@.len() as int].conv_extends(post)
                    }),
                Err(e) => exists|sts: Seq<Lua>, ws: Seq<T>, k: int, l2: Lua|
                    #![all_triggers]
                    {
                        &&& 0 <= k < pre.table_seq(t).len()
                        &&& sts[0] == pre
                        &&& from_chain(sts, pre.table_seq(t), ws, k)
                        &&& T::from_lua_spec(sts[k], pre.table_seq(t)[k], l2, Err(e))
                        &&& l2.conv_extends(post)
                    },
            },
            _ => post == pre && (r matches Err(e) && is_from_err(
                e,
                v.kind_name_spec(),
                "Vec"@,
                Some("expected table"@),
            )),
        }
    }

    #[verifier::loop_isolation(false)]
    fn from_lua(value: Value, lua: &mut Lua) -> (r: Result<Self, Error>) {
        let t = match value {
            Value::Table(t) => t,
            _ => {
                return Err(Error::FromLuaConversionError {
                    from: value.kind_name(),
                    to: "Vec",
                    message: Some("expected table".to_owned()),
                });
            },
        };
        let ghost pre = *lua;
        let ghost mut sts: Seq<Lua> = seq![pre];
        let n = lua.table_seq_len(t);
        let mut out: Vec<T> = Vec::new();
        let mut i: usize = 0;
        while i < n
            invariant
                lua.wf(),
                pre.conv_extends(*lua),
                pre.valid_table(t),
                n == pre.table_seq(t).len(),
                out@.len() == i,
                i <= n,
                sts.len() == i + 1,
                sts[0] == pre,
                sts[i as int] == *lua,
                from_chain(sts, pre.table_seq(t), out@, i as int),
            decreases n - i,
        {
            proof {
                assert(lua.table_seq(t) == pre.table_seq(t));
            }
            let elem = lua.table_seq_get(t, i);
            let ghost l1 = *lua;
            match T::from_lua(elem, lua) {
                Ok(x) => {
                    out.push(x);
                    proof {
                        let ghost prev_sts = sts;
                        sts = sts.push(*lua);
                        assert forall|k: int|
                            0 <= k < out@.len() implies T::from_lua_spec(
                            sts[k],
                            #[trigger] pre.table_seq(t)[k],
                            sts[k + 1],
                            Ok(out@[k]),
                        ) by {
                            if k == i as int {
                                assert(sts[k] == l1);
                                assert(T::from_lua_spec(l1, pre.table_seq(t)[k], *lua, Ok(
                                    out@[k],
                                )));
                            } else {
                                assert(sts[k] == prev_sts[k]);
                                assert(sts[k + 1] == prev_sts[k + 1]);
                            }
                        }
                        pre.lemma_conv_extends_trans(l1, *lua);
                    }
                },
                Err(e) => {
                    proof {
                        pre.lemma_conv_extends_trans(l1, *lua);
                        assert(T::from_lua_spec(l1, pre.table_seq(t)[i as int], *lua, Err::<
                            T,
                            Error,
                        >(e)));
                        assert(exists|sts2: Seq<Lua>, ws: Seq<T>, k: int, l2: Lua|
                            #![all_triggers]
                            {
                                &&& 0 <= k < pre.table_seq(t).len()
                                &&& sts2[0] == pre
                                &&& from_chain(sts2, pre.table_seq(t), ws, k)
                                &&& T::from_lua_spec(sts2[k], pre.table_seq(t)[k], l2, Err(e))
                                &&& l2.conv_extends(*lua)
                            }) by {
                            assert(sts[0] == pre);
                            assert(from_chain(sts, pre.table_seq(t), out@, i as int));
                            assert(T::from_lua_spec(sts[i as int], pre.table_seq(t)[i as int],
                                *lua, Err::<T, Error>(e)));
                            lua.lemma_conv_extends_trans(*lua, *lua);
                        }
                    }
                    return Err(e);
                },
            }
            i = i + 1;
        }
        proof {
            assert(exists|sts2: Seq<Lua>|
                #![all_triggers]
                {
                    &&& sts2[0] == pre
                    &&& from_chain(sts2, pre.table_seq(t), out@, out@.len() as int)
                    &&& sts2[out@.len() as int].conv_extends(*lua)
                }) by {
                assert(sts[0] == pre);
                assert(from_chain(sts, pre.table_seq(t), out@, out@.len() as int));
                assert(sts[out@.len() as int] == *lua);
                lua.lemma_conv_extends_trans(*lua, *lua);
            }
        }
        Ok(out)
    }
}

} // verus!
