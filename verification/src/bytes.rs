//! Conversions for host byte strings.
//!
//! Guest strings are byte strings and need not be valid UTF-8; the
//! matching host-side carrier is the byte-string type of the outside
//! byte-string crate. Its contents are named by [`bstring_bytes`], and
//! the two trusted wrappers below move bytes in and out of it unchanged.
use vstd::prelude::*;
use crate::conversion::{is_from_err, FromLua, IntoLua};
use crate::error::Error;
use crate::runtime::Lua;
use crate::value::Value;

verus! {

/// The bytes held by an outside byte string.
pub uninterp spec fn bstring_bytes(b: bstr::BString) -> Seq<u8>;

/// The outside byte-string type, declared so that it can stand in
/// signatures.
#[verifier::external_type_specification]
#[verifier::external_body]
pub struct ExBString(bstr::BString);

/// Relies on bstr's From<Vec<u8>> for BString: it wraps the given bytes
/// unchanged.
#[verifier::external_body]
fn bstring_from_bytes(v: Vec<u8>) -> (r: bstr::BString)
    ensures
        bstring_bytes(r) == v@,
{
    bstr::BString::from(v)
}

/// Relies on bstr's From<BString> for Vec<u8>: it hands the wrapped
/// bytes back unchanged.
#[verifier::external_body]
fn bstring_into_bytes(b: bstr::BString) -> (r: Vec<u8>)
    ensures
        r@ == bstring_bytes(b),
{
    Vec::from(b)
}

impl IntoLua for bstr::BString {
    open spec fn into_lua_req(self, pre: Lua) -> bool {
        true
    }

    /// The host byte string is interned as a guest string holding the
    /// same bytes.
    open spec fn into_lua_spec(self, pre: Lua, post: Lua, r: Result<Value, Error>) -> bool {
        r matches Ok(v) && (v matches Value::String(h) && post.valid_str(h) && post.str_bytes(h)
            == bstring_bytes(self))
    }

    proof fn into_lua_req_preserved(self, pre: Lua, post: Lua) {
    }

    fn into_lua(self, lua: &mut Lua) -> (r: Result<Value, Error>) {
        let bytes = bstring_into_bytes(self);
        let h = lua.create_string(bytes);
        Ok(Value::String(h))
    }
}

impl FromLua for bstr::BString {
    /// A guest string (or a number, through its textual guest form)
    /// converts to a host byte string holding the same bytes; other
    /// kinds are refused.
    open spec fn from_lua_spec(pre: Lua, v: Value, post: Lua, r: Result<Self, Error>) -> bool {
        &&& post == pre
        &&& match pre.coerce_string_spec(v) {
            Some(bs) => r matches Ok(b) && bstring_bytes(b) == bs,
            None => r matches Err(e) && is_from_err(
                e,
                v.kind_name_spec(),
                "String"@,
                Some("expected string or number"@),
            ),
        }
    }

    fn from_lua(value: Value, lua: &mut Lua) -> (r: Result<Self, Error>) {
        match lua.coerce_string_bytes(&value) {
            Some(bs) => Ok(bstring_from_bytes(bs)),
            None => Err(Error::FromLuaConversionError {
                from: value.kind_name(),
                to: "String",
                message: Some("expected string or number".to_owned()),
            }),
        }
    }
}

/// The bytes contain no interior nul, so they can carry a C-style
/// string.
pub open spec fn c_string_ok(bs: Seq<u8>) -> bool {
    forall|i: int| 0 <= i < bs.len() ==> bs[i] != 0
}

/// Converts a guest value to the nul-terminated bytes of a C-style
/// string: the value must coerce to text with no interior nul, and the
/// result is that text followed by one terminating nul byte. The host
/// builds its foreign-function string type from these bytes.
#[verifier::loop_isolation(false)]
pub fn from_lua_c_string(value: Value, lua: &Lua) -> (r: Result<Vec<u8>, Error>)
    requires
        lua.wf(),
        lua.owns(value),
    ensures
        match lua.coerce_string_spec(value) {
            Some(bs) => if c_string_ok(bs) {
                r matches Ok(out) && out@ == bs + seq![0u8]
            } else {
                r matches Err(e) && is_from_err(
                    e,
                    value.kind_name_spec(),
                    "CString"@,
                    Some("invalid C-style string"@),
                )
            },
            None => r matches Err(e) && is_from_err(
                e,
                value.kind_name_spec(),
                "CString"@,
                Some("expected string or number"@),
            ),
        },
{
    let bs = match lua.coerce_string_bytes(&value) {
        Some(bs) => bs,
        None => {
            return Err(Error::FromLuaConversionError {
                from: value.kind_name(),
                to: "CString",
                message: Some("expected string or number".to_owned()),
            });
        },
    };
    let n = bs.len();
    let mut i: usize = 0;
    while i < n
        invariant
            n == bs@.len(),
            i <= n,
            forall|k: int| 0 <= k < i ==> bs@[k] != 0,
        decreases n - i,
    {
        if bs[i] == 0 {
            return Err(Error::FromLuaConversionError {
                from: value.kind_name(),
                to: "CString",
                message: Some("invalid C-style string".to_owned()),
            });
        }
        i = i + 1;
    }
    let ghost coerced = bs@;
    let mut out = bs;
    out.push(0);
    proof {
        assert(out@ =~= coerced + seq![0u8]);
    }
    Ok(out)
}

} // verus!
