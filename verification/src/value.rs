//! The guest value model: a closed tagged union over every guest-visible
//! value kind.
//!
//! Handle variants (string, table, function, thread, opaque object) are
//! references into the runtime's own object graph: the host value does not
//! own the guest object's storage, it only designates it. Mixing handles
//! created against two different runtime instances is a programming error;
//! every runtime operation of this crate statically rejects it by requiring
//! that the handles it receives belong to the runtime it is given.
use vstd::prelude::*;
use crate::error::Error;
use crate::numbits::{nb_eq, nb_eq_int, nb_eq_exec, nb_eq_int_exec};

verus! {

/// A raw external pointer ("light" userdata), carried as a plain address.
#[derive(Clone, Copy, PartialEq, Eq, Structural, Debug)]
pub struct LightUserData(pub usize);

/// Handle to a guest-interned string.
#[derive(Clone, Copy, PartialEq, Eq, Structural, Debug)]
pub struct LuaString {
    /// Identity of the referenced object within its runtime's
    /// registry; carried openly so that identity reasoning is public,
    /// but meaningful only to the runtime that issued the handle.
    pub index: usize,
}

/// Handle to a guest table.
#[derive(Clone, Copy, PartialEq, Eq, Structural, Debug)]
pub struct Table {
    /// Identity of the referenced object within its runtime's
    /// registry; carried openly so that identity reasoning is public,
    /// but meaningful only to the runtime that issued the handle.
    pub index: usize,
}

/// Handle to a guest-callable function.
#[derive(Clone, Copy, PartialEq, Eq, Structural, Debug)]
pub struct Function {
    /// Identity of the referenced object within its runtime's
    /// registry; carried openly so that identity reasoning is public,
    /// but meaningful only to the runtime that issued the handle.
    pub index: usize,
}

/// Handle to a guest coroutine.
#[derive(Clone, Copy, PartialEq, Eq, Structural, Debug)]
pub struct Thread {
    /// Identity of the referenced object within its runtime's
    /// registry; carried openly so that identity reasoning is public,
    /// but meaningful only to the runtime that issued the handle.
    pub index: usize,
}

/// Handle to an opaque object exposing host data to the guest.
#[derive(Clone, Copy, PartialEq, Eq, Structural, Debug)]
pub struct AnyUserData {
    /// Identity of the referenced object within its runtime's
    /// registry; carried openly so that identity reasoning is public,
    /// but meaningful only to the runtime that issued the handle.
    pub index: usize,
}

/// A dynamically typed guest value. The `String`, `Table`, `Function`,
/// `Thread` and `UserData` variants hold handles into the runtime's object
/// graph.
#[derive(Debug)]
pub enum Value {
    /// The guest's nil value.
    Nil,
    /// A guest boolean.
    Boolean(bool),
    /// A "light userdata" value: a bare address with no behaviour.
    LightUserData(LightUserData),
    /// A guest integer.
    Integer(i64),
    /// A guest floating-point number, carried as the 64 bits of its
    /// IEEE-754 double pattern (see [`crate::numbits`]).
    Number(u64),
    /// An interned guest string (a byte string; it need not be text).
    String(LuaString),
    /// A reference to a guest table.
    Table(Table),
    /// A reference to a guest-callable function.
    Function(Function),
    /// A reference to a guest coroutine.
    Thread(Thread),
    /// A reference to an opaque object holding host data.
    UserData(AnyUserData),
    /// A host error carried as a guest value.
    Error(Error),
}

/// The guest's nil value, re-exported for terse call sites.
pub use Value::Nil;

/// Guest truthiness: only nil and false are falsy; every other value —
/// including integer zero, number zero and the empty string — is truthy.
pub open spec fn is_truthy(v: Value) -> bool {
    !(v is Nil || v == Value::Boolean(false))
}

/// Raw (hook-free) guest equality: handles compare by reference identity,
/// numbers and integers by exact numeric value, and values of different
/// kinds are unequal (no string/number coercion).
pub open spec fn raw_eq(a: Value, b: Value) -> bool {
    match (a, b) {
        (Value::Nil, Value::Nil) => true,
        (Value::Boolean(x), Value::Boolean(y)) => x == y,
        (Value::LightUserData(x), Value::LightUserData(y)) => x == y,
        (Value::Integer(x), Value::Integer(y)) => x == y,
        (Value::Integer(x), Value::Number(y)) => nb_eq_int(y, x),
        (Value::Number(x), Value::Integer(y)) => nb_eq_int(x, y),
        (Value::Number(x), Value::Number(y)) => nb_eq(x, y),
        (Value::String(x), Value::String(y)) => x == y,
        (Value::Table(x), Value::Table(y)) => x == y,
        (Value::Function(x), Value::Function(y)) => x == y,
        (Value::Thread(x), Value::Thread(y)) => x == y,
        (Value::UserData(x), Value::UserData(y)) => x == y,
        _ => false,
    }
}

impl Value {
    /// The stable per-kind tag used in diagnostics, as a specification.
    pub open spec fn kind_name_spec(self) -> Seq<char> {
        match self {
            Value::Nil => "nil"@,
            Value::Boolean(_) => "boolean"@,
            Value::LightUserData(_) => "lightuserdata"@,
            Value::Integer(_) => "integer"@,
            Value::Number(_) => "number"@,
            Value::String(_) => "string"@,
            Value::Table(_) => "table"@,
            Value::Function(_) => "function"@,
            Value::Thread(_) => "thread"@,
            Value::UserData(_) => "userdata"@,
            Value::Error(_) => "error"@,
        }
    }

    /// Returns the stable per-kind tag used in error messages.
    pub fn kind_name(&self) -> (r: &'static str)
        ensures
            r@ == self.kind_name_spec(),
    {
        match self {
            Value::Nil => "nil",
            Value::Boolean(_) => "boolean",
            Value::LightUserData(_) => "lightuserdata",
            Value::Integer(_) => "integer",
            Value::Number(_) => "number",
            Value::String(_) => "string",
            Value::Table(_) => "table",
            Value::Function(_) => "function",
            Value::Thread(_) => "thread",
            Value::UserData(_) => "userdata",
            Value::Error(_) => "error",
        }
    }

    /// Whether the value is truthy under guest rules.
    pub fn truthy(&self) -> (r: bool)
        ensures
            r == is_truthy(*self),
    {
        match self {
            Value::Nil => false,
            Value::Boolean(b) => *b,
            _ => true,
        }
    }

    /// The identity "pointer" of the value, as a specification: handle
    /// variants map to a tagged object identity, light userdata to its
    /// address, and everything else to null. It is usable for hashing and
    /// diagnostics only; nothing can be read back through it.
    /// The kind tag a handle value carries in its identity pointer.
    pub open spec fn handle_tag(self) -> u64 {
        match self {
            Value::String(_) => 1u64,
            Value::Table(_) => 2u64,
            Value::Function(_) => 3u64,
            Value::Thread(_) => 4u64,
            Value::UserData(_) => 5u64,
            _ => 0u64,
        }
    }

    /// The object identity a handle value carries.
    pub open spec fn handle_index(self) -> u64 {
        match self {
            Value::String(h) => h.index as u64,
            Value::Table(h) => h.index as u64,
            Value::Function(h) => h.index as u64,
            Value::Thread(h) => h.index as u64,
            Value::UserData(h) => h.index as u64,
            _ => 0u64,
        }
    }

    pub open spec fn to_pointer_spec(self) -> u64 {
        match self {
            Value::LightUserData(p) => p.0 as u64,
            Value::String(h) => (1u64 << 60) | ((h.index as u64) & 0x0fff_ffff_ffff_ffff),
            Value::Table(h) => (2u64 << 60) | ((h.index as u64) & 0x0fff_ffff_ffff_ffff),
            Value::Function(h) => (3u64 << 60) | ((h.index as u64) & 0x0fff_ffff_ffff_ffff),
            Value::Thread(h) => (4u64 << 60) | ((h.index as u64) & 0x0fff_ffff_ffff_ffff),
            Value::UserData(h) => (5u64 << 60) | ((h.index as u64) & 0x0fff_ffff_ffff_ffff),
            _ => 0,
        }
    }

    /// Converts the value to a debug-only, non-reversible identity
    /// pointer: distinct live objects of the runtime give distinct
    /// results, and non-handle values give null.
    pub fn to_pointer(&self) -> (r: u64)
        ensures
            r == self.to_pointer_spec(),
    {
        match self {
            Value::LightUserData(p) => p.0 as u64,
            Value::String(h) => (1u64 << 60) | ((h.index as u64) & 0x0fff_ffff_ffff_ffff),
            Value::Table(h) => (2u64 << 60) | ((h.index as u64) & 0x0fff_ffff_ffff_ffff),
            Value::Function(h) => (3u64 << 60) | ((h.index as u64) & 0x0fff_ffff_ffff_ffff),
            Value::Thread(h) => (4u64 << 60) | ((h.index as u64) & 0x0fff_ffff_ffff_ffff),
            Value::UserData(h) => (5u64 << 60) | ((h.index as u64) & 0x0fff_ffff_ffff_ffff),
            _ => 0,
        }
    }
}

/// Injectivity of the identity-pointer encoding: two handle values of
/// different kinds, or of the same kind with different identities, give
/// different pointers, as long as the identities stay below `2^60`.
/// Handles issued by one runtime satisfy the bound whenever its
/// registries hold fewer than `2^60` objects.
pub proof fn lemma_to_pointer_distinct(a: Value, b: Value)
    requires
        a != b,
        a is String || a is Table || a is Function || a is Thread || a is UserData,
        b is String || b is Table || b is Function || b is Thread || b is UserData,
        a.handle_index() < 0x1000_0000_0000_0000,
        b.handle_index() < 0x1000_0000_0000_0000,
    ensures
        a.to_pointer_spec() != b.to_pointer_spec(),
{
    let t1 = a.handle_tag();
    let i1 = a.handle_index();
    let t2 = b.handle_tag();
    let i2 = b.handle_index();
    lemma_pointer_encoding_injective(t1, t2, i1, i2);
}

/// The encoding itself is injective on bounded identities.
proof fn lemma_pointer_encoding_injective(t1: u64, t2: u64, i1: u64, i2: u64)
    by (bit_vector)
    requires
        1 <= t1 <= 5,
        1 <= t2 <= 5,
        i1 < 0x1000_0000_0000_0000,
        i2 < 0x1000_0000_0000_0000,
        t1 != t2 || i1 != i2,
    ensures
        ((t1 << 60) | (i1 & 0x0fff_ffff_ffff_ffff)) != ((t2 << 60) | (i2
            & 0x0fff_ffff_ffff_ffff)),
{
}

impl Clone for Value {
    fn clone(&self) -> (r: Self)
        ensures
            r == *self,
    {
        match self {
            Value::Nil => Value::Nil,
            Value::Boolean(b) => Value::Boolean(*b),
            Value::LightUserData(p) => Value::LightUserData(*p),
            Value::Integer(i) => Value::Integer(*i),
            Value::Number(n) => Value::Number(*n),
            Value::String(h) => Value::String(*h),
            Value::Table(h) => Value::Table(*h),
            Value::Function(h) => Value::Function(*h),
            Value::Thread(h) => Value::Thread(*h),
            Value::UserData(h) => Value::UserData(*h),
            Value::Error(e) => Value::Error(e.clone()),
        }
    }
}

impl PartialEq for Value {
    fn eq(&self, other: &Value) -> (r: bool) {
        match (self, other) {
            (Value::Nil, Value::Nil) => true,
            (Value::Boolean(x), Value::Boolean(y)) => x == y,
            (Value::LightUserData(x), Value::LightUserData(y)) => x.0 == y.0,
            (Value::Integer(x), Value::Integer(y)) => x == y,
            (Value::Integer(x), Value::Number(y)) => nb_eq_int_exec(*y, *x),
            (Value::Number(x), Value::Integer(y)) => nb_eq_int_exec(*x, *y),
            (Value::Number(x), Value::Number(y)) => nb_eq_exec(*x, *y),
            (Value::String(x), Value::String(y)) => x.index == y.index,
            (Value::Table(x), Value::Table(y)) => x.index == y.index,
            (Value::Function(x), Value::Function(y)) => x.index == y.index,
            (Value::Thread(x), Value::Thread(y)) => x.index == y.index,
            (Value::UserData(x), Value::UserData(y)) => x.index == y.index,
            _ => false,
        }
    }
}

impl vstd::std_specs::cmp::PartialEqSpecImpl for Value {
    open spec fn obeys_eq_spec() -> bool {
        true
    }

    open spec fn eq_spec(&self, other: &Value) -> bool {
        raw_eq(*self, *other)
    }
}

} // verus!
