//! The model of the embedded runtime's host-visible state.
//!
//! The real interpreter — its execution engine, bytecode and collector —
//! is out of scope here; this module keeps exactly the state the
//! marshalling boundary needs to be correct about: the interned string
//! arena, the table store, the registry of guest-callable host functions,
//! the opaque-object cells with their borrow discipline, the metatable
//! registry, and the multi-value reuse pool. Host callbacks themselves stay
//! on the host side: a registered function is designated by a plain
//! callback key, and the driver that owns the closures runs them when a
//! dispatch operation hands the key back.
//!
//! Every operation takes the runtime it belongs to; handles from another
//! runtime instance are rejected statically by the `requires` clauses.
use vstd::prelude::*;
use crate::error::Error;
use crate::multivalue::MultiValue;
use crate::numbits::{nb_is_integral, nb_trunc, nb_exact_i64};
use crate::text::{int_text, text_int, format_i64, parse_i64};
use crate::value::{raw_eq, AnyUserData, Function, LuaString, Table, Value};

verus! {

/// One guest table: a sequence part and an associative part.
pub(crate) struct TableData {
    pub(crate) seq: Vec<Value>,
    pub(crate) hash: Vec<(Value, Value)>,
    /// Host callback key of the table's custom equality hook, when one
    /// is set.
    pub(crate) eq_hook: Option<usize>,
}

/// One guest-callable function object wrapping a host callback.
pub(crate) struct FunctionData {
    /// Host-side key of the callback that the driver runs.
    pub(crate) callback: usize,
    /// Whether the callback holds mutable host state, and so is protected
    /// against re-entrant calls.
    pub(crate) mutable: bool,
    /// Whether a call into the callback is currently on the stack.
    pub(crate) busy: bool,
    /// Whether the scope that registered the callback has ended.
    pub(crate) released: bool,
}

/// Borrow state of an opaque-object cell: any number of shared borrows or
/// one exclusive borrow.
#[derive(Clone, Copy, PartialEq, Eq, Structural, Debug)]
pub enum BorrowState {
    /// No borrow is active.
    Unborrowed,
    /// The given number of shared borrows are active.
    Shared(usize),
    /// One exclusive borrow is active.
    Exclusive,
}

/// What an opaque-object cell wraps.
#[derive(Clone, Copy, PartialEq, Eq, Structural, Debug)]
pub enum CellKind {
    /// Host data owned by the cell until its scope ends.
    Owned,
    /// A shared, read-only exposure: exclusive borrows are refused.
    SharedRef,
    /// An exclusive exposure bounded by the scope.
    ExclusiveRef,
}

/// How a registered method receives the object and its state.
#[derive(Clone, Copy, PartialEq, Eq, Structural, Debug)]
pub enum MethodKind {
    /// Receives the object by shared borrow.
    Method,
    /// Receives the object by exclusive borrow; re-entry is refused.
    MethodMut,
    /// A plain function entry: no object borrow is taken.
    Function,
    /// A plain function entry with mutable host state; re-entry is
    /// refused.
    FunctionMut,
}

/// One dispatch-table entry of an opaque object's metatable.
pub struct MethodEntry {
    /// The method's name.
    pub name: String,
    /// How the method borrows the object.
    pub kind: MethodKind,
    /// Host-side key of the callback that the driver runs.
    pub callback: usize,
    /// Whether a call into this entry's mutable host state is on the
    /// stack.
    pub busy: bool,
}

/// One metatable: the dispatch tables of an opaque object.
pub(crate) struct MetatableData {
    /// Whether the metatable identity is still registered with the
    /// runtime.
    pub(crate) registered: bool,
    /// Tag of the host type for a shared per-type metatable; `None` for a
    /// per-instance metatable.
    pub(crate) type_tag: Option<u64>,
    pub(crate) methods: Vec<MethodEntry>,
    pub(crate) meta_fields: Vec<(String, Value)>,
}

/// State of one opaque-object cell.
pub(crate) struct UserDataState {
    pub(crate) released: bool,
    pub(crate) borrow: BorrowState,
    pub(crate) kind: CellKind,
    pub(crate) serializable: bool,
    pub(crate) metatable: usize,
}

/// The host-visible state of one embedded runtime instance.
pub struct Lua {
    pub(crate) strings: Vec<Vec<u8>>,
    pub(crate) tables: Vec<TableData>,
    pub(crate) functions: Vec<FunctionData>,
    pub(crate) userdata: Vec<UserDataState>,
    pub(crate) metatables: Vec<MetatableData>,
    pub(crate) pool: Vec<MultiValue>,
}

impl Lua {
    /// Number of interned strings.
    pub closed spec fn num_strings(self) -> int {
        self.strings@.len() as int
    }

    /// Whether a string handle belongs to this runtime.
    pub closed spec fn valid_str(self, h: LuaString) -> bool {
        h.index < self.strings@.len()
    }

    /// The bytes of an interned string.
    pub closed spec fn str_bytes(self, h: LuaString) -> Seq<u8> {
        self.strings@[h.index as int]@
    }

    /// Number of tables.
    pub closed spec fn num_tables(self) -> int {
        self.tables@.len() as int
    }

    /// Whether a table handle belongs to this runtime.
    pub closed spec fn valid_table(self, t: Table) -> bool {
        t.index < self.tables@.len()
    }

    /// The sequence part of a table, front to back.
    pub closed spec fn table_seq(self, t: Table) -> Seq<Value> {
        self.tables@[t.index as int].seq@
    }

    /// The associative part of a table, in insertion order, keys unique
    /// under raw equality.
    pub closed spec fn table_hash(self, t: Table) -> Seq<(Value, Value)> {
        self.tables@[t.index as int].hash@
    }

    /// Host callback key of the table's custom equality hook, when one
    /// is set.
    pub closed spec fn table_eq_hook(self, t: Table) -> Option<usize> {
        self.tables@[t.index as int].eq_hook
    }

    /// Number of function objects.
    pub closed spec fn num_functions(self) -> int {
        self.functions@.len() as int
    }

    /// Whether a function handle belongs to this runtime.
    pub closed spec fn valid_fn(self, f: Function) -> bool {
        f.index < self.functions@.len()
    }

    /// Host-side callback key of a function object.
    pub closed spec fn fn_callback(self, f: Function) -> int {
        self.functions@[f.index as int].callback as int
    }

    /// Whether a function object protects mutable host state.
    pub closed spec fn fn_mutable(self, f: Function) -> bool {
        self.functions@[f.index as int].mutable
    }

    /// Whether a call into the function is on the stack.
    pub closed spec fn fn_busy(self, f: Function) -> bool {
        self.functions@[f.index as int].busy
    }

    /// Whether the scope that registered the function has ended.
    pub closed spec fn fn_released(self, f: Function) -> bool {
        self.functions@[f.index as int].released
    }

    /// Number of opaque objects.
    pub closed spec fn num_userdata(self) -> int {
        self.userdata@.len() as int
    }

    /// Whether an opaque-object handle belongs to this runtime.
    pub closed spec fn valid_ud(self, u: AnyUserData) -> bool {
        u.index < self.userdata@.len()
    }

    /// Whether the object's host data has been released.
    pub closed spec fn ud_released(self, u: AnyUserData) -> bool {
        self.userdata@[u.index as int].released
    }

    /// The object's borrow state.
    pub closed spec fn ud_borrow(self, u: AnyUserData) -> BorrowState {
        self.userdata@[u.index as int].borrow
    }

    /// What the object's cell wraps.
    pub closed spec fn ud_cell_kind(self, u: AnyUserData) -> CellKind {
        self.userdata@[u.index as int].kind
    }

    /// Whether the object's host data is serializable.
    pub closed spec fn ud_serializable(self, u: AnyUserData) -> bool {
        self.userdata@[u.index as int].serializable
    }

    /// The object's metatable identity.
    pub closed spec fn ud_metatable(self, u: AnyUserData) -> int {
        self.userdata@[u.index as int].metatable as int
    }

    /// Number of metatables ever created.
    pub closed spec fn num_metatables(self) -> int {
        self.metatables@.len() as int
    }

    /// Whether a metatable identity is still registered.
    pub closed spec fn mt_registered(self, m: int) -> bool {
        0 <= m < self.metatables@.len() && self.metatables@[m].registered
    }

    /// The host type tag of a shared per-type metatable.
    pub closed spec fn mt_type_tag(self, m: int) -> Option<u64> {
        self.metatables@[m].type_tag
    }

    /// The method entries of a metatable, in registration order.
    pub closed spec fn mt_methods(self, m: int) -> Seq<MethodEntry> {
        self.metatables@[m].methods@
    }

    /// The validated meta fields of a metatable, in registration order.
    pub closed spec fn mt_meta_fields(self, m: int) -> Seq<(String, Value)> {
        self.metatables@[m].meta_fields@
    }

    /// Number of pooled multi-value lists.
    pub closed spec fn pool_len(self) -> int {
        self.pool@.len() as int
    }

    /// Whether a value's handles (if any) designate objects of this
    /// runtime.
    pub open spec fn owns(self, v: Value) -> bool {
        match v {
            Value::String(h) => self.valid_str(h),
            Value::Table(t) => self.valid_table(t),
            Value::Function(f) => self.valid_fn(f),
            Value::UserData(u) => self.valid_ud(u),
            _ => true,
        }
    }

    /// Whether every value of a sequence is owned by this runtime.
    pub open spec fn owns_all(self, vs: Seq<Value>) -> bool {
        forall|i: int| 0 <= i < vs.len() ==> self.owns(#[trigger] vs[i])
    }

    /// Well-formedness of the runtime state: the reuse pool carries no
    /// value content, interned strings are distinct, shared borrow counts
    /// are positive, and every value stored in a table or metatable is
    /// owned by the runtime.
    pub closed spec fn wf(self) -> bool {
        &&& forall|p: int| 0 <= p < self.pool@.len() ==> (#[trigger] self.pool@[p])@.len() == 0
        &&& forall|i: int, j: int|
            0 <= i < j < self.strings@.len() ==> (#[trigger] self.strings@[i])@ != (
            #[trigger] self.strings@[j])@
        &&& forall|u: int|
            0 <= u < self.userdata@.len() ==> (#[trigger] self.userdata@[u]).metatable
                < self.metatables@.len()
        &&& forall|u: int|
            0 <= u < self.userdata@.len() ==> (#[trigger] self.userdata@[u]).borrow
                != BorrowState::Shared(0)
        &&& forall|t: int, i: int|
            0 <= t < self.tables@.len() && 0 <= i < (#[trigger] self.tables@[t]).seq@.len()
                ==> self.owns(#[trigger] self.tables@[t].seq@[i])
        &&& forall|t: int, i: int|
            0 <= t < self.tables@.len() && 0 <= i < (#[trigger] self.tables@[t]).hash@.len()
                ==> self.owns((#[trigger] self.tables@[t].hash@[i]).0) && self.owns(
                self.tables@[t].hash@[i].1)
        &&& forall|m: int, i: int|
            0 <= m < self.metatables@.len() && 0 <= i < (
            #[trigger] self.metatables@[m]).meta_fields@.len() ==> self.owns(
                (#[trigger] self.metatables@[m].meta_fields@[i]).1)
    }

    /// Strings already interned keep their bytes; new ones may be added.
    pub open spec fn strings_extend(self, post: Lua) -> bool {
        &&& self.num_strings() <= post.num_strings()
        &&& forall|h: LuaString|
            self.valid_str(h) ==> post.valid_str(h) && post.str_bytes(h) == #[trigger] self.str_bytes(h)
    }

    /// Tables already present keep their contents; new ones may be added.
    pub open spec fn tables_extend(self, post: Lua) -> bool {
        &&& self.num_tables() <= post.num_tables()
        &&& forall|t: Table|
            self.valid_table(t) ==> post.valid_table(t) && post.table_seq(t) == #[trigger] self.table_seq(t)
                && post.table_hash(t) == self.table_hash(t) && post.table_eq_hook(t)
                == self.table_eq_hook(t)
    }

    /// The function objects are exactly the same.
    pub open spec fn functions_same(self, post: Lua) -> bool {
        &&& self.functions_extend(post)
        &&& post.num_functions() == self.num_functions()
    }

    /// The opaque-object cells are exactly the same.
    pub open spec fn userdata_same(self, post: Lua) -> bool {
        &&& self.userdata_extend(post)
        &&& post.num_userdata() == self.num_userdata()
    }

    /// The metatables are exactly the same.
    pub open spec fn metatables_same(self, post: Lua) -> bool {
        &&& self.metatables_extend(post)
        &&& post.num_metatables() == self.num_metatables()
    }

    /// The frame of a pure conversion: objects already present keep their
    /// contents, new strings and tables may be appended, and functions,
    /// opaque objects and metatables are untouched (the reuse pool may
    /// change, but stays free of value content by well-formedness).
    pub open spec fn conv_extends(self, post: Lua) -> bool {
        &&& self.strings_extend(post)
        &&& self.tables_extend(post)
        &&& self.functions_same(post)
        &&& self.userdata_same(post)
        &&& self.metatables_same(post)
    }

    /// String extension composes.
    pub proof fn lemma_strings_extend_trans(self, mid: Lua, post: Lua)
        requires
            self.strings_extend(mid),
            mid.strings_extend(post),
        ensures
            self.strings_extend(post),
    {
        assert forall|h: LuaString| self.valid_str(h) implies post.valid_str(h)
            && post.str_bytes(h) == #[trigger] self.str_bytes(h) by {
            assert(mid.str_bytes(h) == self.str_bytes(h));
            assert(post.str_bytes(h) == mid.str_bytes(h));
        }
    }

    /// Table extension composes.
    pub proof fn lemma_tables_extend_trans(self, mid: Lua, post: Lua)
        requires
            self.tables_extend(mid),
            mid.tables_extend(post),
        ensures
            self.tables_extend(post),
    {
        assert forall|t: Table| self.valid_table(t) implies post.valid_table(t)
            && post.table_seq(t) == #[trigger] self.table_seq(t) && post.table_hash(t)
            == self.table_hash(t) && post.table_eq_hook(t) == self.table_eq_hook(t) by {
            assert(mid.table_seq(t) == self.table_seq(t));
            assert(post.table_seq(t) == mid.table_seq(t));
        }
    }

    /// Function-object extension composes.
    pub proof fn lemma_functions_extend_trans(self, mid: Lua, post: Lua)
        requires
            self.functions_extend(mid),
            mid.functions_extend(post),
        ensures
            self.functions_extend(post),
    {
        assert forall|f: Function| self.valid_fn(f) implies post.valid_fn(f)
            && post.fn_callback(f) == #[trigger] self.fn_callback(f) && post.fn_mutable(f)
            == self.fn_mutable(f) && post.fn_busy(f) == self.fn_busy(f) && post.fn_released(f)
            == self.fn_released(f) by {
            assert(mid.fn_callback(f) == self.fn_callback(f));
            assert(post.fn_callback(f) == mid.fn_callback(f));
        }
    }

    /// One opaque object's fields carry across two extension steps.
    proof fn lemma_ud_fields_trans(self, mid: Lua, post: Lua, u: AnyUserData)
        requires
            self.userdata_extend(mid),
            mid.userdata_extend(post),
            self.valid_ud(u),
        ensures
            post.valid_ud(u),
            post.ud_released(u) == self.ud_released(u),
            post.ud_borrow(u) == self.ud_borrow(u),
            post.ud_cell_kind(u) == self.ud_cell_kind(u),
            post.ud_serializable(u) == self.ud_serializable(u),
            post.ud_metatable(u) == self.ud_metatable(u),
    {
        assert(mid.ud_released(u) == self.ud_released(u));
        assert(post.ud_released(u) == mid.ud_released(u));
    }

    /// Opaque-object extension composes.
    pub proof fn lemma_userdata_extend_trans(self, mid: Lua, post: Lua)
        requires
            self.userdata_extend(mid),
            mid.userdata_extend(post),
        ensures
            self.userdata_extend(post),
    {
        assert forall|u: AnyUserData| self.valid_ud(u) implies post.valid_ud(u)
            && post.ud_released(u) == #[trigger] self.ud_released(u) && post.ud_borrow(u)
            == self.ud_borrow(u) by {
            self.lemma_ud_fields_trans(mid, post, u);
        }
        assert forall|u: AnyUserData| self.valid_ud(u) implies post.ud_cell_kind(u)
            == #[trigger] self.ud_cell_kind(u) && post.ud_serializable(u)
            == self.ud_serializable(u) && post.ud_metatable(u) == self.ud_metatable(u) by {
            self.lemma_ud_fields_trans(mid, post, u);
        }
    }

    /// Metatable extension composes.
    pub proof fn lemma_metatables_extend_trans(self, mid: Lua, post: Lua)
        requires
            self.metatables_extend(mid),
            mid.metatables_extend(post),
        ensures
            self.metatables_extend(post),
    {
        assert forall|m: int| 0 <= m < self.num_metatables() implies (
        #[trigger] post.mt_registered(m)) == self.mt_registered(m) && post.mt_type_tag(m)
            == self.mt_type_tag(m) && post.mt_methods(m) == self.mt_methods(m)
            && post.mt_meta_fields(m) == self.mt_meta_fields(m) by {
            assert(mid.mt_registered(m) == self.mt_registered(m));
            assert(post.mt_registered(m) == mid.mt_registered(m));
        }
    }

    /// A conversion frame keeps ownership of values.
    pub proof fn lemma_conv_extends_owns(self, post: Lua, v: Value)
        requires
            self.conv_extends(post),
            self.owns(v),
        ensures
            post.owns(v),
    {
        match v {
            Value::String(h) => {
                assert(self.str_bytes(h) == self.str_bytes(h));
            },
            Value::Table(t) => {
                assert(self.table_seq(t) == self.table_seq(t));
            },
            Value::Function(f) => {
                assert(self.fn_callback(f) == self.fn_callback(f));
            },
            Value::UserData(u) => {
                assert(self.ud_released(u) == self.ud_released(u));
            },
            _ => {},
        }
    }

    /// A conversion frame composes.
    pub proof fn lemma_conv_extends_trans(self, mid: Lua, post: Lua)
        requires
            self.conv_extends(mid),
            mid.conv_extends(post),
        ensures
            self.conv_extends(post),
    {
        assert(self.strings_extend(post)) by {
            assert forall|h: LuaString| self.valid_str(h) implies post.valid_str(h)
                && post.str_bytes(h) == #[trigger] self.str_bytes(h) by {
                assert(mid.str_bytes(h) == self.str_bytes(h));
                assert(post.str_bytes(h) == mid.str_bytes(h));
            }
        }
        assert(self.tables_extend(post)) by {
            assert forall|t: Table| self.valid_table(t) implies post.valid_table(t)
                && post.table_seq(t) == #[trigger] self.table_seq(t) && post.table_hash(t)
                == self.table_hash(t) && post.table_eq_hook(t) == self.table_eq_hook(t) by {
                assert(mid.table_seq(t) == self.table_seq(t));
                assert(post.table_seq(t) == mid.table_seq(t));
            }
        }
        assert(self.functions_same(post)) by {
            assert forall|f: Function| self.valid_fn(f) implies post.valid_fn(f)
                && post.fn_callback(f) == #[trigger] self.fn_callback(f) && post.fn_mutable(f)
                == self.fn_mutable(f) && post.fn_busy(f) == self.fn_busy(f)
                && post.fn_released(f) == self.fn_released(f) by {
                assert(mid.fn_callback(f) == self.fn_callback(f));
                assert(post.fn_callback(f) == mid.fn_callback(f));
            }
        }
        assert(self.userdata_same(post)) by {
            assert forall|u: AnyUserData| self.valid_ud(u) implies post.valid_ud(u)
                && post.ud_released(u) == #[trigger] self.ud_released(u) && post.ud_borrow(u)
                == self.ud_borrow(u) && post.ud_cell_kind(u) == self.ud_cell_kind(u)
                && post.ud_serializable(u) == self.ud_serializable(u) && post.ud_metatable(u)
                == self.ud_metatable(u) by {
                assert(mid.ud_released(u) == self.ud_released(u));
                assert(post.ud_released(u) == mid.ud_released(u));
            }
        }
        assert(self.metatables_same(post)) by {
            assert forall|m: int| 0 <= m < self.num_metatables() implies (
            #[trigger] post.mt_registered(m)) == self.mt_registered(m) && post.mt_type_tag(m)
                == self.mt_type_tag(m) && post.mt_methods(m) == self.mt_methods(m)
                && post.mt_meta_fields(m) == self.mt_meta_fields(m) by {
                assert(mid.mt_registered(m) == self.mt_registered(m));
                assert(post.mt_registered(m) == mid.mt_registered(m));
            }
        }
    }

    /// Creates a fresh runtime instance with no objects and an empty
    /// reuse pool.
    pub fn new() -> (r: Lua)
        ensures
            r.wf(),
            r.num_strings() == 0,
            r.num_tables() == 0,
            r.num_functions() == 0,
            r.num_userdata() == 0,
            r.num_metatables() == 0,
            r.pool_len() == 0,
    {
        Lua {
            strings: Vec::new(),
            tables: Vec::new(),
            functions: Vec::new(),
            userdata: Vec::new(),
            metatables: Vec::new(),
            pool: Vec::new(),
        }
    }

    /// Interns a byte string: an existing string with the same bytes is
    /// returned as is, so that handle equality coincides with content
    /// equality.
    #[verifier::loop_isolation(false)]
    pub fn create_string(&mut self, bytes: Vec<u8>) -> (r: LuaString)
        requires
            old(self).wf(),
        ensures
            final(self).wf(),
            old(self).conv_extends(*final(self)),
            final(self).valid_str(r),
            final(self).str_bytes(r) == bytes@,
            forall|h: LuaString|
                old(self).valid_str(h) && old(self).str_bytes(h) == bytes@ ==> r == h,
            final(self).pool_len() == old(self).pool_len(),
            forall|p: Value| old(self).owns(p) ==> final(self).owns(p),
    {
        let n = self.strings.len();
        let mut i: usize = 0;
        while i < n
            invariant
                n == self.strings@.len(),
                i <= n,
                forall|k: int| 0 <= k < i ==> (#[trigger] self.strings@[k])@ != bytes@,
            decreases n - i,
        {
            if bytes_eq(&self.strings[i], &bytes) {
                let r = LuaString { index: i };
                proof {
                    assert forall|h: LuaString|
                        self.valid_str(h) && self.str_bytes(h) == bytes@ implies h == r by {
                        if h.index < i {
                            assert(self.strings@[h.index as int]@ != self.strings@[i as int]@);
                        } else if h.index > i {
                            assert(self.strings@[i as int]@ != self.strings@[h.index as int]@);
                        }
                    }
                }
                return r;
            }
            i = i + 1;
        }
        let r = LuaString { index: n };
        self.strings.push(bytes);
        proof {
            assert(forall|v: Value| old(self).owns(v) ==> self.owns(v));
        }
        r
    }

    /// Whether a table handle designates a table of this runtime.
    pub fn has_table(&self, t: Table) -> (r: bool)
        ensures
            r == self.valid_table(t),
    {
        t.index < self.tables.len()
    }

    /// Whether a string handle designates a string of this runtime.
    pub fn has_string(&self, s: LuaString) -> (r: bool)
        ensures
            r == self.valid_str(s),
    {
        s.index < self.strings.len()
    }

    /// Returns the bytes of an interned string.
    pub fn string_as_bytes(&self, s: LuaString) -> (r: &Vec<u8>)
        requires
            self.valid_str(s),
        ensures
            r@ == self.str_bytes(s),
    {
        &self.strings[s.index]
    }

    /// Obtains a multi-value list, drawing from the reuse pool when one is
    /// available; the list is always empty of leftover values.
    pub fn new_multivalue_from_pool(&mut self) -> (r: MultiValue)
        requires
            old(self).wf(),
        ensures
            final(self).wf(),
            old(self).conv_extends(*final(self)),
            r@ == Seq::<Value>::empty(),
    {
        match self.pool.pop() {
            Some(mut mv) => {
                mv.clear();
                mv
            },
            None => MultiValue::new(),
        }
    }

    /// Returns a multi-value list to the reuse pool; it is cleared first,
    /// so no value survives between unrelated calls.
    pub fn return_multivalue_to_pool(&mut self, mv: MultiValue)
        requires
            old(self).wf(),
        ensures
            final(self).wf(),
            old(self).conv_extends(*final(self)),
            final(self).pool_len() == old(self).pool_len() + 1,
    {
        let mut mv = mv;
        mv.clear();
        self.pool.push(mv);
    }

    /// The guest's built-in coercion of a value to string bytes, as a
    /// specification: a string gives its bytes, an integer its decimal
    /// text, an integral number its decimal text followed by `.0`; nothing
    /// else is coerced. (Numbers with a fractional part have no textual
    /// form in this model.)
    pub open spec fn coerce_string_spec(self, v: Value) -> Option<Seq<u8>> {
        match v {
            Value::String(h) => Some(self.str_bytes(h)),
            Value::Integer(i) => Some(int_text(i as int)),
            Value::Number(b) => if nb_is_integral(b) && i64::MIN <= nb_trunc(b) <= i64::MAX {
                Some(int_text(nb_trunc(b)) + seq![0x2eu8, 0x30u8])
            } else {
                None
            },
            _ => None,
        }
    }

    /// Coerces a value to its guest textual form, if it has one.
    #[verifier::loop_isolation(false)]
    pub fn coerce_string_bytes(&self, v: &Value) -> (r: Option<Vec<u8>>)
        requires
            self.owns(*v),
        ensures
            match r {
                Some(bs) => self.coerce_string_spec(*v) == Some(bs@),
                None => self.coerce_string_spec(*v) is None,
            },
    {
        match v {
            Value::String(h) => {
                let mut out: Vec<u8> = Vec::new();
                let src = &self.strings[h.index];
                let m = src.len();
                let mut i: usize = 0;
                while i < m
                    invariant
                        m == src@.len(),
                        i <= m,
                        out@ =~= src@.subrange(0, i as int),
                    decreases m - i,
                {
                    out.push(src[i]);
                    i = i + 1;
                    proof {
                        assert(out@ =~= src@.subrange(0, i as int));
                    }
                }
                proof {
                    assert(out@ =~= src@);
                }
                Some(out)
            },
            Value::Integer(i) => Some(format_i64(*i)),
            Value::Number(b) => match nb_exact_i64(*b) {
                Some(i) => {
                    let mut out = format_i64(i);
                    out.push(0x2e);
                    out.push(0x30);
                    proof {
                        assert(out@ =~= int_text(i as int) + seq![0x2eu8, 0x30u8]);
                    }
                    Some(out)
                },
                None => None,
            },
            _ => None,
        }
    }

    /// The guest's built-in coercion of a value to an integer, as a
    /// specification: an integer is itself, a number converts when it is
    /// integral and in range, a string converts when its bytes denote an
    /// integer; nothing else is coerced.
    pub open spec fn coerce_integer_spec(self, v: Value) -> Option<i64> {
        match v {
            Value::Integer(i) => Some(i),
            Value::Number(b) => if nb_is_integral(b) && i64::MIN <= nb_trunc(b) <= i64::MAX {
                Some(nb_trunc(b) as i64)
            } else {
                None
            },
            Value::String(h) => text_int(self.str_bytes(h)),
            _ => None,
        }
    }

    /// Coerces a value to a guest integer, if the guest's rules allow it.
    pub fn coerce_integer(&self, v: &Value) -> (r: Option<i64>)
        requires
            self.owns(*v),
        ensures
            r == self.coerce_integer_spec(*v),
    {
        match v {
            Value::Integer(i) => Some(*i),
            Value::Number(b) => nb_exact_i64(*b),
            Value::String(h) => parse_i64(&self.strings[h.index]),
            _ => None,
        }
    }

    /// Creates a fresh, empty table.
    pub fn create_table(&mut self) -> (t: Table)
        requires
            old(self).wf(),
        ensures
            final(self).wf(),
            old(self).conv_extends(*final(self)),
            final(self).valid_table(t),
            !old(self).valid_table(t),
            final(self).table_seq(t) == Seq::<Value>::empty(),
            final(self).table_hash(t) == Seq::<(Value, Value)>::empty(),
    {
        let t = Table { index: self.tables.len() };
        self.tables.push(TableData { seq: Vec::new(), hash: Vec::new(), eq_hook: None });
        t
    }

    /// Creates a table whose sequence part holds the given values in
    /// order.
    pub fn create_sequence_from(&mut self, values: Vec<Value>) -> (t: Table)
        requires
            old(self).wf(),
            old(self).owns_all(values@),
        ensures
            final(self).wf(),
            old(self).conv_extends(*final(self)),
            final(self).valid_table(t),
            !old(self).valid_table(t),
            final(self).table_seq(t) == values@,
            final(self).table_hash(t) == Seq::<(Value, Value)>::empty(),
    {
        let t = Table { index: self.tables.len() };
        self.tables.push(TableData { seq: values, hash: Vec::new(), eq_hook: None });
        t
    }

    /// Length of a table's sequence part.
    pub fn table_seq_len(&self, t: Table) -> (r: usize)
        requires
            self.valid_table(t),
        ensures
            r == self.table_seq(t).len(),
    {
        self.tables[t.index].seq.len()
    }

    /// The value at a position of a table's sequence part (zero-based).
    pub fn table_seq_get(&self, t: Table, i: usize) -> (r: Value)
        requires
            self.wf(),
            self.valid_table(t),
            i < self.table_seq(t).len(),
        ensures
            r == self.table_seq(t)[i as int],
            self.owns(r),
    {
        let r = self.tables[t.index].seq[i].clone();
        proof {
            assert(self.owns(self.tables@[t.index as int].seq@[i as int]));
        }
        r
    }

    /// Length of a table's associative part.
    pub fn table_hash_len(&self, t: Table) -> (r: usize)
        requires
            self.valid_table(t),
        ensures
            r == self.table_hash(t).len(),
    {
        self.tables[t.index].hash.len()
    }

    /// The entry at a position of a table's associative part, in
    /// insertion order.
    pub fn table_hash_get(&self, t: Table, i: usize) -> (r: (Value, Value))
        requires
            self.wf(),
            self.valid_table(t),
            i < self.table_hash(t).len(),
        ensures
            r == self.table_hash(t)[i as int],
            self.owns(r.0),
            self.owns(r.1),
    {
        let entry = &self.tables[t.index].hash[i];
        let r = (entry.0.clone(), entry.1.clone());
        proof {
            assert(self.owns(self.tables@[t.index as int].hash@[i as int].0));
            assert(self.owns(self.tables@[t.index as int].hash@[i as int].1));
        }
        r
    }

    /// Creates a table whose associative part holds the given entries,
    /// kept exactly as given, in order.
    pub fn create_table_with_entries(&mut self, entries: Vec<(Value, Value)>) -> (t: Table)
        requires
            old(self).wf(),
            forall|i: int|
                0 <= i < entries@.len() ==> old(self).owns((#[trigger] entries@[i]).0)
                    && old(self).owns(entries@[i].1),
        ensures
            final(self).wf(),
            old(self).conv_extends(*final(self)),
            final(self).valid_table(t),
            !old(self).valid_table(t),
            final(self).table_seq(t) == Seq::<Value>::empty(),
            final(self).table_hash(t) == entries@,
    {
        let t = Table { index: self.tables.len() };
        self.tables.push(TableData { seq: Vec::new(), hash: entries, eq_hook: None });
        t
    }

    /// Installs a custom equality hook on a table: comparisons of this
    /// table with another table consult the host callback designated by
    /// `callback` (left operand first), mirroring the hook protocol of
    /// opaque objects.
    pub fn set_table_eq_hook(&mut self, t: Table, callback: usize)
        requires
            old(self).wf(),
            old(self).valid_table(t),
        ensures
            final(self).wf(),
            final(self).valid_table(t),
            final(self).table_eq_hook(t) == Some(callback),
            final(self).table_seq(t) == old(self).table_seq(t),
            final(self).table_hash(t) == old(self).table_hash(t),
            final(self).num_tables() == old(self).num_tables(),
            forall|t2: Table|
                old(self).valid_table(t2) && t2 != t ==> final(self).valid_table(t2)
                    && final(self).table_seq(t2) == #[trigger] old(self).table_seq(t2)
                    && final(self).table_hash(t2) == old(self).table_hash(t2)
                    && final(self).table_eq_hook(t2) == old(self).table_eq_hook(t2),
            old(self).strings_extend(*final(self)),
            final(self).num_strings() == old(self).num_strings(),
            old(self).functions_same(*final(self)),
            old(self).userdata_same(*final(self)),
            old(self).metatables_same(*final(self)),
            final(self).pool_len() == old(self).pool_len(),
    {
        let td = &mut self.tables[t.index];
        td.eq_hook = Some(callback);
    }

    /// Reads a table back as the elements of a set, following the
    /// boundary's documented policy: a table with a non-empty sequence
    /// part is read through its sequence values, and only a table whose
    /// sequence part is empty is read through the keys of its
    /// associative part. A table that was itself encoded as a sequence
    /// of truthy values therefore decodes through those values, not
    /// through the keys that carry them — a deliberate asymmetry that
    /// callers must expect.
    #[verifier::loop_isolation(false)]
    pub fn table_set_elements(&self, t: Table) -> (r: Vec<Value>)
        requires
            self.wf(),
            self.valid_table(t),
        ensures
            r@ == if self.table_seq(t).len() > 0 {
                self.table_seq(t)
            } else {
                self.table_hash(t).map_values(|p: (Value, Value)| p.0)
            },
            self.owns_all(r@),
    {
        let mut out: Vec<Value> = Vec::new();
        if self.table_seq_len(t) > 0 {
            let n = self.table_seq_len(t);
            let mut i: usize = 0;
            while i < n
                invariant
                    i <= n,
                    out@ =~= self.table_seq(t).subrange(0, i as int),
                decreases n - i,
            {
                out.push(self.table_seq_get(t, i));
                i = i + 1;
                proof {
                    assert(out@ =~= self.table_seq(t).subrange(0, i as int));
                }
            }
            proof {
                assert(out@ =~= self.table_seq(t));
            }
        } else {
            let n = self.table_hash_len(t);
            let mut i: usize = 0;
            while i < n
                invariant
                    i <= n,
                    out@ =~= self.table_hash(t).map_values(
                        |p: (Value, Value)| p.0,
                    ).subrange(0, i as int),
                decreases n - i,
            {
                let entry = self.table_hash_get(t, i);
                out.push(entry.0);
                i = i + 1;
                proof {
                    assert(out@ =~= self.table_hash(t).map_values(
                        |p: (Value, Value)| p.0,
                    ).subrange(0, i as int));
                }
            }
            proof {
                assert(out@ =~= self.table_hash(t).map_values(|p: (Value, Value)| p.0));
            }
        }
        proof {
            assert forall|k: int| 0 <= k < out@.len() implies self.owns(
                #[trigger] out@[k],
            ) by {
                if self.table_seq(t).len() > 0 {
                    assert(self.owns(self.tables@[t.index as int].seq@[k]));
                } else {
                    assert(self.owns(self.tables@[t.index as int].hash@[k].0));
                }
            }
        }
        out
    }

    /// Reads a table's full key/value pairs: the sequence part under its
    /// one-based integer keys, followed by the associative part in
    /// insertion order.
    #[verifier::loop_isolation(false)]
    pub fn table_entries(&self, t: Table) -> (r: Vec<(Value, Value)>)
        requires
            self.wf(),
            self.valid_table(t),
            self.table_seq(t).len() <= i64::MAX,
        ensures
            r@ == Seq::new(
                self.table_seq(t).len(),
                |i: int| (Value::Integer((i + 1) as i64), self.table_seq(t)[i]),
            ) + self.table_hash(t),
            forall|i: int|
                0 <= i < r@.len() ==> self.owns((#[trigger] r@[i]).0) && self.owns(r@[i].1),
    {
        let ghost seq_part: Seq<(Value, Value)> = Seq::new(
            self.table_seq(t).len(),
            |i: int| (Value::Integer((i + 1) as i64), self.table_seq(t)[i]),
        );
        let mut out: Vec<(Value, Value)> = Vec::new();
        let n = self.table_seq_len(t);
        let mut i: usize = 0;
        while i < n
            invariant
                i <= n,
                out@ =~= seq_part.subrange(0, i as int),
            decreases n - i,
        {
            let v = self.table_seq_get(t, i);
            out.push((Value::Integer((i as i64) + 1), v));
            i = i + 1;
            proof {
                assert(out@ =~= seq_part.subrange(0, i as int));
            }
        }
        proof {
            assert(out@ =~= seq_part);
        }
        let m = self.table_hash_len(t);
        let mut j: usize = 0;
        while j < m
            invariant
                j <= m,
                out@ =~= seq_part + self.table_hash(t).subrange(0, j as int),
            decreases m - j,
        {
            out.push(self.table_hash_get(t, j));
            j = j + 1;
            proof {
                assert(out@ =~= seq_part + self.table_hash(t).subrange(0, j as int));
            }
        }
        proof {
            assert(out@ =~= seq_part + self.table_hash(t));
            assert forall|k: int|
                0 <= k < out@.len() implies self.owns((#[trigger] out@[k]).0) && self.owns(
                out@[k].1,
            ) by {
                if k < seq_part.len() {
                    assert(self.owns(self.tables@[t.index as int].seq@[k]));
                } else {
                    assert(self.owns(self.tables@[t.index as int].hash@[k - seq_part.len()].0));
                    assert(self.owns(self.tables@[t.index as int].hash@[k - seq_part.len()].1));
                }
            }
        }
        out
    }

    /// Appends a value to a table's sequence part.
    pub fn table_seq_push(&mut self, t: Table, v: Value)
        requires
            old(self).wf(),
            old(self).valid_table(t),
            old(self).owns(v),
        ensures
            final(self).wf(),
            final(self).valid_table(t),
            final(self).table_seq(t) == old(self).table_seq(t).push(v),
            final(self).table_hash(t) == old(self).table_hash(t),
            final(self).table_eq_hook(t) == old(self).table_eq_hook(t),
            final(self).num_strings() == old(self).num_strings(),
            forall|h: LuaString|
                old(self).valid_str(h) ==> final(self).valid_str(h) && final(self).str_bytes(h)
                    == #[trigger] old(self).str_bytes(h),
            final(self).num_tables() == old(self).num_tables(),
            forall|t2: Table|
                old(self).valid_table(t2) && t2 != t ==> final(self).valid_table(t2)
                    && final(self).table_seq(t2) == #[trigger] old(self).table_seq(t2)
                    && final(self).table_hash(t2) == old(self).table_hash(t2)
                    && final(self).table_eq_hook(t2) == old(self).table_eq_hook(t2),
    {
        let td = &mut self.tables[t.index];
        td.seq.push(v);
    }

    /// Functions already present are unchanged; new ones may be added.
    pub open spec fn functions_extend(self, post: Lua) -> bool {
        &&& self.num_functions() <= post.num_functions()
        &&& forall|f: Function|
            self.valid_fn(f) ==> post.valid_fn(f) && post.fn_callback(f) == #[trigger] self.fn_callback(f)
                && post.fn_mutable(f) == self.fn_mutable(f) && post.fn_busy(f) == self.fn_busy(f)
                && post.fn_released(f) == self.fn_released(f)
    }

    /// Opaque objects already present are unchanged; new ones may be
    /// added.
    pub open spec fn userdata_extend(self, post: Lua) -> bool {
        &&& self.num_userdata() <= post.num_userdata()
        &&& forall|u: AnyUserData|
            self.valid_ud(u) ==> post.valid_ud(u) && post.ud_released(u) == #[trigger] self.ud_released(u)
                && post.ud_borrow(u) == self.ud_borrow(u)
        &&& forall|u: AnyUserData|
            self.valid_ud(u) ==> post.ud_cell_kind(u) == #[trigger] self.ud_cell_kind(u)
                && post.ud_serializable(u) == self.ud_serializable(u) && post.ud_metatable(u)
                == self.ud_metatable(u)
    }

    /// Metatables already present are unchanged; new ones may be added.
    pub open spec fn metatables_extend(self, post: Lua) -> bool {
        &&& self.num_metatables() <= post.num_metatables()
        &&& forall|m: int|
            0 <= m < self.num_metatables() ==> (#[trigger] post.mt_registered(m))
                == self.mt_registered(m) && post.mt_type_tag(m) == self.mt_type_tag(m)
                && post.mt_methods(m) == self.mt_methods(m) && post.mt_meta_fields(m)
                == self.mt_meta_fields(m)
    }

    /// Every function object except `f` is unchanged.
    pub open spec fn fn_except_frame(self, post: Lua, f: Function) -> bool {
        forall|g: Function|
            self.valid_fn(g) && g != f ==> post.valid_fn(g) && post.fn_callback(g)
                == #[trigger] self.fn_callback(g) && post.fn_mutable(g) == self.fn_mutable(g)
                && post.fn_busy(g) == self.fn_busy(g) && post.fn_released(g)
                == self.fn_released(g)
    }

    /// Every opaque-object cell except `u` is unchanged.
    pub open spec fn ud_except_frame(self, post: Lua, u: AnyUserData) -> bool {
        forall|w: AnyUserData|
            self.valid_ud(w) && w != u ==> post.valid_ud(w) && post.ud_released(w)
                == #[trigger] self.ud_released(w) && post.ud_borrow(w) == self.ud_borrow(w)
                && post.ud_cell_kind(w) == self.ud_cell_kind(w) && post.ud_serializable(w)
                == self.ud_serializable(w) && post.ud_metatable(w) == self.ud_metatable(w)
    }

    /// Every metatable except the one at `m0` is unchanged.
    pub open spec fn mt_except_frame(self, post: Lua, m0: int) -> bool {
        forall|m: int|
            0 <= m < self.num_metatables() && m != m0 ==> (#[trigger] post.mt_registered(m))
                == self.mt_registered(m) && post.mt_type_tag(m) == self.mt_type_tag(m)
                && post.mt_methods(m) == self.mt_methods(m) && post.mt_meta_fields(m)
                == self.mt_meta_fields(m)
    }

    /// Strings and tables keep their contents and counts.
    pub open spec fn strings_tables_same(self, post: Lua) -> bool {
        &&& self.strings_extend(post)
        &&& post.num_strings() == self.num_strings()
        &&& self.tables_extend(post)
        &&& post.num_tables() == self.num_tables()
    }

    /// Every observable part of the runtime is unchanged (the pool's
    /// length included).
    pub open spec fn same_state(self, post: Lua) -> bool {
        &&& self.strings_tables_same(post)
        &&& self.functions_same(post)
        &&& self.userdata_same(post)
        &&& self.metatables_same(post)
        &&& post.pool_len() == self.pool_len()
    }

    /// Registers a guest-callable function object around the host
    /// callback designated by `callback`; `mutable` marks a callback that
    /// holds mutable host state and must not be re-entered.
    pub(crate) fn create_function_obj(&mut self, callback: usize, mutable: bool) -> (f: Function)
        requires
            old(self).wf(),
        ensures
            final(self).wf(),
            final(self).valid_fn(f),
            !old(self).valid_fn(f),
            final(self).fn_callback(f) == callback,
            final(self).fn_mutable(f) == mutable,
            !final(self).fn_busy(f),
            !final(self).fn_released(f),
            old(self).strings_tables_same(*final(self)),
            old(self).functions_extend(*final(self)),
            final(self).num_functions() == old(self).num_functions() + 1,
            old(self).userdata_same(*final(self)),
            old(self).metatables_same(*final(self)),
            final(self).pool_len() == old(self).pool_len(),
    {
        let f = Function { index: self.functions.len() };
        self.functions.push(
            FunctionData { callback, mutable, busy: false, released: false },
        );
        f
    }

    /// A live handle's metatable identity lies within the runtime's
    /// metatable registry.
    pub proof fn lemma_ud_metatable_in_range(self, u: AnyUserData)
        requires
            self.wf(),
            self.valid_ud(u),
        ensures
            0 <= self.ud_metatable(u) < self.num_metatables(),
    {
        assert(self.userdata@[u.index as int].metatable < self.metatables@.len());
    }

    /// Why a call into a scope-bounded callback is refused, if it is.
    pub open spec fn callback_call_error(self, f: Function) -> Option<Error> {
        if self.fn_released(f) {
            Some(Error::CallbackDestructed)
        } else if self.fn_mutable(f) && self.fn_busy(f) {
            Some(Error::RecursiveMutCallback)
        } else {
            None
        }
    }

    /// Begins a guest call into a registered function: a released
    /// callback is refused with [`Error::CallbackDestructed`], a
    /// re-entered mutable callback with [`Error::RecursiveMutCallback`];
    /// otherwise the host callback key to run is handed back.
    pub fn start_callback_call(&mut self, f: Function) -> (r: Result<usize, Error>)
        requires
            old(self).wf(),
            old(self).valid_fn(f),
        ensures
            final(self).wf(),
            match old(self).callback_call_error(f) {
                Some(e) => r == Err::<usize, Error>(e) && old(self).same_state(*final(self)),
                None => {
                    &&& r == Ok::<usize, Error>(old(self).fn_callback(f) as usize)
                    &&& final(self).valid_fn(f)
                    &&& final(self).fn_busy(f) == (old(self).fn_busy(f) || old(self).fn_mutable(f))
                    &&& old(self).strings_tables_same(*final(self))
                    &&& old(self).userdata_same(*final(self))
                    &&& old(self).metatables_same(*final(self))
                    &&& final(self).num_functions() == old(self).num_functions()
                    &&& forall|g: Function|
                        old(self).valid_fn(g) && g != f ==> final(self).valid_fn(g)
                            && final(self).fn_callback(g) == #[trigger] old(self).fn_callback(g)
                            && final(self).fn_mutable(g) == old(self).fn_mutable(g)
                            && final(self).fn_busy(g) == old(self).fn_busy(g)
                            && final(self).fn_released(g) == old(self).fn_released(g)
                    &&& final(self).fn_callback(f) == old(self).fn_callback(f)
                    &&& final(self).fn_mutable(f) == old(self).fn_mutable(f)
                    &&& final(self).fn_released(f) == old(self).fn_released(f)
                    &&& final(self).pool_len() == old(self).pool_len()
                },
            },
    {
        let fd = &self.functions[f.index];
        if fd.released {
            return Err(Error::CallbackDestructed);
        }
        if fd.mutable && fd.busy {
            return Err(Error::RecursiveMutCallback);
        }
        let callback = fd.callback;
        if fd.mutable {
            let fd = &mut self.functions[f.index];
            fd.busy = true;
        }
        Ok(callback)
    }

    /// Ends a guest call into a registered function, clearing its
    /// re-entry guard.
    pub fn finish_callback_call(&mut self, f: Function)
        requires
            old(self).wf(),
            old(self).valid_fn(f),
        ensures
            final(self).wf(),
            old(self).strings_tables_same(*final(self)),
            old(self).userdata_same(*final(self)),
            old(self).metatables_same(*final(self)),
            final(self).num_functions() == old(self).num_functions(),
            forall|g: Function|
                old(self).valid_fn(g) && g != f ==> final(self).valid_fn(g)
                    && final(self).fn_callback(g) == #[trigger] old(self).fn_callback(g)
                    && final(self).fn_mutable(g) == old(self).fn_mutable(g)
                    && final(self).fn_busy(g) == old(self).fn_busy(g)
                    && final(self).fn_released(g) == old(self).fn_released(g),
            final(self).valid_fn(f),
            final(self).fn_callback(f) == old(self).fn_callback(f),
            final(self).fn_mutable(f) == old(self).fn_mutable(f),
            final(self).fn_released(f) == old(self).fn_released(f),
            !final(self).fn_busy(f),
            final(self).pool_len() == old(self).pool_len(),
    {
        let fd = &mut self.functions[f.index];
        fd.busy = false;
    }

    /// Severs a scope-bounded callback: every later call is refused.
    pub(crate) fn release_function(&mut self, f: Function)
        requires
            old(self).wf(),
            old(self).valid_fn(f),
        ensures
            final(self).wf(),
            old(self).strings_tables_same(*final(self)),
            old(self).userdata_same(*final(self)),
            old(self).metatables_same(*final(self)),
            final(self).num_functions() == old(self).num_functions(),
            old(self).fn_except_frame(*final(self), f),
            final(self).valid_fn(f),
            final(self).fn_released(f),
            final(self).fn_callback(f) == old(self).fn_callback(f),
            final(self).fn_mutable(f) == old(self).fn_mutable(f),
            final(self).fn_busy(f) == old(self).fn_busy(f),
            final(self).pool_len() == old(self).pool_len(),
    {
        let fd = &mut self.functions[f.index];
        fd.released = true;
    }
}

/// Builder of an opaque object's dispatch tables: the host registers its
/// methods, plain functions and meta fields here, then hands the registry
/// to the runtime, which validates it and builds the metatable.
pub struct UserDataRegistry {
    pub(crate) methods: Vec<MethodEntry>,
    pub(crate) meta_fields: Vec<(String, Value)>,
}

/// First entry with the given name in a dispatch table, if any.
pub open spec fn find_method_idx(entries: Seq<MethodEntry>, name: Seq<char>) -> Option<int>
    decreases entries.len(),
{
    if entries.len() == 0 {
        None
    } else if entries[0].name@ == name {
        Some(0int)
    } else {
        match find_method_idx(entries.drop_first(), name) {
            Some(k) => Some(k + 1),
            None => None,
        }
    }
}

/// A found entry's index is in range and is the first match.
pub proof fn lemma_find_method_idx_props(entries: Seq<MethodEntry>, name: Seq<char>)
    ensures
        match find_method_idx(entries, name) {
            Some(i) => 0 <= i < entries.len() && entries[i].name@ == name && forall|j: int|
                0 <= j < i ==> (#[trigger] entries[j]).name@ != name,
            None => forall|j: int|
                0 <= j < entries.len() ==> (#[trigger] entries[j]).name@ != name,
        },
    decreases entries.len(),
{
    if entries.len() > 0 {
        lemma_find_method_idx_props(entries.drop_first(), name);
        assert(forall|j: int|
            1 <= j < entries.len() ==> entries.drop_first()[j - 1] == #[trigger] entries[j]);
    }
}

/// Scanning past a prefix without a match shifts the found index.
proof fn lemma_find_method_idx_skip(entries: Seq<MethodEntry>, name: Seq<char>, i: int)
    requires
        0 <= i <= entries.len(),
        forall|j: int| 0 <= j < i ==> (#[trigger] entries[j]).name@ != name,
    ensures
        find_method_idx(entries, name) == match find_method_idx(entries.skip(i), name) {
            Some(k) => Some(k + i),
            None => None::<int>,
        },
    decreases i,
{
    if i == 0 {
        assert(entries.skip(0) =~= entries);
    } else {
        assert(entries.len() > 0);
        assert(entries[0].name@ != name);
        assert(entries.drop_first() =~= entries.skip(1));
        assert(entries.drop_first().skip(i - 1) =~= entries.skip(i));
        assert(forall|j: int|
            0 <= j < i - 1 ==> (#[trigger] entries.drop_first()[j]).name@ != name) by {
            assert(forall|j: int|
                0 <= j < i - 1 ==> entries.drop_first()[j] == #[trigger] entries[j + 1]);
        }
        lemma_find_method_idx_skip(entries.drop_first(), name, i - 1);
    }
}

/// Updating an entry in place, keeping its name, keeps it the first
/// match for that name.
proof fn lemma_find_method_idx_update(
    entries: Seq<MethodEntry>,
    name: Seq<char>,
    i: int,
    entry2: MethodEntry,
)
    requires
        find_method_idx(entries, name) == Some(i),
        entry2.name@ == name,
    ensures
        find_method_idx(entries.update(i, entry2), name) == Some(i),
{
    lemma_find_method_idx_props(entries, name);
    let updated = entries.update(i, entry2);
    assert(forall|j: int|
        0 <= j < i ==> (#[trigger] updated[j]).name@ != name);
    lemma_find_method_idx_skip(updated, name, i);
    assert(updated.skip(i)[0] == entry2);
}

/// The error is a meta-field validation failure for the named protocol
/// entry, carrying the offered value's kind tag and the expected-kind
/// message.
pub open spec fn is_meta_type_err(e: Error, method: String, v: Value) -> bool {
    e matches Error::MetaMethodTypeError { method: m, kind, message } && (m == method && kind@
        == v.kind_name_spec() && (message matches Some(msg) && msg@
        == "expected nil, table or function"@))
}

/// Every entry of the registry is acceptable: no reserved protocol
/// name among the dispatch entries, and every meta field valid.
pub open spec fn registry_ok(reg: UserDataRegistry) -> bool {
    &&& forall|i: int|
        0 <= i < reg.methods_spec().len() ==> !restricted_meta_name(
            (#[trigger] reg.methods_spec()[i]).name@,
        )
    &&& forall|i: int|
        0 <= i < reg.meta_fields_spec().len() ==> meta_field_ok(
            (#[trigger] reg.meta_fields_spec()[i]).0@,
            reg.meta_fields_spec()[i].1,
        )
}

/// Some entry of the registry is invalid, and `e` is exactly the failure
/// that entry provokes: a reserved name is reported as restricted under
/// that name, and an index or new-index field holding the wrong kind is
/// reported as a meta-field type failure for that field.
pub open spec fn registry_invalid_with(e: Error, reg: UserDataRegistry) -> bool {
    ||| exists|i: int|
        0 <= i < reg.methods_spec().len() && restricted_meta_name(
            (#[trigger] reg.methods_spec()[i]).name@,
        ) && e == Error::MetaMethodRestricted(reg.methods_spec()[i].name)
    ||| exists|i: int|
        0 <= i < reg.meta_fields_spec().len() && restricted_meta_name(
            (#[trigger] reg.meta_fields_spec()[i]).0@,
        ) && e == Error::MetaMethodRestricted(reg.meta_fields_spec()[i].0)
    ||| exists|i: int|
        {
            &&& 0 <= i < reg.meta_fields_spec().len()
            &&& !restricted_meta_name((#[trigger] reg.meta_fields_spec()[i]).0@)
            &&& !meta_field_ok(reg.meta_fields_spec()[i].0@, reg.meta_fields_spec()[i].1)
            &&& is_meta_type_err(e, reg.meta_fields_spec()[i].0, reg.meta_fields_spec()[i].1)
        }
}

/// A reserved protocol entry name that no registration may use.
pub open spec fn restricted_meta_name(n: Seq<char>) -> bool {
    n == "__gc"@ || n == "__metatable"@
}

/// A registered meta field is acceptable: its name is not reserved, and
/// the index and new-index entries hold nil, a table or a function.
pub open spec fn meta_field_ok(name: Seq<char>, v: Value) -> bool {
    &&& !restricted_meta_name(name)
    &&& ((name == "__index"@ || name == "__newindex"@) ==> (v is Nil || v is Table
        || v is Function))
}

impl UserDataRegistry {
    /// The dispatch entries registered so far, in order.
    pub closed spec fn methods_spec(self) -> Seq<MethodEntry> {
        self.methods@
    }

    /// The meta fields registered so far, in order.
    pub closed spec fn meta_fields_spec(self) -> Seq<(String, Value)> {
        self.meta_fields@
    }

    /// No registered entry has a call on the stack.
    pub closed spec fn wf(self) -> bool {
        forall|i: int| 0 <= i < self.methods@.len() ==> !(#[trigger] self.methods@[i]).busy
    }

    /// Creates an empty registry.
    pub fn new() -> (r: UserDataRegistry)
        ensures
            r.wf(),
            r.methods_spec() == Seq::<MethodEntry>::empty(),
            r.meta_fields_spec() == Seq::<(String, Value)>::empty(),
    {
        let r = UserDataRegistry { methods: Vec::new(), meta_fields: Vec::new() };
        proof {
            assert(r.methods_spec() =~= Seq::<MethodEntry>::empty());
            assert(r.meta_fields_spec() =~= Seq::<(String, Value)>::empty());
        }
        r
    }

    /// Registers a method that borrows the object shared.
    pub fn add_method(&mut self, name: String, callback: usize)
        requires
            old(self).wf(),
        ensures
            final(self).wf(),
            final(self).methods_spec() == old(self).methods_spec().push(
                MethodEntry { name, kind: MethodKind::Method, callback, busy: false },
            ),
            final(self).meta_fields_spec() == old(self).meta_fields_spec(),
    {
        self.methods.push(MethodEntry { name, kind: MethodKind::Method, callback, busy: false });
    }

    /// Registers a method that borrows the object exclusively.
    pub fn add_method_mut(&mut self, name: String, callback: usize)
        requires
            old(self).wf(),
        ensures
            final(self).wf(),
            final(self).methods_spec() == old(self).methods_spec().push(
                MethodEntry { name, kind: MethodKind::MethodMut, callback, busy: false },
            ),
            final(self).meta_fields_spec() == old(self).meta_fields_spec(),
    {
        self.methods.push(
            MethodEntry { name, kind: MethodKind::MethodMut, callback, busy: false },
        );
    }

    /// Registers a plain function entry that takes no object borrow.
    pub fn add_function(&mut self, name: String, callback: usize)
        requires
            old(self).wf(),
        ensures
            final(self).wf(),
            final(self).methods_spec() == old(self).methods_spec().push(
                MethodEntry { name, kind: MethodKind::Function, callback, busy: false },
            ),
            final(self).meta_fields_spec() == old(self).meta_fields_spec(),
    {
        self.methods.push(
            MethodEntry { name, kind: MethodKind::Function, callback, busy: false },
        );
    }

    /// Registers a plain function entry holding mutable host state.
    pub fn add_function_mut(&mut self, name: String, callback: usize)
        requires
            old(self).wf(),
        ensures
            final(self).wf(),
            final(self).methods_spec() == old(self).methods_spec().push(
                MethodEntry { name, kind: MethodKind::FunctionMut, callback, busy: false },
            ),
            final(self).meta_fields_spec() == old(self).meta_fields_spec(),
    {
        self.methods.push(
            MethodEntry { name, kind: MethodKind::FunctionMut, callback, busy: false },
        );
    }

    /// Registers a meta method (a guest protocol hook such as an equality
    /// hook) that borrows the object shared.
    pub fn add_meta_method(&mut self, name: String, callback: usize)
        requires
            old(self).wf(),
        ensures
            final(self).wf(),
            final(self).methods_spec() == old(self).methods_spec().push(
                MethodEntry { name, kind: MethodKind::Method, callback, busy: false },
            ),
            final(self).meta_fields_spec() == old(self).meta_fields_spec(),
    {
        self.methods.push(MethodEntry { name, kind: MethodKind::Method, callback, busy: false });
    }

    /// Registers a meta method that borrows the object exclusively.
    pub fn add_meta_method_mut(&mut self, name: String, callback: usize)
        requires
            old(self).wf(),
        ensures
            final(self).wf(),
            final(self).methods_spec() == old(self).methods_spec().push(
                MethodEntry { name, kind: MethodKind::MethodMut, callback, busy: false },
            ),
            final(self).meta_fields_spec() == old(self).meta_fields_spec(),
    {
        self.methods.push(
            MethodEntry { name, kind: MethodKind::MethodMut, callback, busy: false },
        );
    }

    /// Registers a field getter, dispatched like a shared-borrow method.
    pub fn add_field_method_get(&mut self, name: String, callback: usize)
        requires
            old(self).wf(),
        ensures
            final(self).wf(),
            final(self).methods_spec() == old(self).methods_spec().push(
                MethodEntry { name, kind: MethodKind::Method, callback, busy: false },
            ),
            final(self).meta_fields_spec() == old(self).meta_fields_spec(),
    {
        self.methods.push(MethodEntry { name, kind: MethodKind::Method, callback, busy: false });
    }

    /// Registers a field setter, dispatched like an exclusive-borrow
    /// method.
    pub fn add_field_method_set(&mut self, name: String, callback: usize)
        requires
            old(self).wf(),
        ensures
            final(self).wf(),
            final(self).methods_spec() == old(self).methods_spec().push(
                MethodEntry { name, kind: MethodKind::MethodMut, callback, busy: false },
            ),
            final(self).meta_fields_spec() == old(self).meta_fields_spec(),
    {
        self.methods.push(
            MethodEntry { name, kind: MethodKind::MethodMut, callback, busy: false },
        );
    }

    /// Registers a meta field with an already-computed value; it is
    /// validated when the metatable is built.
    pub fn add_meta_field(&mut self, name: String, value: Value)
        requires
            old(self).wf(),
        ensures
            final(self).wf(),
            final(self).methods_spec() == old(self).methods_spec(),
            final(self).meta_fields_spec() == old(self).meta_fields_spec().push((name, value)),
    {
        self.meta_fields.push((name, value));
    }
}

impl Lua {
    /// Builds and registers a metatable from a registry, validating every
    /// meta field: reserved protocol names are refused, and the index and
    /// new-index entries must hold nil, a table or a function. `type_tag`
    /// marks a shared per-type metatable; `None` builds a per-instance
    /// one.
    #[verifier::loop_isolation(false)]
    pub fn register_metatable(&mut self, reg: UserDataRegistry, type_tag: Option<u64>) -> (r:
        Result<usize, Error>)
        requires
            old(self).wf(),
            reg.wf(),
            forall|i: int|
                0 <= i < reg.meta_fields_spec().len() ==> old(self).owns(
                    (#[trigger] reg.meta_fields_spec()[i]).1,
                ),
        ensures
            final(self).wf(),
            match r {
                Ok(m) => {
                    &&& registry_ok(reg)
                    &&& m as int == old(self).num_metatables()
                    &&& final(self).num_metatables() == old(self).num_metatables() + 1
                    &&& final(self).mt_registered(m as int)
                    &&& final(self).mt_type_tag(m as int) == type_tag
                    &&& final(self).mt_methods(m as int) == reg.methods_spec()
                    &&& final(self).mt_meta_fields(m as int) == reg.meta_fields_spec()
                    &&& old(self).metatables_extend(*final(self))
                    &&& old(self).strings_tables_same(*final(self))
                    &&& old(self).functions_same(*final(self))
                    &&& old(self).userdata_same(*final(self))
                    &&& final(self).pool_len() == old(self).pool_len()
                },
                Err(e) => {
                    &&& old(self).same_state(*final(self))
                    &&& registry_invalid_with(e, reg)
                },
            },
    {
        let gc_name: String = "__gc".to_owned();
        let mt_name: String = "__metatable".to_owned();
        let index_name: String = "__index".to_owned();
        let newindex_name: String = "__newindex".to_owned();
        let n = reg.methods.len();
        let mut i: usize = 0;
        while i < n
            invariant
                n == reg.methods@.len(),
                i <= n,
                gc_name@ == "__gc"@,
                mt_name@ == "__metatable"@,
                forall|k: int|
                    0 <= k < i ==> !restricted_meta_name((#[trigger] reg.methods@[k]).name@),
            decreases n - i,
        {
            let entry_name = &reg.methods[i].name;
            if entry_name.eq(&gc_name) || entry_name.eq(&mt_name) {
                return Err(Error::MetaMethodRestricted(entry_name.clone()));
            }
            i = i + 1;
        }
        let fn_count = reg.meta_fields.len();
        let mut j: usize = 0;
        while j < fn_count
            invariant
                fn_count == reg.meta_fields@.len(),
                j <= fn_count,
                gc_name@ == "__gc"@,
                mt_name@ == "__metatable"@,
                index_name@ == "__index"@,
                newindex_name@ == "__newindex"@,
                forall|k: int|
                    0 <= k < j ==> meta_field_ok(
                        (#[trigger] reg.meta_fields@[k]).0@,
                        reg.meta_fields@[k].1,
                    ),
            decreases fn_count - j,
        {
            let field_name = &reg.meta_fields[j].0;
            if field_name.eq(&gc_name) || field_name.eq(&mt_name) {
                let e = Error::MetaMethodRestricted(field_name.clone());
                proof {
                    assert(restricted_meta_name((reg.meta_fields_spec()[j as int]).0@));
                    assert(e == Error::MetaMethodRestricted(reg.meta_fields_spec()[j as int].0));
                }
                return Err(e);
            }
            if field_name.eq(&index_name) || field_name.eq(&newindex_name) {
                let ok = match &reg.meta_fields[j].1 {
                    Value::Nil => true,
                    Value::Table(_) => true,
                    Value::Function(_) => true,
                    _ => false,
                };
                if !ok {
                    let e = Error::MetaMethodTypeError {
                        method: field_name.clone(),
                        kind: reg.meta_fields[j].1.kind_name(),
                        message: Some("expected nil, table or function".to_owned()),
                    };
                    proof {
                        assert(!restricted_meta_name((reg.meta_fields_spec()[j as int]).0@));
                        assert(!meta_field_ok(
                            (reg.meta_fields_spec()[j as int]).0@,
                            reg.meta_fields_spec()[j as int].1,
                        ));
                        assert(is_meta_type_err(
                            e,
                            reg.meta_fields_spec()[j as int].0,
                            reg.meta_fields_spec()[j as int].1,
                        ));
                    }
                    return Err(e);
                }
            }
            j = j + 1;
        }
        let m = self.metatables.len();
        self.metatables.push(
            MetatableData {
                registered: true,
                type_tag,
                methods: reg.methods,
                meta_fields: reg.meta_fields,
            },
        );
        proof {
            assert forall|m2: int, i2: int|
                0 <= m2 < self.metatables@.len() && 0 <= i2 < (
                #[trigger] self.metatables@[m2]).meta_fields@.len() implies self.owns(
                (#[trigger] self.metatables@[m2].meta_fields@[i2]).1,
            ) by {
                if m2 < old(self).metatables@.len() {
                    assert(old(self).owns(old(self).metatables@[m2].meta_fields@[i2].1));
                } else {
                    assert(self.metatables@[m2].meta_fields@[i2]
                        == reg.meta_fields_spec()[i2]);
                    assert(old(self).owns(reg.meta_fields_spec()[i2].1));
                }
            }
        }
        Ok(m)
    }

    /// Looks up a registered shared per-type metatable by its host type
    /// tag; the earliest registration wins.
    #[verifier::loop_isolation(false)]
    pub fn lookup_typed_metatable(&self, tag: u64) -> (r: Option<usize>)
        ensures
            match r {
                Some(m) => m < self.num_metatables() && self.mt_registered(m as int)
                    && self.mt_type_tag(m as int) == Some(tag),
                None => forall|m: int|
                    0 <= m < self.num_metatables() ==> !(#[trigger] self.mt_registered(m)
                        && self.mt_type_tag(m) == Some(tag)),
            },
    {
        let n = self.metatables.len();
        let mut i: usize = 0;
        while i < n
            invariant
                n == self.metatables@.len(),
                i <= n,
                forall|m: int|
                    0 <= m < i ==> !(#[trigger] self.mt_registered(m) && self.mt_type_tag(m)
                        == Some(tag)),
            decreases n - i,
        {
            let md = &self.metatables[i];
            if md.registered {
                match md.type_tag {
                    Some(t) => {
                        if t == tag {
                            return Some(i);
                        }
                    },
                    None => {},
                }
            }
            i = i + 1;
        }
        None
    }

    /// Allocates an opaque-object cell with the given exposure kind and
    /// metatable; the object starts live and unborrowed.
    pub fn make_userdata(&mut self, kind: CellKind, serializable: bool, metatable: usize) -> (u:
        AnyUserData)
        requires
            old(self).wf(),
            metatable < old(self).num_metatables(),
        ensures
            final(self).wf(),
            final(self).valid_ud(u),
            !old(self).valid_ud(u),
            !final(self).ud_released(u),
            final(self).ud_borrow(u) == BorrowState::Unborrowed,
            final(self).ud_cell_kind(u) == kind,
            final(self).ud_serializable(u) == serializable,
            final(self).ud_metatable(u) == metatable as int,
            old(self).strings_tables_same(*final(self)),
            old(self).functions_same(*final(self)),
            old(self).userdata_extend(*final(self)),
            final(self).num_userdata() == old(self).num_userdata() + 1,
            old(self).metatables_same(*final(self)),
            final(self).pool_len() == old(self).pool_len(),
    {
        let u = AnyUserData { index: self.userdata.len() };
        self.userdata.push(
            UserDataState {
                released: false,
                borrow: BorrowState::Unborrowed,
                kind,
                serializable,
                metatable,
            },
        );
        u
    }

    /// Severs a scope-bounded opaque object: the released flag is set, so
    /// every later access fails cleanly, and a per-instance metatable is
    /// deregistered.
    pub(crate) fn release_userdata(&mut self, u: AnyUserData)
        requires
            old(self).wf(),
            old(self).valid_ud(u),
        ensures
            final(self).wf(),
            old(self).strings_tables_same(*final(self)),
            old(self).functions_same(*final(self)),
            final(self).num_userdata() == old(self).num_userdata(),
            old(self).ud_except_frame(*final(self), u),
            final(self).valid_ud(u),
            final(self).ud_released(u),
            final(self).ud_metatable(u) == old(self).ud_metatable(u),
            final(self).ud_cell_kind(u) == old(self).ud_cell_kind(u),
            final(self).ud_borrow(u) == old(self).ud_borrow(u),
            final(self).ud_serializable(u) == old(self).ud_serializable(u),
            final(self).num_metatables() == old(self).num_metatables(),
            old(self).mt_except_frame(*final(self), old(self).ud_metatable(u)),
            final(self).mt_type_tag(old(self).ud_metatable(u)) == old(self).mt_type_tag(
                old(self).ud_metatable(u),
            ),
            final(self).mt_methods(old(self).ud_metatable(u)) == old(self).mt_methods(
                old(self).ud_metatable(u),
            ),
            final(self).mt_meta_fields(old(self).ud_metatable(u)) == old(self).mt_meta_fields(
                old(self).ud_metatable(u),
            ),
            old(self).mt_type_tag(old(self).ud_metatable(u)) is Some ==> final(self).mt_registered(old(self).ud_metatable(u)) == old(self).mt_registered(
                old(self).ud_metatable(u),
            ),
            old(self).mt_type_tag(old(self).ud_metatable(u)) is None ==> !final(self).mt_registered(old(self).ud_metatable(u)),
            final(self).pool_len() == old(self).pool_len(),
    {
        let mt = self.userdata[u.index].metatable;
        let ud = &mut self.userdata[u.index];
        ud.released = true;
        let per_instance = match self.metatables[mt].type_tag {
            None => true,
            Some(_) => false,
        };
        if per_instance {
            let md = &mut self.metatables[mt];
            md.registered = false;
        }
    }

    /// Why an early extraction of the object's host data is refused, if
    /// it is: a released object is already destroyed, a borrowed object
    /// cannot be emptied, and reference-backed cells support no early
    /// extraction at all — only their scope's end releases them.
    pub open spec fn take_error(self, u: AnyUserData) -> Option<Error> {
        if self.ud_released(u) {
            Some(Error::UserDataDestructed)
        } else if self.ud_cell_kind(u) != CellKind::Owned {
            Some(Error::UserDataBorrowMutError)
        } else if self.ud_borrow(u) != BorrowState::Unborrowed {
            Some(Error::UserDataBorrowMutError)
        } else {
            None
        }
    }

    /// Marks an owned opaque object as destroyed ahead of its scope's
    /// end, so that the scope can hand its payload back; all future
    /// borrows fail with a destroyed-resource error.
    pub(crate) fn take_userdata(&mut self, u: AnyUserData) -> (r: Result<(), Error>)
        requires
            old(self).wf(),
            old(self).valid_ud(u),
        ensures
            final(self).wf(),
            match r {
                Ok(()) => {
                    &&& old(self).take_error(u) is None
                    &&& old(self).strings_tables_same(*final(self))
                    &&& old(self).functions_same(*final(self))
                    &&& old(self).metatables_same(*final(self))
                    &&& final(self).num_userdata() == old(self).num_userdata()
                    &&& forall|w: AnyUserData|
                        old(self).valid_ud(w) && w != u ==> final(self).valid_ud(w)
                            && final(self).ud_released(w) == #[trigger] old(self).ud_released(w)
                            && final(self).ud_borrow(w) == old(self).ud_borrow(w)
                            && final(self).ud_cell_kind(w) == old(self).ud_cell_kind(w)
                            && final(self).ud_serializable(w) == old(self).ud_serializable(w)
                            && final(self).ud_metatable(w) == old(self).ud_metatable(w)
                    &&& final(self).valid_ud(u)
                    &&& final(self).ud_released(u)
                    &&& final(self).ud_borrow(u) == old(self).ud_borrow(u)
                    &&& final(self).ud_cell_kind(u) == old(self).ud_cell_kind(u)
                    &&& final(self).ud_metatable(u) == old(self).ud_metatable(u)
                    &&& final(self).pool_len() == old(self).pool_len()
                },
                Err(e) => {
                    &&& old(self).take_error(u) == Some(e)
                    &&& old(self).same_state(*final(self))
                },
            },
    {
        let ud = &self.userdata[u.index];
        if ud.released {
            return Err(Error::UserDataDestructed);
        }
        let owned = match ud.kind {
            CellKind::Owned => true,
            _ => false,
        };
        if !owned {
            return Err(Error::UserDataBorrowMutError);
        }
        let unborrowed = match ud.borrow {
            BorrowState::Unborrowed => true,
            _ => false,
        };
        if !unborrowed {
            return Err(Error::UserDataBorrowMutError);
        }
        let ud = &mut self.userdata[u.index];
        ud.released = true;
        Ok(())
    }
}

/// How a guest equality comparison resolves: either decided directly, or
/// by running the named host callback (a guest-side equality hook) on the
/// two values and taking the truthiness of its result.
pub enum EqOutcome {
    /// The comparison is decided.
    Decided(bool),
    /// The host callback with this key decides the comparison.
    Metamethod(usize),
}

impl Lua {
    /// The dispatch table of an opaque object.
    pub open spec fn ud_methods(self, u: AnyUserData) -> Seq<MethodEntry> {
        self.mt_methods(self.ud_metatable(u))
    }

    /// Why a method dispatch on an opaque object is refused, if it is.
    /// Checks run in the order of the call path: the self argument must
    /// be an opaque object (else the identity check fails), a destroyed
    /// object is refused, a foreign object is an identity mismatch, a
    /// re-entered mutable entry is a recursive mutable access, and the
    /// borrow discipline is enforced last.
    pub open spec fn method_call_error(
        self,
        target: AnyUserData,
        name: Seq<char>,
        args: Seq<Value>,
    ) -> Option<Error> {
        let entries = self.ud_methods(target);
        match find_method_idx(entries, name) {
            None => None,
            Some(i) => {
                let entry = entries[i];
                match entry.kind {
                    MethodKind::Method => match self.method_self_error(target, args) {
                        Some(e) => Some(e),
                        None => if self.ud_borrow(target) is Exclusive {
                            Some(Error::UserDataBorrowError)
                        } else if self.ud_borrow(target) == BorrowState::Shared(usize::MAX) {
                            Some(Error::UserDataBorrowError)
                        } else {
                            None
                        },
                    },
                    MethodKind::MethodMut => match self.method_self_error(target, args) {
                        Some(e) => Some(e),
                        None => if entry.busy {
                            Some(Error::RecursiveMutCallback)
                        } else if self.ud_cell_kind(target) is SharedRef {
                            Some(Error::UserDataBorrowMutError)
                        } else if !(self.ud_borrow(target) is Unborrowed) {
                            Some(Error::UserDataBorrowMutError)
                        } else {
                            None
                        },
                    },
                    MethodKind::Function => None,
                    MethodKind::FunctionMut => if entry.busy {
                        Some(Error::RecursiveMutCallback)
                    } else {
                        None
                    },
                }
            },
        }
    }

    /// Why the popped self argument is refused for a borrowing method, if
    /// it is.
    pub open spec fn method_self_error(self, target: AnyUserData, args: Seq<Value>) -> Option<
        Error,
    > {
        if args.len() == 0 {
            Some(Error::UserDataTypeMismatch)
        } else {
            match args[0] {
                Value::UserData(h) => if self.ud_released(h) {
                    Some(Error::UserDataDestructed)
                } else if h != target {
                    Some(Error::UserDataTypeMismatch)
                } else {
                    None
                },
                _ => Some(Error::UserDataTypeMismatch),
            }
        }
    }

    /// Finds the dispatch entry with the given name on an opaque object.
    #[verifier::loop_isolation(false)]
    pub fn find_method(&self, target: AnyUserData, name: &String) -> (r: Option<usize>)
        requires
            self.wf(),
            self.valid_ud(target),
        ensures
            match r {
                Some(i) => find_method_idx(self.ud_methods(target), name@) == Some(i as int),
                None => find_method_idx(self.ud_methods(target), name@) is None,
            },
    {
        let mt = self.userdata[target.index].metatable;
        let entries = &self.metatables[mt].methods;
        let n = entries.len();
        let mut i: usize = 0;
        while i < n
            invariant
                self.wf(),
                self.valid_ud(target),
                mt == self.ud_metatable(target),
                entries@ == self.ud_methods(target),
                n == entries@.len(),
                i <= n,
                forall|k: int| 0 <= k < i ==> (#[trigger] entries@[k]).name@ != name@,
            decreases n - i,
        {
            if entries[i].name.eq(name) {
                proof {
                    lemma_find_method_idx_skip(entries@, name@, i as int);
                    assert(entries@.skip(i as int)[0] == entries@[i as int]);
                }
                return Some(i);
            }
            i = i + 1;
        }
        proof {
            lemma_find_method_idx_skip(entries@, name@, n as int);
            assert(entries@.skip(n as int).len() == 0);
        }
        None
    }

    /// Begins a guest method call on an opaque object, performing every
    /// check of the dispatch path: the self argument is popped off the
    /// argument list and must designate the very object the method was
    /// registered for (alive and not a foreign instance), re-entry into a
    /// mutable entry is refused, and the shared/exclusive borrow
    /// discipline is enforced. On success the host callback key to run is
    /// handed back, with the borrow held until [`Lua::finish_method_call`].
    pub fn start_method_call(&mut self, target: AnyUserData, name: &String, args: &mut
        MultiValue) -> (r: Result<usize, Error>)
        requires
            old(self).wf(),
            old(self).valid_ud(target),
            old(self).owns_all(old(args)@),
            find_method_idx(old(self).ud_methods(target), name@) is Some,
        ensures
            final(self).wf(),
            ({
                let entries = old(self).ud_methods(target);
                let i = find_method_idx(entries, name@)->Some_0;
                let entry = entries[i];
                let pops = entry.kind == MethodKind::Method || entry.kind
                    == MethodKind::MethodMut;
                &&& (if pops {
                    final(args)@ == if old(args)@.len() > 0 {
                        old(args)@.drop_first()
                    } else {
                        old(args)@
                    }
                } else {
                    final(args)@ == old(args)@
                })
                &&& match old(self).method_call_error(target, name@, old(args)@) {
                    Some(e) => r == Err::<usize, Error>(e) && old(self).same_state(
                        *final(self),
                    ),
                    None => {
                        &&& r == Ok::<usize, Error>(entry.callback)
                        &&& final(self).valid_ud(target)
                        &&& find_method_idx(final(self).ud_methods(target), name@) == Some(i)
                        &&& old(self).strings_tables_same(*final(self))
                        &&& old(self).functions_same(*final(self))
                        &&& final(self).pool_len() == old(self).pool_len()
                        &&& final(self).num_userdata() == old(self).num_userdata()
                        &&& forall|w: AnyUserData|
                            old(self).valid_ud(w) && w != target ==> final(self).valid_ud(w)
                                && final(self).ud_released(w) == #[trigger] old(self).ud_released(w) && final(self).ud_borrow(w) == old(self).ud_borrow(
                                w,
                            ) && final(self).ud_cell_kind(w) == old(self).ud_cell_kind(w)
                                && final(self).ud_serializable(w) == old(self).ud_serializable(
                                w,
                            ) && final(self).ud_metatable(w) == old(self).ud_metatable(w)
                        &&& final(self).ud_released(target) == old(self).ud_released(target)
                        &&& final(self).ud_cell_kind(target) == old(self).ud_cell_kind(target)
                        &&& final(self).ud_serializable(target) == old(self).ud_serializable(
                            target,
                        )
                        &&& final(self).ud_metatable(target) == old(self).ud_metatable(target)
                        &&& final(self).ud_borrow(target) == (match entry.kind {
                            MethodKind::Method => match old(self).ud_borrow(target) {
                                BorrowState::Unborrowed => BorrowState::Shared(1),
                                BorrowState::Shared(c) => BorrowState::Shared((c + 1) as usize),
                                BorrowState::Exclusive => BorrowState::Exclusive,
                            },
                            MethodKind::MethodMut => BorrowState::Exclusive,
                            _ => old(self).ud_borrow(target),
                        })
                        &&& final(self).num_metatables() == old(self).num_metatables()
                        &&& forall|m: int|
                            0 <= m < old(self).num_metatables() && m != old(self).ud_metatable(
                                target,
                            ) ==> (#[trigger] final(self).mt_registered(m)) == old(self).mt_registered(m) && final(self).mt_type_tag(m) == old(self).mt_type_tag(m) && final(self).mt_methods(m) == old(self).mt_methods(m) && final(self).mt_meta_fields(m) == old(self).mt_meta_fields(m)
                        &&& final(self).mt_registered(old(self).ud_metatable(target)) == old(self).mt_registered(old(self).ud_metatable(target))
                        &&& final(self).mt_type_tag(old(self).ud_metatable(target)) == old(self).mt_type_tag(old(self).ud_metatable(target))
                        &&& final(self).mt_meta_fields(old(self).ud_metatable(target)) == old(self).mt_meta_fields(old(self).ud_metatable(target))
                        &&& final(self).ud_methods(target) == (if entry.kind
                            == MethodKind::MethodMut || entry.kind == MethodKind::FunctionMut {
                            old(self).ud_methods(target).update(
                                i,
                                MethodEntry {
                                    name: entry.name,
                                    kind: entry.kind,
                                    callback: entry.callback,
                                    busy: true,
                                },
                            )
                        } else {
                            old(self).ud_methods(target)
                        })
                    },
                }
            }),
    {
        proof {
            lemma_find_method_idx_props(old(self).ud_methods(target), name@);
        }
        let mt = self.userdata[target.index].metatable;
        let idx = match self.find_method(target, name) {
            Some(i) => i,
            None => {
                proof {
                    assert(false);
                }
                0
            },
        };
        let kind = self.metatables[mt].methods[idx].kind;
        let callback = self.metatables[mt].methods[idx].callback;
        let busy = self.metatables[mt].methods[idx].busy;
        match kind {
            MethodKind::Method | MethodKind::MethodMut => {
                proof {
                    if old(args)@.len() > 0 {
                        assert(old(self).owns(old(args)@[0]));
                    }
                }
                let front = args.pop_front();
                let h = match front {
                    Some(Value::UserData(h)) => h,
                    _ => {
                        return Err(Error::UserDataTypeMismatch);
                    },
                };
                if self.userdata[h.index].released {
                    return Err(Error::UserDataDestructed);
                }
                if h.index != target.index {
                    return Err(Error::UserDataTypeMismatch);
                }
                match kind {
                    MethodKind::Method => {
                        let b = self.userdata[target.index].borrow;
                        match b {
                            BorrowState::Exclusive => Err(Error::UserDataBorrowError),
                            BorrowState::Shared(c) => {
                                if c == usize::MAX {
                                    return Err(Error::UserDataBorrowError);
                                }
                                let ud = &mut self.userdata[target.index];
                                ud.borrow = BorrowState::Shared(c + 1);
                                Ok(callback)
                            },
                            BorrowState::Unborrowed => {
                                let ud = &mut self.userdata[target.index];
                                ud.borrow = BorrowState::Shared(1);
                                Ok(callback)
                            },
                        }
                    },
                    _ => {
                        if busy {
                            return Err(Error::RecursiveMutCallback);
                        }
                        let shared_ref = match self.userdata[target.index].kind {
                            CellKind::SharedRef => true,
                            _ => false,
                        };
                        if shared_ref {
                            return Err(Error::UserDataBorrowMutError);
                        }
                        let unborrowed = match self.userdata[target.index].borrow {
                            BorrowState::Unborrowed => true,
                            _ => false,
                        };
                        if !unborrowed {
                            return Err(Error::UserDataBorrowMutError);
                        }
                        let ud = &mut self.userdata[target.index];
                        ud.borrow = BorrowState::Exclusive;
                        let md = &mut self.metatables[mt];
                        let entry = &mut md.methods[idx];
                        entry.busy = true;
                        proof {
                            assert(self.ud_methods(target) =~= old(self).ud_methods(
                                target,
                            ).update(
                                idx as int,
                                MethodEntry {
                                    name: old(self).ud_methods(target)[idx as int].name,
                                    kind: MethodKind::MethodMut,
                                    callback,
                                    busy: true,
                                },
                            ));
                            lemma_find_method_idx_update(
                                old(self).ud_methods(target),
                                name@,
                                idx as int,
                                old(self).ud_methods(target)[idx as int],
                            );
                            lemma_find_method_idx_update(
                                old(self).ud_methods(target),
                                name@,
                                idx as int,
                                MethodEntry {
                                    name: old(self).ud_methods(target)[idx as int].name,
                                    kind: MethodKind::MethodMut,
                                    callback,
                                    busy: true,
                                },
                            );
                        }
                        Ok(callback)
                    },
                }
            },
            MethodKind::Function => Ok(callback),
            MethodKind::FunctionMut => {
                if busy {
                    return Err(Error::RecursiveMutCallback);
                }
                let md = &mut self.metatables[mt];
                let entry = &mut md.methods[idx];
                entry.busy = true;
                proof {
                    assert(self.ud_methods(target) =~= old(self).ud_methods(target).update(
                        idx as int,
                        MethodEntry {
                            name: old(self).ud_methods(target)[idx as int].name,
                            kind: MethodKind::FunctionMut,
                            callback,
                            busy: true,
                        },
                    ));
                    lemma_find_method_idx_update(
                        old(self).ud_methods(target),
                        name@,
                        idx as int,
                        MethodEntry {
                            name: old(self).ud_methods(target)[idx as int].name,
                            kind: MethodKind::FunctionMut,
                            callback,
                            busy: true,
                        },
                    );
                }
                Ok(callback)
            },
        }
    }

    /// Ends a guest method call begun by [`Lua::start_method_call`],
    /// releasing the object borrow and the entry's re-entry guard.
    pub fn finish_method_call(&mut self, target: AnyUserData, name: &String)
        requires
            old(self).wf(),
            old(self).valid_ud(target),
            find_method_idx(old(self).ud_methods(target), name@) is Some,
        ensures
            final(self).wf(),
            ({
                let entries = old(self).ud_methods(target);
                let i = find_method_idx(entries, name@)->Some_0;
                let entry = entries[i];
                &&& final(self).valid_ud(target)
                &&& find_method_idx(final(self).ud_methods(target), name@) == Some(i)
                &&& old(self).strings_tables_same(*final(self))
                &&& old(self).functions_same(*final(self))
                &&& final(self).pool_len() == old(self).pool_len()
                &&& final(self).num_userdata() == old(self).num_userdata()
                &&& forall|w: AnyUserData|
                    old(self).valid_ud(w) && w != target ==> final(self).valid_ud(w)
                        && final(self).ud_released(w) == #[trigger] old(self).ud_released(w)
                        && final(self).ud_borrow(w) == old(self).ud_borrow(w)
                        && final(self).ud_cell_kind(w) == old(self).ud_cell_kind(w)
                        && final(self).ud_serializable(w) == old(self).ud_serializable(w)
                        && final(self).ud_metatable(w) == old(self).ud_metatable(w)
                &&& final(self).ud_released(target) == old(self).ud_released(target)
                &&& final(self).ud_cell_kind(target) == old(self).ud_cell_kind(target)
                &&& final(self).ud_serializable(target) == old(self).ud_serializable(target)
                &&& final(self).ud_metatable(target) == old(self).ud_metatable(target)
                &&& final(self).ud_borrow(target) == (match entry.kind {
                    MethodKind::Method => match old(self).ud_borrow(target) {
                        BorrowState::Shared(c) => if c <= 1 {
                            BorrowState::Unborrowed
                        } else {
                            BorrowState::Shared((c - 1) as usize)
                        },
                        b => b,
                    },
                    MethodKind::MethodMut => BorrowState::Unborrowed,
                    _ => old(self).ud_borrow(target),
                })
                &&& final(self).num_metatables() == old(self).num_metatables()
                &&& forall|m: int|
                    0 <= m < old(self).num_metatables() && m != old(self).ud_metatable(target)
                        ==> (#[trigger] final(self).mt_registered(m)) == old(self).mt_registered(m) && final(self).mt_type_tag(m) == old(self).mt_type_tag(m)
                        && final(self).mt_methods(m) == old(self).mt_methods(m)
                        && final(self).mt_meta_fields(m) == old(self).mt_meta_fields(m)
                &&& final(self).mt_registered(old(self).ud_metatable(target)) == old(self).mt_registered(old(self).ud_metatable(target))
                &&& final(self).mt_type_tag(old(self).ud_metatable(target)) == old(self).mt_type_tag(old(self).ud_metatable(target))
                &&& final(self).mt_meta_fields(old(self).ud_metatable(target)) == old(self).mt_meta_fields(old(self).ud_metatable(target))
                &&& final(self).ud_methods(target) == (if entry.kind == MethodKind::MethodMut
                    || entry.kind == MethodKind::FunctionMut {
                    old(self).ud_methods(target).update(
                        i,
                        MethodEntry {
                            name: entry.name,
                            kind: entry.kind,
                            callback: entry.callback,
                            busy: false,
                        },
                    )
                } else {
                    old(self).ud_methods(target)
                })
            }),
    {
        proof {
            lemma_find_method_idx_props(old(self).ud_methods(target), name@);
        }
        let mt = self.userdata[target.index].metatable;
        let idx = match self.find_method(target, name) {
            Some(i) => i,
            None => {
                proof {
                    assert(false);
                }
                0
            },
        };
        let kind = self.metatables[mt].methods[idx].kind;
        match kind {
            MethodKind::Method => {
                let b = self.userdata[target.index].borrow;
                match b {
                    BorrowState::Shared(c) => {
                        let ud = &mut self.userdata[target.index];
                        if c <= 1 {
                            ud.borrow = BorrowState::Unborrowed;
                        } else {
                            ud.borrow = BorrowState::Shared(c - 1);
                        }
                    },
                    _ => {},
                }
            },
            MethodKind::MethodMut => {
                let ud = &mut self.userdata[target.index];
                ud.borrow = BorrowState::Unborrowed;
                let md = &mut self.metatables[mt];
                let entry = &mut md.methods[idx];
                entry.busy = false;
                proof {
                    assert(self.ud_methods(target) =~= old(self).ud_methods(target).update(
                        idx as int,
                        MethodEntry {
                            name: old(self).ud_methods(target)[idx as int].name,
                            kind: MethodKind::MethodMut,
                            callback: old(self).ud_methods(target)[idx as int].callback,
                            busy: false,
                        },
                    ));
                    lemma_find_method_idx_update(
                        old(self).ud_methods(target),
                        name@,
                        idx as int,
                        MethodEntry {
                            name: old(self).ud_methods(target)[idx as int].name,
                            kind: MethodKind::MethodMut,
                            callback: old(self).ud_methods(target)[idx as int].callback,
                            busy: false,
                        },
                    );
                }
            },
            MethodKind::Function => {},
            MethodKind::FunctionMut => {
                let md = &mut self.metatables[mt];
                let entry = &mut md.methods[idx];
                entry.busy = false;
                proof {
                    assert(self.ud_methods(target) =~= old(self).ud_methods(target).update(
                        idx as int,
                        MethodEntry {
                            name: old(self).ud_methods(target)[idx as int].name,
                            kind: MethodKind::FunctionMut,
                            callback: old(self).ud_methods(target)[idx as int].callback,
                            busy: false,
                        },
                    ));
                    lemma_find_method_idx_update(
                        old(self).ud_methods(target),
                        name@,
                        idx as int,
                        MethodEntry {
                            name: old(self).ud_methods(target)[idx as int].name,
                            kind: MethodKind::FunctionMut,
                            callback: old(self).ud_methods(target)[idx as int].callback,
                            busy: false,
                        },
                    );
                }
            },
        }
    }
}

impl Lua {
    /// How a guest equality comparison of two values resolves, as a
    /// specification: handles are compared by identity first; tables and
    /// opaque objects then consult a possible custom equality hook
    /// (`__eq`), checking the left operand first; destroyed objects are
    /// refused; everything else follows raw guest equality.
    pub open spec fn equals_spec(self, a: Value, b: Value) -> Result<EqOutcome, Error> {
        match (a, b) {
            (Value::UserData(x), Value::UserData(y)) => if x == y {
                Ok(EqOutcome::Decided(true))
            } else if self.ud_released(x) || self.ud_released(y) {
                Err(Error::UserDataDestructed)
            } else {
                match find_method_idx(self.ud_methods(x), "__eq"@) {
                    Some(i) => Ok(EqOutcome::Metamethod(self.ud_methods(x)[i].callback)),
                    None => match find_method_idx(self.ud_methods(y), "__eq"@) {
                        Some(j) => Ok(EqOutcome::Metamethod(self.ud_methods(y)[j].callback)),
                        None => Ok(EqOutcome::Decided(false)),
                    },
                }
            },
            (Value::Table(x), Value::Table(y)) => if x == y {
                Ok(EqOutcome::Decided(true))
            } else {
                match self.table_eq_hook(x) {
                    Some(cb) => Ok(EqOutcome::Metamethod(cb)),
                    None => match self.table_eq_hook(y) {
                        Some(cb) => Ok(EqOutcome::Metamethod(cb)),
                        None => Ok(EqOutcome::Decided(false)),
                    },
                }
            },
            _ => Ok(EqOutcome::Decided(raw_eq(a, b))),
        }
    }

    /// The value of a validated meta field of an opaque object, if one of
    /// that name was registered (the earliest registration wins).
    #[verifier::loop_isolation(false)]
    pub fn get_meta_field(&self, u: AnyUserData, name: &String) -> (r: Option<Value>)
        requires
            self.wf(),
            self.valid_ud(u),
        ensures
            ({
                let fields = self.mt_meta_fields(self.ud_metatable(u));
                match r {
                    Some(v) => exists|i: int|
                        {
                            &&& 0 <= i < fields.len()
                            &&& (#[trigger] fields[i]).0@ == name@
                            &&& v == fields[i].1
                            &&& forall|j: int| 0 <= j < i ==> (#[trigger] fields[j]).0@ != name@
                        },
                    None => forall|i: int|
                        0 <= i < fields.len() ==> (#[trigger] fields[i]).0@ != name@,
                }
            }),
    {
        let mt = self.userdata[u.index].metatable;
        let fields = &self.metatables[mt].meta_fields;
        let n = fields.len();
        let mut i: usize = 0;
        while i < n
            invariant
                self.wf(),
                self.valid_ud(u),
                mt == self.ud_metatable(u),
                fields@ == self.mt_meta_fields(self.ud_metatable(u)),
                n == fields@.len(),
                i <= n,
                forall|k: int| 0 <= k < i ==> (#[trigger] fields@[k]).0@ != name@,
            decreases n - i,
        {
            if fields[i].0.eq(name) {
                let v = fields[i].1.clone();
                proof {
                    assert((fields@[i as int]).0@ == name@);
                }
                return Some(v);
            }
            i = i + 1;
        }
        None
    }
}

impl Value {
    /// Compares two values for guest equality against the given runtime.
    ///
    /// Equality comparisons do not convert strings to numbers or vice
    /// versa; handles compare by identity. When either operand is a
    /// table or an opaque object defining a custom equality hook, the
    /// hook decides: the left operand is checked first, and the outcome
    /// names the host callback to run. Comparing a destroyed opaque
    /// object is refused.
    pub fn equals(&self, other: &Value, lua: &Lua) -> (r: Result<EqOutcome, Error>)
        requires
            lua.wf(),
            lua.owns(*self),
            lua.owns(*other),
        ensures
            r == lua.equals_spec(*self, *other),
    {
        match (self, other) {
            (Value::Table(x), Value::Table(y)) => {
                if x.index == y.index {
                    return Ok(EqOutcome::Decided(true));
                }
                match lua.tables[x.index].eq_hook {
                    Some(cb) => Ok(EqOutcome::Metamethod(cb)),
                    None => match lua.tables[y.index].eq_hook {
                        Some(cb) => Ok(EqOutcome::Metamethod(cb)),
                        None => Ok(EqOutcome::Decided(false)),
                    },
                }
            },
            (Value::UserData(x), Value::UserData(y)) => {
                if x.index == y.index {
                    return Ok(EqOutcome::Decided(true));
                }
                if lua.userdata[x.index].released || lua.userdata[y.index].released {
                    return Err(Error::UserDataDestructed);
                }
                let hook_name: String = "__eq".to_owned();
                match lua.find_method(*x, &hook_name) {
                    Some(i) => {
                        proof {
                            lemma_find_method_idx_props(lua.ud_methods(*x), hook_name@);
                        }
                        let mt = lua.userdata[x.index].metatable;
                        Ok(EqOutcome::Metamethod(lua.metatables[mt].methods[i].callback))
                    },
                    None => match lua.find_method(*y, &hook_name) {
                        Some(j) => {
                            proof {
                                lemma_find_method_idx_props(lua.ud_methods(*y), hook_name@);
                            }
                            let mt = lua.userdata[y.index].metatable;
                            Ok(EqOutcome::Metamethod(lua.metatables[mt].methods[j].callback))
                        },
                        None => Ok(EqOutcome::Decided(false)),
                    },
                }
            },
            _ => {
                let d = self == other;
                proof {
                    assert(!((*self) matches Value::UserData(_) && (*other)
                        matches Value::UserData(_)));
                    assert(!((*self) matches Value::Table(_) && (*other)
                        matches Value::Table(_)));
                }
                Ok(EqOutcome::Decided(d))
            },
        }
    }
}

/// Builds the guest encoding of a set from its elements' guest values:
/// one entry per element, mapping it to guest true — the table form
/// under which a set crosses the boundary (and which the sequence-first
/// reading policy of [`Lua::table_set_elements`] does not read back as a
/// set of these keys when a sequence part is present; see the note
/// there).
#[verifier::loop_isolation(false)]
pub fn set_entries(values: Vec<Value>) -> (r: Vec<(Value, Value)>)
    ensures
        r@.len() == values@.len(),
        forall|i: int|
            0 <= i < r@.len() ==> #[trigger] r@[i] == (values@[i], Value::Boolean(true)),
{
    let ghost vals0 = values@;
    let mut rest = values;
    let mut rev: Vec<Value> = Vec::new();
    while rest.len() > 0
        invariant
            rest@.len() + rev@.len() == vals0.len(),
            forall|i: int| 0 <= i < rest@.len() ==> rest@[i] == vals0[i],
            forall|i: int| 0 <= i < rev@.len() ==> rev@[i] == vals0[vals0.len() - 1 - i],
        decreases rest@.len(),
    {
        let x = rest.pop().unwrap();
        rev.push(x);
    }
    let mut out: Vec<(Value, Value)> = Vec::new();
    while rev.len() > 0
        invariant
            out@.len() + rev@.len() == vals0.len(),
            forall|i: int| 0 <= i < rev@.len() ==> rev@[i] == vals0[vals0.len() - 1 - i],
            forall|i: int|
                0 <= i < out@.len() ==> #[trigger] out@[i] == (vals0[i], Value::Boolean(true)),
        decreases rev@.len(),
    {
        let x = rev.pop().unwrap();
        out.push((x, Value::Boolean(true)));
    }
    out
}

/// Byte-for-byte equality of two byte vectors.
#[verifier::loop_isolation(false)]
fn bytes_eq(a: &Vec<u8>, b: &Vec<u8>) -> (r: bool)
    ensures
        r == (a@ == b@),
{
    if a.len() != b.len() {
        proof {
            assert(a@ != b@);
        }
        return false;
    }
    let n = a.len();
    let mut i: usize = 0;
    while i < n
        invariant
            n == a@.len(),
            n == b@.len(),
            i <= n,
            forall|k: int| 0 <= k < i ==> a@[k] == b@[k],
        decreases n - i,
    {
        if a[i] != b[i] {
            return false;
        }
        i = i + 1;
    }
    proof {
        assert(a@ =~= b@);
    }
    true
}

} // verus!
