//! Lifetime-bounded registration of host callbacks and opaque objects.
//!
//! A [`Scope`] is created at entry to a host-defined block and closed at
//! block exit. Everything registered through it — guest-callable
//! functions and opaque objects exposing host data, owned or lent by
//! shared or exclusive reference — is forcibly invalidated at that point,
//! whatever the guest runtime still references. Teardown runs in two
//! phases over the whole registry: first every guest-side association is
//! severed, only then are the recovered host payloads handed back to be
//! dropped; even if dropping one payload aborts, no resource is still
//! guest-reachable by then.
//!
//! The host data exposed through a scope is carried by the scope itself,
//! under the caller-chosen payload type `U`: registering moves the data
//! in, and teardown (or an early [`Scope::take`]) moves it back out.
//! Host callbacks stay with the driver: a registration names the callback
//! by its plain key, and the runtime's dispatch operations hand that key
//! back when the guest calls.
//!
//! Scope-bounded registrations support no suspending calling convention:
//! a callback that suspended could be resumed after the block ends, when
//! the data it captures is no longer valid, so only the synchronous path
//! exists here.
use vstd::prelude::*;
use crate::error::Error;
use crate::runtime::{BorrowState, CellKind, Lua, UserDataRegistry};
use crate::value::{AnyUserData, Function, Value};

verus! {

/// One resource registered with a scope: the guest handle that its
/// teardown destructor must sever.
#[derive(Clone, Copy, PartialEq, Eq, Structural, Debug)]
pub enum ScopeResource {
    /// A guest-callable function wrapping a host callback.
    Callback(Function),
    /// An opaque object exposing host data.
    Userdata(AnyUserData),
}

/// A lifetime-bounded registry of (guest handle, destructor) pairs with
/// the host payloads they guard.
pub struct Scope<U> {
    pub(crate) entries: Vec<ScopeResource>,
    pub(crate) payloads: Vec<Option<U>>,
}

/// The payloads a teardown recovers, in registration order.
pub open spec fn recovered<U>(payloads: Seq<Option<U>>) -> Seq<U>
    decreases payloads.len(),
{
    if payloads.len() == 0 {
        Seq::empty()
    } else {
        match payloads[0] {
            Some(p) => seq![p] + recovered(payloads.drop_first()),
            None => recovered(payloads.drop_first()),
        }
    }
}

impl<U> Scope<U> {
    /// The registered resources, in registration order.
    pub closed spec fn entries_spec(self) -> Seq<ScopeResource> {
        self.entries@
    }

    /// The guarded payloads, in registration order; a callback guards
    /// none, and a taken object's slot is already empty.
    pub closed spec fn payloads_spec(self) -> Seq<Option<U>> {
        self.payloads@
    }

    /// The scope is consistent with the runtime it registered into:
    /// every handle is valid, callbacks guard no payload, and an opaque
    /// object's payload is present exactly while its cell is live.
    pub open spec fn wf_in(self, lua: Lua) -> bool {
        &&& self.payloads_spec().len() == self.entries_spec().len()
        &&& forall|i: int|
            0 <= i < self.entries_spec().len() ==> match #[trigger] self.entries_spec()[i] {
                ScopeResource::Callback(f) => lua.valid_fn(f) && self.payloads_spec()[i]
                    is None,
                ScopeResource::Userdata(u) => lua.valid_ud(u) && (self.payloads_spec()[i]
                    is Some <==> !lua.ud_released(u)),
            }
        &&& forall|i: int, j: int|
            0 <= i < j < self.entries_spec().len() ==> (#[trigger] self.entries_spec()[i]) != (
            #[trigger] self.entries_spec()[j])
    }

    /// Creates an empty scope with no registered resource.
    pub fn new() -> (r: Scope<U>)
        ensures
            r.entries_spec() == Seq::<ScopeResource>::empty(),
            r.payloads_spec() == Seq::<Option<U>>::empty(),
            forall|lua: Lua| r.wf_in(lua),
    {
        let r = Scope { entries: Vec::new(), payloads: Vec::new() };
        proof {
            assert(r.entries_spec() =~= Seq::<ScopeResource>::empty());
            assert(r.payloads_spec() =~= Seq::<Option<U>>::empty());
        }
        r
    }

    /// Wraps the host callback designated by `callback` as a
    /// guest-callable function handle that expires when the scope ends.
    pub fn create_function(&mut self, lua: &mut Lua, callback: usize) -> (r: Result<
        Function,
        Error,
    >)
        requires
            old(self).wf_in(*old(lua)),
            old(lua).wf(),
        ensures
            final(lua).wf(),
            final(self).wf_in(*final(lua)),
            match r {
                Ok(f) => {
                    &&& final(lua).valid_fn(f)
                    &&& !old(lua).valid_fn(f)
                    &&& final(lua).fn_callback(f) == callback
                    &&& !final(lua).fn_mutable(f)
                    &&& !final(lua).fn_busy(f)
                    &&& !final(lua).fn_released(f)
                    &&& final(self).entries_spec() == old(self).entries_spec().push(
                        ScopeResource::Callback(f),
                    )
                    &&& final(self).payloads_spec() == old(self).payloads_spec().push(
                        None::<U>,
                    )
                    &&& old(lua).strings_tables_same(*final(lua))
                    &&& old(lua).functions_extend(*final(lua))
                    &&& old(lua).userdata_same(*final(lua))
                    &&& old(lua).metatables_same(*final(lua))
                    &&& final(lua).pool_len() == old(lua).pool_len()
                },
                Err(_) => false,
            },
    {
        let f = lua.create_function_obj(callback, false);
        self.entries.push(ScopeResource::Callback(f));
        self.payloads.push(None);
        proof {
            lemma_wf_in_preserved(*old(self), *old(lua), *lua);
            assert(self.entries@ =~= old(self).entries_spec().push(ScopeResource::Callback(f)));
            assert(self.payloads@ =~= old(self).payloads_spec().push(None::<U>));
            assert forall|i: int, j: int|
                0 <= i < j < self.entries_spec().len() implies (#[trigger] self.entries_spec()[i])
                != (#[trigger] self.entries_spec()[j]) by {
                if j == self.entries_spec().len() - 1 {
                    match old(self).entries_spec()[i] {
                        ScopeResource::Callback(g) => {
                            assert(old(lua).valid_fn(g));
                        },
                        ScopeResource::Userdata(w) => {},
                    }
                }
            }
        }
        Ok(f)
    }

    /// Wraps a host callback that holds mutable state: besides expiring
    /// when the scope ends, the function refuses re-entrant calls with
    /// the recursive-mutable-access error.
    pub fn create_function_mut(&mut self, lua: &mut Lua, callback: usize) -> (r: Result<
        Function,
        Error,
    >)
        requires
            old(self).wf_in(*old(lua)),
            old(lua).wf(),
        ensures
            final(lua).wf(),
            final(self).wf_in(*final(lua)),
            match r {
                Ok(f) => {
                    &&& final(lua).valid_fn(f)
                    &&& !old(lua).valid_fn(f)
                    &&& final(lua).fn_callback(f) == callback
                    &&& final(lua).fn_mutable(f)
                    &&& !final(lua).fn_busy(f)
                    &&& !final(lua).fn_released(f)
                    &&& final(self).entries_spec() == old(self).entries_spec().push(
                        ScopeResource::Callback(f),
                    )
                    &&& final(self).payloads_spec() == old(self).payloads_spec().push(
                        None::<U>,
                    )
                    &&& old(lua).strings_tables_same(*final(lua))
                    &&& old(lua).functions_extend(*final(lua))
                    &&& old(lua).userdata_same(*final(lua))
                    &&& old(lua).metatables_same(*final(lua))
                    &&& final(lua).pool_len() == old(lua).pool_len()
                },
                Err(_) => false,
            },
    {
        let f = lua.create_function_obj(callback, true);
        self.entries.push(ScopeResource::Callback(f));
        self.payloads.push(None);
        proof {
            lemma_wf_in_preserved(*old(self), *old(lua), *lua);
            assert(self.entries@ =~= old(self).entries_spec().push(ScopeResource::Callback(f)));
            assert(self.payloads@ =~= old(self).payloads_spec().push(None::<U>));
            assert forall|i: int, j: int|
                0 <= i < j < self.entries_spec().len() implies (#[trigger] self.entries_spec()[i])
                != (#[trigger] self.entries_spec()[j]) by {
                if j == self.entries_spec().len() - 1 {
                    match old(self).entries_spec()[i] {
                        ScopeResource::Callback(g) => {
                            assert(old(lua).valid_fn(g));
                        },
                        ScopeResource::Userdata(w) => {},
                    }
                }
            }
        }
        Ok(f)
    }
}


/// A scope's consistency survives any runtime step that keeps existing
/// functions and opaque objects as they are.
proof fn lemma_wf_in_preserved<U>(s: Scope<U>, l0: Lua, l1: Lua)
    requires
        s.wf_in(l0),
        l0.functions_extend(l1),
        l0.userdata_extend(l1),
    ensures
        s.wf_in(l1),
{
    assert forall|i: int| 0 <= i < s.entries_spec().len() implies match #[trigger] s.entries_spec()[i] {
        ScopeResource::Callback(f) => l1.valid_fn(f) && s.payloads_spec()[i] is None,
        ScopeResource::Userdata(u) => l1.valid_ud(u) && (s.payloads_spec()[i] is Some
            <==> !l1.ud_released(u)),
    } by {
        match s.entries_spec()[i] {
            ScopeResource::Callback(f) => {
                assert(l0.valid_fn(f));
                assert(l1.fn_callback(f) == l0.fn_callback(f));
            },
            ScopeResource::Userdata(u) => {
                assert(l0.valid_ud(u));
                assert(l1.ud_released(u) == l0.ud_released(u));
            },
        }
    }
}

/// Everything that holds after a scope successfully exposes host data as
/// an opaque object: a fresh live cell of the requested exposure kind,
/// the payload guarded by the scope, and a registered metatable — shared
/// per type tag where one is given and already present, freshly built
/// from the registry otherwise.
pub open spec fn userdata_created<U>(
    pre: Lua,
    post: Lua,
    pre_s: Scope<U>,
    post_s: Scope<U>,
    u: AnyUserData,
    data: U,
    kind: CellKind,
    ser: bool,
    tag: Option<u64>,
    reg: UserDataRegistry,
) -> bool {
    &&& post.valid_ud(u)
    &&& !pre.valid_ud(u)
    &&& !post.ud_released(u)
    &&& post.ud_borrow(u) == crate::runtime::BorrowState::Unborrowed
    &&& post.ud_cell_kind(u) == kind
    &&& post.ud_serializable(u) == ser
    &&& post.mt_registered(post.ud_metatable(u))
    &&& post.mt_type_tag(post.ud_metatable(u)) == tag
    &&& post_s.entries_spec() == pre_s.entries_spec().push(ScopeResource::Userdata(u))
    &&& post_s.payloads_spec() == pre_s.payloads_spec().push(Some(data))
    &&& pre.strings_tables_same(post)
    &&& pre.functions_same(post)
    &&& pre.userdata_extend(post)
    &&& post.num_userdata() == pre.num_userdata() + 1
    &&& pre.metatables_extend(post)
    &&& post.pool_len() == pre.pool_len()
    &&& (tag is None ==> {
        // A fresh metatable is built only from a valid registry: every
        // dispatch name unrestricted, every meta field acceptable.
        &&& crate::runtime::registry_ok(reg)
        &&& post.ud_methods(u) == reg.methods_spec()
        &&& post.mt_meta_fields(post.ud_metatable(u)) == reg.meta_fields_spec()
        // Per-instance metatable freshness: the object's metatable is
        // newly built for it alone, never shared with any pre-existing
        // object.
        &&& post.ud_metatable(u) == pre.num_metatables()
        &&& forall|w: AnyUserData|
            pre.valid_ud(w) ==> #[trigger] post.ud_metatable(w) != post.ud_metatable(u)
    })
    &&& (match tag {
        // Where the type was not seen before, the registry builds the
        // shared per-type metatable and must be valid; a reused
        // metatable was validated when its type was first seen, and the
        // registry handed in alongside is not consulted.
        Some(t) => (forall|m: int|
            0 <= m < pre.num_metatables() ==> !(#[trigger] pre.mt_registered(m)
                && pre.mt_type_tag(m) == Some(t))) ==> crate::runtime::registry_ok(reg)
            && post.ud_methods(u) == reg.methods_spec() && post.mt_meta_fields(
            post.ud_metatable(u),
        ) == reg.meta_fields_spec(),
        None => true,
    })
}

/// Everything that holds after a registration is refused: the runtime
/// and the scope are unchanged, and `e` is exactly the failure some
/// invalid meta entry of the registry provokes.
pub open spec fn userdata_refused<U>(
    pre: Lua,
    post: Lua,
    pre_s: Scope<U>,
    post_s: Scope<U>,
    e: Error,
    reg: UserDataRegistry,
) -> bool {
    &&& pre.same_state(post)
    &&& post_s.entries_spec() == pre_s.entries_spec()
    &&& post_s.payloads_spec() == pre_s.payloads_spec()
    &&& crate::runtime::registry_invalid_with(e, reg)
}

impl<U> Scope<U> {
    /// Shared registration path of every opaque-object creator.
    fn create_userdata_impl(
        &mut self,
        lua: &mut Lua,
        data: U,
        kind: CellKind,
        serializable: bool,
        type_tag: Option<u64>,
        reg: UserDataRegistry,
    ) -> (r: Result<AnyUserData, Error>)
        requires
            old(self).wf_in(*old(lua)),
            old(lua).wf(),
            reg.wf(),
            forall|i: int|
                0 <= i < reg.meta_fields_spec().len() ==> old(lua).owns(
                    (#[trigger] reg.meta_fields_spec()[i]).1,
                ),
        ensures
            final(lua).wf(),
            final(self).wf_in(*final(lua)),
            match r {
                Ok(u) => userdata_created(
                    *old(lua),
                    *final(lua),
                    *old(self),
                    *final(self),
                    u,
                    data,
                    kind,
                    serializable,
                    type_tag,
                    reg,
                ),
                Err(e) => userdata_refused(
                    *old(lua),
                    *final(lua),
                    *old(self),
                    *final(self),
                    e,
                    reg,
                ),
            },
    {
        let mt: usize = match type_tag {
            Some(tag) => match lua.lookup_typed_metatable(tag) {
                Some(m) => m,
                None => {
                    match lua.register_metatable(reg, Some(tag)) {
                        Ok(m) => m,
                        Err(e) => {
                            proof {
                                lemma_wf_in_preserved(*old(self), *old(lua), *lua);
                            }
                            return Err(e);
                        },
                    }
                },
            },
            None => {
                match lua.register_metatable(reg, None) {
                    Ok(m) => m,
                    Err(e) => {
                        proof {
                            lemma_wf_in_preserved(*old(self), *old(lua), *lua);
                        }
                        return Err(e);
                    },
                }
            },
        };
        let ghost mid: Lua = *lua;
        let u = lua.make_userdata(kind, serializable, mt);
        self.entries.push(ScopeResource::Userdata(u));
        self.payloads.push(Some(data));
        proof {
            old(lua).lemma_strings_extend_trans(mid, *lua);
            old(lua).lemma_tables_extend_trans(mid, *lua);
            old(lua).lemma_functions_extend_trans(mid, *lua);
            old(lua).lemma_userdata_extend_trans(mid, *lua);
            old(lua).lemma_metatables_extend_trans(mid, *lua);
            if old(lua).valid_ud(u) {
                let _r: bool = old(lua).ud_released(u);
                assert(mid.valid_ud(u));
                assert(false);
            }
            if type_tag is None {
                assert forall|w: AnyUserData|
                    old(lua).valid_ud(w) implies #[trigger] lua.ud_metatable(w)
                    != lua.ud_metatable(u) by {
                    old(lua).lemma_ud_metatable_in_range(w);
                    let _r: bool = old(lua).ud_released(w);
                    let _k: CellKind = old(lua).ud_cell_kind(w);
                    assert(mid.ud_metatable(w) == old(lua).ud_metatable(w));
                    let _k2: CellKind = mid.ud_cell_kind(w);
                    assert(lua.ud_metatable(w) == mid.ud_metatable(w));
                }
            }
            assert(lua.mt_registered(mt as int) == mid.mt_registered(mt as int));
            assert(lua.mt_type_tag(mt as int) == mid.mt_type_tag(mt as int));
            assert(lua.mt_methods(mt as int) == mid.mt_methods(mt as int));
            assert(lua.mt_meta_fields(mt as int) == mid.mt_meta_fields(mt as int));
            lemma_wf_in_preserved(*old(self), *old(lua), *lua);
            assert(self.entries@ =~= old(self).entries_spec().push(ScopeResource::Userdata(u)));
            assert(self.payloads@ =~= old(self).payloads_spec().push(Some(data)));
            assert forall|i: int, j: int|
                0 <= i < j < self.entries_spec().len() implies (#[trigger] self.entries_spec()[i])
                != (#[trigger] self.entries_spec()[j]) by {
                if j == self.entries_spec().len() - 1 {
                    match old(self).entries_spec()[i] {
                        ScopeResource::Userdata(w) => {
                            assert(old(lua).valid_ud(w));
                        },
                        ScopeResource::Callback(g) => {},
                    }
                }
            }
        }
        Ok(u)
    }

    /// Exposes owned host data as an opaque guest object of the host
    /// type designated by `type_tag`, expiring when the scope ends; the
    /// per-type metatable is shared across instances, so the registry is
    /// consulted only the first time the type is seen.
    pub fn create_userdata(
        &mut self,
        lua: &mut Lua,
        data: U,
        type_tag: u64,
        reg: UserDataRegistry,
    ) -> (r: Result<AnyUserData, Error>)
        requires
            old(self).wf_in(*old(lua)),
            old(lua).wf(),
            reg.wf(),
            forall|i: int|
                0 <= i < reg.meta_fields_spec().len() ==> old(lua).owns(
                    (#[trigger] reg.meta_fields_spec()[i]).1,
                ),
        ensures
            final(lua).wf(),
            final(self).wf_in(*final(lua)),
            match r {
                Ok(u) => userdata_created(
                    *old(lua),
                    *final(lua),
                    *old(self),
                    *final(self),
                    u,
                    data,
                    CellKind::Owned,
                    false,
                    Some(type_tag),
                    reg,
                ),
                Err(e) => userdata_refused(
                    *old(lua),
                    *final(lua),
                    *old(self),
                    *final(self),
                    e,
                    reg,
                ),
            },
    {
        self.create_userdata_impl(lua, data, CellKind::Owned, false, Some(type_tag), reg)
    }

    /// Exposes owned, serializable host data as an opaque guest object;
    /// apart from the serializable mark this is [`Scope::create_userdata`].
    pub fn create_ser_userdata(
        &mut self,
        lua: &mut Lua,
        data: U,
        type_tag: u64,
        reg: UserDataRegistry,
    ) -> (r: Result<AnyUserData, Error>)
        requires
            old(self).wf_in(*old(lua)),
            old(lua).wf(),
            reg.wf(),
            forall|i: int|
                0 <= i < reg.meta_fields_spec().len() ==> old(lua).owns(
                    (#[trigger] reg.meta_fields_spec()[i]).1,
                ),
        ensures
            final(lua).wf(),
            final(self).wf_in(*final(lua)),
            match r {
                Ok(u) => userdata_created(
                    *old(lua),
                    *final(lua),
                    *old(self),
                    *final(self),
                    u,
                    data,
                    CellKind::Owned,
                    true,
                    Some(type_tag),
                    reg,
                ),
                Err(e) => userdata_refused(
                    *old(lua),
                    *final(lua),
                    *old(self),
                    *final(self),
                    e,
                    reg,
                ),
            },
    {
        self.create_userdata_impl(lua, data, CellKind::Owned, true, Some(type_tag), reg)
    }

    /// Exposes host data lent by shared reference: the guest may only
    /// read it (exclusive borrows are refused), no early extraction
    /// exists, and the lender receives the payload back at teardown.
    pub fn create_userdata_ref(
        &mut self,
        lua: &mut Lua,
        data: U,
        type_tag: u64,
        reg: UserDataRegistry,
    ) -> (r: Result<AnyUserData, Error>)
        requires
            old(self).wf_in(*old(lua)),
            old(lua).wf(),
            reg.wf(),
            forall|i: int|
                0 <= i < reg.meta_fields_spec().len() ==> old(lua).owns(
                    (#[trigger] reg.meta_fields_spec()[i]).1,
                ),
        ensures
            final(lua).wf(),
            final(self).wf_in(*final(lua)),
            match r {
                Ok(u) => userdata_created(
                    *old(lua),
                    *final(lua),
                    *old(self),
                    *final(self),
                    u,
                    data,
                    CellKind::SharedRef,
                    false,
                    Some(type_tag),
                    reg,
                ),
                Err(e) => userdata_refused(
                    *old(lua),
                    *final(lua),
                    *old(self),
                    *final(self),
                    e,
                    reg,
                ),
            },
    {
        self.create_userdata_impl(lua, data, CellKind::SharedRef, false, Some(type_tag), reg)
    }

    /// Exposes host data lent by exclusive reference, expiring when the
    /// scope ends; the lender receives the payload back at teardown.
    pub fn create_userdata_ref_mut(
        &mut self,
        lua: &mut Lua,
        data: U,
        type_tag: u64,
        reg: UserDataRegistry,
    ) -> (r: Result<AnyUserData, Error>)
        requires
            old(self).wf_in(*old(lua)),
            old(lua).wf(),
            reg.wf(),
            forall|i: int|
                0 <= i < reg.meta_fields_spec().len() ==> old(lua).owns(
                    (#[trigger] reg.meta_fields_spec()[i]).1,
                ),
        ensures
            final(lua).wf(),
            final(self).wf_in(*final(lua)),
            match r {
                Ok(u) => userdata_created(
                    *old(lua),
                    *final(lua),
                    *old(self),
                    *final(self),
                    u,
                    data,
                    CellKind::ExclusiveRef,
                    false,
                    Some(type_tag),
                    reg,
                ),
                Err(e) => userdata_refused(
                    *old(lua),
                    *final(lua),
                    *old(self),
                    *final(self),
                    e,
                    reg,
                ),
            },
    {
        self.create_userdata_impl(lua, data, CellKind::ExclusiveRef, false, Some(type_tag), reg)
    }

    /// Exposes host data of a type with no stable tag, lent by shared
    /// reference: a fresh metatable is built from the registry for this
    /// one object, at a higher per-object cost, and no typed handle can
    /// later be read back out of the generic guest handle.
    pub fn create_any_userdata_ref(
        &mut self,
        lua: &mut Lua,
        data: U,
        reg: UserDataRegistry,
    ) -> (r: Result<AnyUserData, Error>)
        requires
            old(self).wf_in(*old(lua)),
            old(lua).wf(),
            reg.wf(),
            forall|i: int|
                0 <= i < reg.meta_fields_spec().len() ==> old(lua).owns(
                    (#[trigger] reg.meta_fields_spec()[i]).1,
                ),
        ensures
            final(lua).wf(),
            final(self).wf_in(*final(lua)),
            match r {
                Ok(u) => userdata_created(
                    *old(lua),
                    *final(lua),
                    *old(self),
                    *final(self),
                    u,
                    data,
                    CellKind::SharedRef,
                    false,
                    None,
                    reg,
                ),
                Err(e) => userdata_refused(
                    *old(lua),
                    *final(lua),
                    *old(self),
                    *final(self),
                    e,
                    reg,
                ),
            },
    {
        self.create_userdata_impl(lua, data, CellKind::SharedRef, false, None, reg)
    }

    /// Exposes host data of a type with no stable tag, lent by exclusive
    /// reference; see [`Scope::create_any_userdata_ref`].
    pub fn create_any_userdata_ref_mut(
        &mut self,
        lua: &mut Lua,
        data: U,
        reg: UserDataRegistry,
    ) -> (r: Result<AnyUserData, Error>)
        requires
            old(self).wf_in(*old(lua)),
            old(lua).wf(),
            reg.wf(),
            forall|i: int|
                0 <= i < reg.meta_fields_spec().len() ==> old(lua).owns(
                    (#[trigger] reg.meta_fields_spec()[i]).1,
                ),
        ensures
            final(lua).wf(),
            final(self).wf_in(*final(lua)),
            match r {
                Ok(u) => userdata_created(
                    *old(lua),
                    *final(lua),
                    *old(self),
                    *final(self),
                    u,
                    data,
                    CellKind::ExclusiveRef,
                    false,
                    None,
                    reg,
                ),
                Err(e) => userdata_refused(
                    *old(lua),
                    *final(lua),
                    *old(self),
                    *final(self),
                    e,
                    reg,
                ),
            },
    {
        self.create_userdata_impl(lua, data, CellKind::ExclusiveRef, false, None, reg)
    }

    /// Exposes owned host data whose type needs no stable tag: a fresh
    /// metatable is built from the registry for this one object, with
    /// every meta entry validated, and method dispatch checks the
    /// object's per-instance identity instead of a type identity.
    pub fn create_nonstatic_userdata(
        &mut self,
        lua: &mut Lua,
        data: U,
        reg: UserDataRegistry,
    ) -> (r: Result<AnyUserData, Error>)
        requires
            old(self).wf_in(*old(lua)),
            old(lua).wf(),
            reg.wf(),
            forall|i: int|
                0 <= i < reg.meta_fields_spec().len() ==> old(lua).owns(
                    (#[trigger] reg.meta_fields_spec()[i]).1,
                ),
        ensures
            final(lua).wf(),
            final(self).wf_in(*final(lua)),
            match r {
                Ok(u) => userdata_created(
                    *old(lua),
                    *final(lua),
                    *old(self),
                    *final(self),
                    u,
                    data,
                    CellKind::Owned,
                    false,
                    None,
                    reg,
                ),
                Err(e) => userdata_refused(
                    *old(lua),
                    *final(lua),
                    *old(self),
                    *final(self),
                    e,
                    reg,
                ),
            },
    {
        self.create_userdata_impl(lua, data, CellKind::Owned, false, None, reg)
    }
}

/// Appending one slot appends its recovered payload.
proof fn lemma_recovered_push<U>(s: Seq<Option<U>>, x: Option<U>)
    ensures
        recovered(s.push(x)) == recovered(s) + (match x {
            Some(p) => seq![p],
            None => Seq::<U>::empty(),
        }),
    decreases s.len(),
{
    if s.len() == 0 {
        assert(s.push(x).drop_first() =~= Seq::<Option<U>>::empty());
        assert(s.push(x)[0] == x);
        assert(recovered(Seq::<Option<U>>::empty()) == Seq::<U>::empty());
        assert(recovered(s) == Seq::<U>::empty());
        match x {
            Some(p) => {
                assert(recovered(s.push(x)) == seq![p] + recovered(
                    s.push(x).drop_first(),
                ));
                assert(seq![p] + Seq::<U>::empty() =~= seq![p]);
                assert(recovered(s) + seq![p] =~= seq![p]);
            },
            None => {
                assert(recovered(s.push(x)) == recovered(s.push(x).drop_first()));
                assert(recovered(s) + Seq::<U>::empty() =~= Seq::<U>::empty());
            },
        }
    } else {
        assert(s.push(x).drop_first() =~= s.drop_first().push(x));
        lemma_recovered_push(s.drop_first(), x);
        assert(s.push(x)[0] == s[0]);
        match s[0] {
            Some(p) => {
                assert(recovered(s.push(x)) == seq![p] + recovered(s.drop_first().push(x)));
                assert(recovered(s) == seq![p] + recovered(s.drop_first()));
                assert(seq![p] + (recovered(s.drop_first()) + (match x {
                    Some(q) => seq![q],
                    None => Seq::<U>::empty(),
                })) =~= (seq![p] + recovered(s.drop_first())) + (match x {
                    Some(q) => seq![q],
                    None => Seq::<U>::empty(),
                }));
            },
            None => {
                assert(recovered(s.push(x)) == recovered(s.drop_first().push(x)));
                assert(recovered(s) == recovered(s.drop_first()));
            },
        }
    }
}


/// Counts of the runtime's registries are untouched by teardown.
pub open spec fn closing_counts(l0: Lua, l: Lua) -> bool {
    &&& l.num_functions() == l0.num_functions()
    &&& l.num_userdata() == l0.num_userdata()
    &&& l.num_metatables() == l0.num_metatables()
}

/// The first `i` entries are severed, every entry's handle is still
/// valid, and the unprocessed objects keep their original released
/// state.
pub open spec fn closing_severed(entries: Seq<ScopeResource>, l0: Lua, l: Lua, i: int) -> bool {
    &&& forall|k: int|
        0 <= k < i ==> match #[trigger] entries[k] {
            ScopeResource::Callback(f) => l.fn_released(f),
            ScopeResource::Userdata(u) => l.ud_released(u),
        }
    &&& forall|k: int|
        0 <= k < entries.len() ==> match #[trigger] entries[k] {
            ScopeResource::Callback(f) => l.valid_fn(f),
            ScopeResource::Userdata(u) => l.valid_ud(u),
        }
    &&& forall|k: int|
        i <= k < entries.len() ==> match #[trigger] entries[k] {
            ScopeResource::Callback(f) => true,
            ScopeResource::Userdata(u) => l.ud_released(u) == l0.ud_released(u),
        }
}

/// Functions the scope did not register keep their state; every
/// function keeps everything but its released flag.
pub open spec fn closing_fn_frame(entries: Seq<ScopeResource>, l0: Lua, l: Lua) -> bool {
    &&& forall|f: Function|
        #[trigger] l0.valid_fn(f) ==> l.valid_fn(f) && l.fn_callback(f) == l0.fn_callback(f)
            && l.fn_mutable(f) == l0.fn_mutable(f) && l.fn_busy(f) == l0.fn_busy(f)
    &&& forall|f: Function|
        #[trigger] l0.valid_fn(f) && !entries.contains(ScopeResource::Callback(f))
            ==> l.fn_released(f) == l0.fn_released(f)
}

/// Objects the scope did not register keep their state; every object
/// keeps everything but its released flag.
pub open spec fn closing_ud_frame(entries: Seq<ScopeResource>, l0: Lua, l: Lua) -> bool {
    &&& forall|u: AnyUserData|
        l0.valid_ud(u) ==> l.valid_ud(u) && l.ud_borrow(u) == #[trigger] l0.ud_borrow(u)
            && l.ud_cell_kind(u) == l0.ud_cell_kind(u) && l.ud_serializable(u)
            == l0.ud_serializable(u) && l.ud_metatable(u) == l0.ud_metatable(u)
    &&& forall|u: AnyUserData|
        l0.valid_ud(u) && !entries.contains(ScopeResource::Userdata(u)) ==> l.ud_released(u)
            == #[trigger] l0.ud_released(u)
}

/// Metatable contents are untouched, identities not belonging to any
/// entry keep their registration, and the per-instance metatables of
/// the first `i` entries' live objects are deregistered.
pub open spec fn closing_mt_frame(entries: Seq<ScopeResource>, l0: Lua, l: Lua, i: int) -> bool {
    &&& forall|m: int|
        0 <= m < l0.num_metatables() ==> #[trigger] l.mt_type_tag(m) == l0.mt_type_tag(m)
            && l.mt_methods(m) == l0.mt_methods(m) && l.mt_meta_fields(m) == l0.mt_meta_fields(
            m,
        )
    &&& forall|m: int|
        0 <= m < l0.num_metatables() && (forall|k: int|
            0 <= k < entries.len() ==> match #[trigger] entries[k] {
                ScopeResource::Callback(_) => true,
                ScopeResource::Userdata(u) => l0.ud_metatable(u) != m,
            }) ==> #[trigger] l.mt_registered(m) == l0.mt_registered(m)
    &&& forall|k: int|
        0 <= k < i ==> match #[trigger] entries[k] {
            ScopeResource::Callback(_) => true,
            ScopeResource::Userdata(u) => (!l0.ud_released(u) && l0.mt_type_tag(
                l0.ud_metatable(u),
            ) is None) ==> !l.mt_registered(l0.ud_metatable(u)),
        }
}

/// The severing loop's state after `i` entries were processed: the
/// processed entries are severed, and everything the scope did not
/// register keeps its state.
pub open spec fn closing_invs(entries: Seq<ScopeResource>, l0: Lua, l: Lua, i: int) -> bool {
    &&& closing_counts(l0, l)
    &&& closing_severed(entries, l0, l, i)
    &&& closing_fn_frame(entries, l0, l)
    &&& closing_ud_frame(entries, l0, l)
    &&& closing_mt_frame(entries, l0, l, i)
}

/// Severing one registered callback keeps the function frame: every
/// function keeps its fields, and only registered callbacks can change
/// their released flag.
proof fn lemma_fn_frame_step_callback(
    entries: Seq<ScopeResource>,
    l0: Lua,
    lprev: Lua,
    lnow: Lua,
    f: Function,
)
    requires
        closing_fn_frame(entries, l0, lprev),
        entries.contains(ScopeResource::Callback(f)),
        lprev.fn_except_frame(lnow, f),
        lnow.valid_fn(f),
        lnow.fn_callback(f) == lprev.fn_callback(f),
        lnow.fn_mutable(f) == lprev.fn_mutable(f),
        lnow.fn_busy(f) == lprev.fn_busy(f),
    ensures
        closing_fn_frame(entries, l0, lnow),
{
    assert forall|g: Function|
        #[trigger] l0.valid_fn(g) implies lnow.valid_fn(g) && lnow.fn_callback(g)
        == l0.fn_callback(g) && lnow.fn_mutable(g) == l0.fn_mutable(g) && lnow.fn_busy(g)
        == l0.fn_busy(g) by {
        assert(lprev.valid_fn(g));
        let _c1: int = lprev.fn_callback(g);
    }
    assert forall|g: Function|
        #[trigger] l0.valid_fn(g) && !entries.contains(ScopeResource::Callback(g))
            implies lnow.fn_released(g) == l0.fn_released(g) by {
        assert(lprev.valid_fn(g));
        let _c1: int = lprev.fn_callback(g);
        assert(g != f);
    }
}

/// A step that leaves the functions untouched keeps the function frame.
proof fn lemma_fn_frame_step_same(entries: Seq<ScopeResource>, l0: Lua, lprev: Lua, lnow: Lua)
    requires
        closing_fn_frame(entries, l0, lprev),
        lprev.functions_same(lnow),
    ensures
        closing_fn_frame(entries, l0, lnow),
{
    assert forall|g: Function|
        #[trigger] l0.valid_fn(g) implies lnow.valid_fn(g) && lnow.fn_callback(g)
        == l0.fn_callback(g) && lnow.fn_mutable(g) == l0.fn_mutable(g) && lnow.fn_busy(g)
        == l0.fn_busy(g) by {
        assert(lprev.valid_fn(g));
        let _c1: int = lprev.fn_callback(g);
    }
    assert forall|g: Function|
        #[trigger] l0.valid_fn(g) && !entries.contains(ScopeResource::Callback(g))
            implies lnow.fn_released(g) == l0.fn_released(g) by {
        assert(lprev.valid_fn(g));
        let _c1: int = lprev.fn_callback(g);
    }
}

/// One severing step over a registered callback keeps the loop's state.
#[verifier::spinoff_prover]
#[verifier::rlimit(60)]
proof fn lemma_close_step_callback(
    entries: Seq<ScopeResource>,
    l0: Lua,
    lprev: Lua,
    lnow: Lua,
    i: int,
    f: Function,
)
    requires
        l0.wf(),
        forall|k: int|
            0 <= k < entries.len() ==> match #[trigger] entries[k] {
                ScopeResource::Callback(g) => l0.valid_fn(g),
                ScopeResource::Userdata(u2) => l0.valid_ud(u2),
            },
        0 <= i < entries.len(),
        entries[i] == ScopeResource::Callback(f),
        forall|i2: int, j2: int|
            0 <= i2 < j2 < entries.len() ==> (#[trigger] entries[i2]) != (#[trigger] entries[j2]),
        closing_invs(entries, l0, lprev, i),
        lnow.num_functions() == lprev.num_functions(),
        lprev.fn_except_frame(lnow, f),
        lnow.valid_fn(f),
        lnow.fn_released(f),
        lnow.fn_callback(f) == lprev.fn_callback(f),
        lnow.fn_mutable(f) == lprev.fn_mutable(f),
        lnow.fn_busy(f) == lprev.fn_busy(f),
        lprev.userdata_same(lnow),
        lprev.metatables_same(lnow),
    ensures
        closing_invs(entries, l0, lnow, i + 1),
{
    assert(closing_severed(entries, l0, lnow, i + 1)) by {
        assert forall|k: int|
            0 <= k < i + 1 implies match #[trigger] entries[k] {
            ScopeResource::Callback(g) => lnow.fn_released(g),
            ScopeResource::Userdata(w) => lnow.ud_released(w),
        } by {
            if k < i {
                assert(entries[k] != entries[i]);
                match entries[k] {
                    ScopeResource::Callback(g) => {
                        assert(lprev.valid_fn(g));
                        assert(lprev.fn_released(g));
                        let _c: int = lprev.fn_callback(g);
                    },
                    ScopeResource::Userdata(w) => {
                        assert(lprev.valid_ud(w));
                        let _r: bool = lprev.ud_released(w);
                    },
                }
            }
        }
        assert forall|k: int|
            0 <= k < entries.len() implies match #[trigger] entries[k] {
            ScopeResource::Callback(g) => lnow.valid_fn(g),
            ScopeResource::Userdata(w) => lnow.valid_ud(w),
        } by {
            if k != i {
                assert(entries[k] != entries[i]);
            }
            match entries[k] {
                ScopeResource::Callback(g) => {
                    assert(lprev.valid_fn(g));
                    let _c: int = lprev.fn_callback(g);
                },
                ScopeResource::Userdata(w) => {
                    assert(lprev.valid_ud(w));
                    let _r: bool = lprev.ud_released(w);
                },
            }
        }
        assert forall|k: int|
            i + 1 <= k < entries.len() implies match #[trigger] entries[k] {
            ScopeResource::Callback(g) => true,
            ScopeResource::Userdata(w) => lnow.ud_released(w) == l0.ud_released(w),
        } by {
            match entries[k] {
                ScopeResource::Callback(g) => {},
                ScopeResource::Userdata(w) => {
                    assert(lprev.valid_ud(w));
                    let _r: bool = lprev.ud_released(w);
                },
            }
        }
    }
    assert(entries.contains(ScopeResource::Callback(f)));
    lemma_fn_frame_step_callback(entries, l0, lprev, lnow, f);

    assert(closing_ud_frame(entries, l0, lnow)) by {
        assert forall|w: AnyUserData|
            l0.valid_ud(w) implies lnow.valid_ud(w) && lnow.ud_borrow(w)
            == #[trigger] l0.ud_borrow(w) && lnow.ud_cell_kind(w) == l0.ud_cell_kind(w)
            && lnow.ud_serializable(w) == l0.ud_serializable(w) && lnow.ud_metatable(w)
            == l0.ud_metatable(w) by {
            let _b0: BorrowState = l0.ud_borrow(w);
            assert(lprev.valid_ud(w));
            let _r1: bool = lprev.ud_released(w);
            let _k1: CellKind = lprev.ud_cell_kind(w);
            let _r2: bool = lnow.ud_released(w);
            let _k2: CellKind = lnow.ud_cell_kind(w);
        }
        assert forall|w: AnyUserData|
            l0.valid_ud(w) && !entries.contains(ScopeResource::Userdata(w))
                implies lnow.ud_released(w) == #[trigger] l0.ud_released(w) by {
            let _b0: BorrowState = l0.ud_borrow(w);
            assert(lprev.valid_ud(w));
            let _r1: bool = lprev.ud_released(w);
        }
    }
    assert(closing_mt_frame(entries, l0, lnow, i + 1)) by {
        assert forall|m: int|
            0 <= m < l0.num_metatables() implies #[trigger] lnow.mt_type_tag(m)
            == l0.mt_type_tag(m) && lnow.mt_methods(m) == l0.mt_methods(m)
            && lnow.mt_meta_fields(m) == l0.mt_meta_fields(m) by {
            let _t1: Option<u64> = lprev.mt_type_tag(m);
            let _g: bool = lprev.mt_registered(m);
            let _g2: bool = lnow.mt_registered(m);
        }
        assert forall|m: int|
            0 <= m < l0.num_metatables() && (forall|k: int|
                0 <= k < entries.len() ==> match #[trigger] entries[k] {
                    ScopeResource::Callback(_) => true,
                    ScopeResource::Userdata(u2) => l0.ud_metatable(u2) != m,
                }) implies #[trigger] lnow.mt_registered(m) == l0.mt_registered(m) by {
            let _t1: Option<u64> = lprev.mt_type_tag(m);
            let _g: bool = lprev.mt_registered(m);
        }
        assert forall|k: int|
            0 <= k < i + 1 implies match #[trigger] entries[k] {
            ScopeResource::Callback(_) => true,
            ScopeResource::Userdata(u2) => (!l0.ud_released(u2) && l0.mt_type_tag(
                l0.ud_metatable(u2),
            ) is None) ==> !lnow.mt_registered(l0.ud_metatable(u2)),
        } by {
            if k < i {
                match entries[k] {
                    ScopeResource::Callback(_) => {},
                    ScopeResource::Userdata(u2) => {
                        l0.lemma_ud_metatable_in_range(u2);
                        let _t1: Option<u64> = lprev.mt_type_tag(l0.ud_metatable(u2));
                        let _g: bool = lprev.mt_registered(l0.ud_metatable(u2));
                        let _g2: bool = lnow.mt_registered(l0.ud_metatable(u2));
                    },
                }
            }
        }
    }
}

/// One severing step over a live opaque object keeps the loop's state.
#[verifier::spinoff_prover]
#[verifier::rlimit(60)]
proof fn lemma_close_step_userdata(
    entries: Seq<ScopeResource>,
    l0: Lua,
    lprev: Lua,
    lnow: Lua,
    i: int,
    u: AnyUserData,
)
    requires
        l0.wf(),
        forall|k: int|
            0 <= k < entries.len() ==> match #[trigger] entries[k] {
                ScopeResource::Callback(g) => l0.valid_fn(g),
                ScopeResource::Userdata(u2) => l0.valid_ud(u2),
            },
        0 <= i < entries.len(),
        entries[i] == ScopeResource::Userdata(u),
        forall|i2: int, j2: int|
            0 <= i2 < j2 < entries.len() ==> (#[trigger] entries[i2]) != (#[trigger] entries[j2]),
        closing_invs(entries, l0, lprev, i),
        lprev.functions_same(lnow),
        lnow.num_userdata() == lprev.num_userdata(),
        lprev.ud_except_frame(lnow, u),
        lnow.valid_ud(u),
        lnow.ud_released(u),
        lnow.ud_metatable(u) == lprev.ud_metatable(u),
        lnow.ud_cell_kind(u) == lprev.ud_cell_kind(u),
        lnow.ud_borrow(u) == lprev.ud_borrow(u),
        lnow.ud_serializable(u) == lprev.ud_serializable(u),
        lnow.num_metatables() == lprev.num_metatables(),
        lprev.mt_except_frame(lnow, lprev.ud_metatable(u)),
        lnow.mt_type_tag(lprev.ud_metatable(u)) == lprev.mt_type_tag(lprev.ud_metatable(u)),
        lnow.mt_methods(lprev.ud_metatable(u)) == lprev.mt_methods(lprev.ud_metatable(u)),
        lnow.mt_meta_fields(lprev.ud_metatable(u)) == lprev.mt_meta_fields(
            lprev.ud_metatable(u),
        ),
        lprev.mt_type_tag(lprev.ud_metatable(u)) is Some ==> lnow.mt_registered(
            lprev.ud_metatable(u),
        ) == lprev.mt_registered(lprev.ud_metatable(u)),
        lprev.mt_type_tag(lprev.ud_metatable(u)) is None ==> !lnow.mt_registered(
            lprev.ud_metatable(u),
        ),
    ensures
        closing_invs(entries, l0, lnow, i + 1),
{
    // The severed object's metatable identity, unchanged since entry.
    let mu = l0.ud_metatable(u);
    assert(l0.valid_ud(u)) by {
        assert(entries[i] == ScopeResource::Userdata(u));
    }
    assert(lprev.ud_metatable(u) == mu) by {
        let _b0: BorrowState = l0.ud_borrow(u);
    }
    l0.lemma_ud_metatable_in_range(u);
    assert(closing_severed(entries, l0, lnow, i + 1)) by {
        assert forall|k: int|
            0 <= k < i + 1 implies match #[trigger] entries[k] {
            ScopeResource::Callback(g) => lnow.fn_released(g),
            ScopeResource::Userdata(w) => lnow.ud_released(w),
        } by {
            if k < i {
                assert(entries[k] != entries[i]);
                match entries[k] {
                    ScopeResource::Callback(g) => {
                        assert(lprev.valid_fn(g));
                        assert(lprev.fn_released(g));
                        let _c: int = lprev.fn_callback(g);
                    },
                    ScopeResource::Userdata(w) => {
                        assert(lprev.valid_ud(w));
                        assert(lprev.ud_released(w));
                        let _r: bool = lprev.ud_released(w);
                        assert(w != u);
                    },
                }
            }
        }
        assert forall|k: int|
            0 <= k < entries.len() implies match #[trigger] entries[k] {
            ScopeResource::Callback(g) => lnow.valid_fn(g),
            ScopeResource::Userdata(w) => lnow.valid_ud(w),
        } by {
            if k != i {
                assert(entries[k] != entries[i]);
            }
            match entries[k] {
                ScopeResource::Callback(g) => {
                    assert(lprev.valid_fn(g));
                    let _c: int = lprev.fn_callback(g);
                },
                ScopeResource::Userdata(w) => {
                    assert(lprev.valid_ud(w));
                    let _r: bool = lprev.ud_released(w);
                },
            }
        }
        assert forall|k: int|
            i + 1 <= k < entries.len() implies match #[trigger] entries[k] {
            ScopeResource::Callback(g) => true,
            ScopeResource::Userdata(w) => lnow.ud_released(w) == l0.ud_released(w),
        } by {
            assert(entries[k] != entries[i]);
            match entries[k] {
                ScopeResource::Callback(g) => {},
                ScopeResource::Userdata(w) => {
                    assert(lprev.valid_ud(w));
                    let _r: bool = lprev.ud_released(w);
                    assert(w != u);
                },
            }
        }
    }
    lemma_fn_frame_step_same(entries, l0, lprev, lnow);

    assert(closing_ud_frame(entries, l0, lnow)) by {
        assert forall|w: AnyUserData|
            l0.valid_ud(w) implies lnow.valid_ud(w) && lnow.ud_borrow(w)
            == #[trigger] l0.ud_borrow(w) && lnow.ud_cell_kind(w) == l0.ud_cell_kind(w)
            && lnow.ud_serializable(w) == l0.ud_serializable(w) && lnow.ud_metatable(w)
            == l0.ud_metatable(w) by {
            let _b0: BorrowState = l0.ud_borrow(w);
            assert(lprev.valid_ud(w));
            let _r1: bool = lprev.ud_released(w);
            let _k1: CellKind = lprev.ud_cell_kind(w);
            if w != u {
                let _r2: bool = lnow.ud_released(w);
                let _k2: CellKind = lnow.ud_cell_kind(w);
            }
        }
        assert forall|w: AnyUserData|
            l0.valid_ud(w) && !entries.contains(ScopeResource::Userdata(w))
                implies lnow.ud_released(w) == #[trigger] l0.ud_released(w) by {
            let _b0: BorrowState = l0.ud_borrow(w);
            assert(lprev.valid_ud(w));
            let _r1: bool = lprev.ud_released(w);
            if w == u {
                assert(entries.contains(ScopeResource::Userdata(u)));
            }
            assert(w != u);
        }
    }
    assert(closing_mt_frame(entries, l0, lnow, i + 1)) by {
        assert forall|m: int|
            0 <= m < l0.num_metatables() implies #[trigger] lnow.mt_type_tag(m)
            == l0.mt_type_tag(m) && lnow.mt_methods(m) == l0.mt_methods(m)
            && lnow.mt_meta_fields(m) == l0.mt_meta_fields(m) by {
            let _t1: Option<u64> = lprev.mt_type_tag(m);
            let _g: bool = lprev.mt_registered(m);
            let _g2: bool = lnow.mt_registered(m);
            if m == mu {
            }
        }
        assert forall|m: int|
            0 <= m < l0.num_metatables() && (forall|k: int|
                0 <= k < entries.len() ==> match #[trigger] entries[k] {
                    ScopeResource::Callback(_) => true,
                    ScopeResource::Userdata(u2) => l0.ud_metatable(u2) != m,
                }) implies #[trigger] lnow.mt_registered(m) == l0.mt_registered(m) by {
            let _t1: Option<u64> = lprev.mt_type_tag(m);
            let _g: bool = lprev.mt_registered(m);
            assert(match entries[i] {
                ScopeResource::Callback(_) => true,
                ScopeResource::Userdata(u2) => l0.ud_metatable(u2) != m,
            });
            assert(m != mu);
        }
        assert forall|k: int|
            0 <= k < i + 1 implies match #[trigger] entries[k] {
            ScopeResource::Callback(_) => true,
            ScopeResource::Userdata(u2) => (!l0.ud_released(u2) && l0.mt_type_tag(
                l0.ud_metatable(u2),
            ) is None) ==> !lnow.mt_registered(l0.ud_metatable(u2)),
        } by {
            match entries[k] {
                ScopeResource::Callback(_) => {},
                ScopeResource::Userdata(u2) => {
                    if !l0.ud_released(u2) && l0.mt_type_tag(l0.ud_metatable(u2)) is None {
                        let m2 = l0.ud_metatable(u2);
                        l0.lemma_ud_metatable_in_range(u2);
                        let _t1: Option<u64> = lprev.mt_type_tag(m2);
                        let _g: bool = lprev.mt_registered(m2);
                        let _g2: bool = lnow.mt_registered(m2);
                        if k == i {
                            assert(u2 == u);
                            assert(lprev.mt_type_tag(mu) == l0.mt_type_tag(mu));
                            assert(!lnow.mt_registered(mu));
                        } else if k < i {
                            assert(!lprev.mt_registered(m2));
                            if m2 == mu {
                                assert(lprev.mt_type_tag(mu) == l0.mt_type_tag(mu));
                            }
                        }
                    }
                },
            }
        }
    }
}

/// Skipping an already-destroyed opaque object keeps the loop's state.
proof fn lemma_close_step_skipped(
    entries: Seq<ScopeResource>,
    l0: Lua,
    l: Lua,
    i: int,
    u: AnyUserData,
)
    requires
        l0.wf(),
        0 <= i < entries.len(),
        entries[i] == ScopeResource::Userdata(u),
        closing_invs(entries, l0, l, i),
        l.ud_released(u),
    ensures
        closing_invs(entries, l0, l, i + 1),
{
    assert(closing_severed(entries, l0, l, i + 1)) by {
        assert forall|k: int|
            0 <= k < i + 1 implies match #[trigger] entries[k] {
            ScopeResource::Callback(g) => l.fn_released(g),
            ScopeResource::Userdata(w) => l.ud_released(w),
        } by {
        }
    }
    assert(closing_mt_frame(entries, l0, l, i + 1)) by {
        assert forall|k: int|
            0 <= k < i + 1 implies match #[trigger] entries[k] {
            ScopeResource::Callback(_) => true,
            ScopeResource::Userdata(u2) => (!l0.ud_released(u2) && l0.mt_type_tag(
                l0.ud_metatable(u2),
            ) is None) ==> !l.mt_registered(l0.ud_metatable(u2)),
        } by {
            if k == i {
                assert(l.ud_released(u) == l0.ud_released(u));
            }
        }
    }
}

impl<U> Scope<U> {
    /// Forcibly extracts the host payload of an owned opaque object
    /// registered with this scope, ahead of the scope's end: the object
    /// is severed at once, every later guest access fails with the
    /// destroyed-resource error, and the payload is handed back. Refused
    /// while a borrow is active, on an already-destroyed object, on
    /// reference-backed cells, and on a handle this scope never
    /// registered.
    #[verifier::loop_isolation(false)]
    pub fn take(&mut self, lua: &mut Lua, ud: AnyUserData) -> (r: Result<U, Error>)
        requires
            old(self).wf_in(*old(lua)),
            old(lua).wf(),
            old(lua).valid_ud(ud),
        ensures
            final(lua).wf(),
            final(self).wf_in(*final(lua)),
            final(self).entries_spec() == old(self).entries_spec(),
            r is Err ==> final(self).payloads_spec() == old(self).payloads_spec() && old(lua).same_state(*final(lua)),
            r matches Err(e) ==> (if old(self).entries_spec().contains(
                ScopeResource::Userdata(ud),
            ) {
                old(lua).take_error(ud) == Some(e)
            } else {
                e == Error::UserDataTypeMismatch
            }),
            r is Ok ==> old(lua).take_error(ud) is None,
            r is Ok ==> final(lua).ud_released(ud),
            r is Ok ==> old(lua).strings_tables_same(*final(lua)),
            r is Ok ==> old(lua).functions_same(*final(lua)),
            r is Ok ==> old(lua).metatables_same(*final(lua)),
            r is Ok ==> final(lua).num_userdata() == old(lua).num_userdata(),
            r is Ok ==> final(lua).pool_len() == old(lua).pool_len(),
            r is Ok ==> forall|w: AnyUserData|
                old(lua).valid_ud(w) && w != ud ==> final(lua).ud_released(w) == #[trigger] old(lua).ud_released(w),
            r matches Ok(p) ==> exists|i: int|
                {
                    &&& 0 <= i < old(self).entries_spec().len()
                    &&& #[trigger] old(self).entries_spec()[i] == ScopeResource::Userdata(ud)
                    &&& old(self).payloads_spec()[i] == Some(p)
                    &&& final(self).payloads_spec() == old(self).payloads_spec().update(
                        i,
                        None::<U>,
                    )
                },
    {
        let n = self.entries.len();
        let mut i: usize = 0;
        while i < n
            invariant
                n == self.entries@.len(),
                i <= n,
                self.entries@ == old(self).entries_spec(),
                self.payloads@ == old(self).payloads_spec(),
                lua == old(lua),
                forall|k: int|
                    0 <= k < i ==> (#[trigger] self.entries@[k]) != ScopeResource::Userdata(ud),
            decreases n - i,
        {
            let hit = match self.entries[i] {
                ScopeResource::Userdata(w) => w.index == ud.index,
                _ => false,
            };
            if hit {
                proof {
                    assert(self.entries@[i as int] == ScopeResource::Userdata(ud));
                }
                match lua.take_userdata(ud) {
                    Ok(()) => {
                        let mut slot: Option<U> = None;
                        let dst = &mut self.payloads[i];
                        core::mem::swap(&mut slot, dst);
                        match slot {
                            Some(p) => {
                                proof {
                                    assert(self.payloads@ =~= old(self).payloads_spec().update(
                                        i as int,
                                        None::<U>,
                                    ));
                                    assert(old(self).payloads_spec()[i as int] == Some(p));
                                    assert forall|w: AnyUserData|
                                        old(lua).valid_ud(w) && w != ud implies lua.valid_ud(
                                        w,
                                    ) && lua.ud_released(w) == #[trigger] old(lua).ud_released(
                                        w,
                                    ) && lua.ud_borrow(w) == old(lua).ud_borrow(w) by {
                                        let _r: bool = old(lua).ud_released(w);
                                    }
                                    assert forall|w: AnyUserData|
                                        old(lua).valid_ud(w) && w != ud implies lua.ud_cell_kind(
                                        w,
                                    ) == #[trigger] old(lua).ud_cell_kind(w)
                                        && lua.ud_serializable(w) == old(lua).ud_serializable(
                                        w,
                                    ) && lua.ud_metatable(w) == old(lua).ud_metatable(w) by {
                                        let _r: bool = old(lua).ud_released(w);
                                        let _k: CellKind = old(lua).ud_cell_kind(w);
                                    }
                                    assert(exists|k: int|
                                        {
                                            &&& 0 <= k < old(self).entries_spec().len()
                                            &&& #[trigger] old(self).entries_spec()[k]
                                                == ScopeResource::Userdata(ud)
                                            &&& old(self).payloads_spec()[k] == Some(p)
                                            &&& final(self).payloads_spec() == old(self).payloads_spec().update(k, None::<U>)
                                        }) by {
                                        assert(old(self).entries_spec()[i as int]
                                            == ScopeResource::Userdata(ud));
                                    }
                                    assert forall|k: int|
                                        0 <= k < self.entries_spec().len() implies match
                                        #[trigger] self.entries_spec()[k] {
                                        ScopeResource::Callback(f) => lua.valid_fn(f)
                                            && self.payloads_spec()[k] is None,
                                        ScopeResource::Userdata(w) => lua.valid_ud(w) && (
                                        self.payloads_spec()[k] is Some <==> !lua.ud_released(
                                            w,
                                        )),
                                    } by {
                                        match old(self).entries_spec()[k] {
                                            ScopeResource::Callback(f) => {
                                                assert(old(lua).valid_fn(f));
                                                assert(lua.fn_callback(f) == old(lua).fn_callback(f));
                                            },
                                            ScopeResource::Userdata(w) => {
                                                assert(old(lua).valid_ud(w));
                                                if k != i {
                                                    assert(old(self).entries_spec()[k] != old(self).entries_spec()[i as int]);
                                                    assert(w != ud);
                                                    assert(lua.ud_released(w) == old(lua).ud_released(w));
                                                }
                                            },
                                        }
                                    }
                                }
                                return Ok(p);
                            },
                            None => {
                                proof {
                                    assert(false);
                                }
                                return Err(Error::UserDataDestructed);
                            },
                        }
                    },
                    Err(e) => {
                        proof {
                            assert(old(self).entries_spec().contains(
                                ScopeResource::Userdata(ud),
                            ));
                            lemma_wf_in_preserved(*old(self), *old(lua), *lua);
                        }
                        return Err(e);
                    },
                }
            }
            i = i + 1;
        }
        proof {
            if old(self).entries_spec().contains(ScopeResource::Userdata(ud)) {
                let k = choose|k: int|
                    0 <= k < old(self).entries_spec().len() && old(self).entries_spec()[k]
                        == ScopeResource::Userdata(ud);
                assert(self.entries@[k] != ScopeResource::Userdata(ud));
                assert(false);
            }
        }
        Err(Error::UserDataTypeMismatch)
    }

    /// Ends the scope: every registered resource is invalidated and the
    /// recovered host payloads are handed back, in registration order.
    ///
    /// Teardown is two-phase across the whole registry: this call is
    /// phase one, severing every guest-side association — callbacks
    /// refuse further calls, opaque objects fail every access with the
    /// destroyed-resource error, per-instance metatable identities are
    /// deregistered — and returns with every payload still intact.
    /// Dropping the returned payloads is phase two, entirely on the
    /// caller's side: even if one of those drops aborts the process, no
    /// resource is guest-reachable by then.
    ///
    /// Only what this scope registered is touched: [`closing_invs`]
    /// carries the frame — foreign callbacks, objects and metatable
    /// identities keep their state.
    #[verifier::loop_isolation(false)]
    pub fn close(self, lua: &mut Lua) -> (out: Vec<U>)
        requires
            self.wf_in(*old(lua)),
            old(lua).wf(),
        ensures
            final(lua).wf(),
            out@ == recovered(self.payloads_spec()),
            closing_invs(
                self.entries_spec(),
                *old(lua),
                *final(lua),
                self.entries_spec().len() as int,
            ),
            old(lua).strings_tables_same(*final(lua)),
            final(lua).pool_len() == old(lua).pool_len(),
            final(lua).num_functions() == old(lua).num_functions(),
            final(lua).num_userdata() == old(lua).num_userdata(),
            final(lua).num_metatables() == old(lua).num_metatables(),
    {
        let Scope { entries, mut payloads } = self;
        proof {
            assert forall|i2: int, j2: int|
                0 <= i2 < j2 < entries@.len() implies (#[trigger] entries@[i2]) != (
            #[trigger] entries@[j2]) by {
                assert(self.entries_spec()[i2] != self.entries_spec()[j2]);
            }
            assert forall|k: int|
                0 <= k < entries@.len() implies match #[trigger] entries@[k] {
                ScopeResource::Callback(g) => old(lua).valid_fn(g),
                ScopeResource::Userdata(u2) => old(lua).valid_ud(u2),
            } by {
                assert(entries@[k] == self.entries_spec()[k]);
            }
        }
        let mut out: Vec<U> = Vec::new();
        let n = entries.len();
        let mut i: usize = 0;
        while i < n
            invariant
                n == entries@.len(),
                entries@ == self.entries_spec(),
                i <= n,
                payloads@.len() == n,
                lua.wf(),
                old(lua).strings_tables_same(*lua),
                lua.pool_len() == old(lua).pool_len(),
                lua.num_functions() == old(lua).num_functions(),
                lua.num_userdata() == old(lua).num_userdata(),
                lua.num_metatables() == old(lua).num_metatables(),
                out@ == recovered(self.payloads_spec().subrange(0, i as int)),
                forall|k: int| i <= k < n ==> payloads@[k] == self.payloads_spec()[k],
                closing_invs(entries@, *old(lua), *lua, i as int),
            decreases n - i,
        {
            let ghost pre = self.payloads_spec().subrange(0, i as int);
            let ghost pre1 = self.payloads_spec().subrange(0, i as int + 1);
            let ghost lprev: Lua = *lua;
            proof {
                assert(pre1 =~= pre.push(self.payloads_spec()[i as int]));
                lemma_recovered_push(pre, self.payloads_spec()[i as int]);
                assert(entries@.contains(entries@[i as int]));
            }
            match entries[i] {
                ScopeResource::Callback(f) => {
                    lua.release_function(f);
                    proof {
                        lemma_close_step_callback(
                            entries@,
                            *old(lua),
                            lprev,
                            *lua,
                            i as int,
                            f,
                        );
                    }
                },
                ScopeResource::Userdata(u) => {
                    let mut slot: Option<U> = None;
                    let dst = &mut payloads[i];
                    core::mem::swap(&mut slot, dst);
                    match slot {
                        Some(p) => {
                            lua.release_userdata(u);
                            out.push(p);
                            proof {
                                lemma_close_step_userdata(
                                    entries@,
                                    *old(lua),
                                    lprev,
                                    *lua,
                                    i as int,
                                    u,
                                );
                            }
                        },
                        None => {
                            // Already destroyed by an explicit early
                            // extraction; nothing to sever or recover.
                            proof {
                                assert(lua.ud_released(u));
                                lemma_close_step_skipped(
                                    entries@,
                                    *old(lua),
                                    *lua,
                                    i as int,
                                    u,
                                );
                            }
                        },
                    }
                },
            }
            proof {
                old(lua).lemma_strings_extend_trans(lprev, *lua);
                old(lua).lemma_tables_extend_trans(lprev, *lua);
            }
            i = i + 1;
        }
        proof {
            assert(self.payloads_spec().subrange(0, n as int) =~= self.payloads_spec());
        }
        out
    }
}

/// Scope invalidation law: once an opaque object's scope has ended (or
/// its payload was taken), any guest method dispatch presenting that
/// object as the receiver is refused with the destroyed-resource error —
/// it can never reach a host callback or the released data.
pub proof fn lemma_scope_invalidation(
    lua: Lua,
    target: AnyUserData,
    name: Seq<char>,
    args: Seq<Value>,
)
    requires
        lua.ud_released(target),
        args.len() > 0,
        args[0] == Value::UserData(target),
        ({
            let found = crate::runtime::find_method_idx(lua.ud_methods(target), name);
            found is Some && {
                let entry = lua.ud_methods(target)[found->Some_0];
                entry.kind == crate::runtime::MethodKind::Method || entry.kind
                    == crate::runtime::MethodKind::MethodMut
            }
        }),
    ensures
        lua.method_call_error(target, name, args) == Some(Error::UserDataDestructed),
{
}

/// Borrow conflict law: a mutable method re-entered while its own
/// exclusive access is still on the stack is refused with the
/// recursive-mutable-access error — never a deadlock and never a second
/// live exclusive borrow.
pub proof fn lemma_borrow_conflict(
    lua: Lua,
    target: AnyUserData,
    name: Seq<char>,
    args: Seq<Value>,
)
    requires
        !lua.ud_released(target),
        args.len() > 0,
        args[0] == Value::UserData(target),
        ({
            let found = crate::runtime::find_method_idx(lua.ud_methods(target), name);
            found is Some && {
                let entry = lua.ud_methods(target)[found->Some_0];
                entry.kind == crate::runtime::MethodKind::MethodMut && entry.busy
            }
        }),
    ensures
        lua.method_call_error(target, name, args) == Some(Error::RecursiveMutCallback),
{
}

} // verus!
