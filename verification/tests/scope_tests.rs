//! Tests of the scope registry, the borrow discipline and the teardown
//! guarantees, driving the runtime the way an embedding host does: the
//! host keeps its callbacks and runs the one whose key a dispatch
//! operation hands back.
use luascope::error::Error;
use luascope::multi::{FromLuaMulti, IntoLuaMulti};
use luascope::multivalue::MultiValue;
use luascope::runtime::{EqOutcome, Lua, UserDataRegistry};
use luascope::scope::Scope;
use luascope::value::Value;

#[test]
fn end_to_end_add3() {
    let mut lua = Lua::new();
    let mut scope: Scope<i64> = Scope::new();
    // Host callback 0 is add3(a, b, c) = a + b + c.
    let add3 = scope.create_function(&mut lua, 0).unwrap();

    // Guest call add3(1, 2, 3).
    let key = lua.start_callback_call(add3).unwrap();
    assert_eq!(key, 0);
    let args = MultiValue::from_vec(vec![
        Value::Integer(1),
        Value::Integer(2),
        Value::Integer(3),
    ]);
    // The driver runs its closure: convert, compute, convert back.
    let (a, b, c): (i64, i64, i64) = FromLuaMulti::from_lua_multi(args, &mut lua).unwrap();
    let result = (a + b + c).into_lua_multi(&mut lua).unwrap();
    lua.finish_callback_call(add3);
    let out = result.into_vec();
    assert_eq!(out.len(), 1);
    assert!(out[0] == Value::Integer(6));

    // After the scope ends the callback is severed.
    let recovered = scope.close(&mut lua);
    assert_eq!(recovered.len(), 0);
    assert!(matches!(
        lua.start_callback_call(add3),
        Err(Error::CallbackDestructed)
    ));
}

#[test]
fn recursive_mutable_callback_refused() {
    let mut lua = Lua::new();
    let mut scope: Scope<i64> = Scope::new();
    let f = scope.create_function_mut(&mut lua, 1).unwrap();
    let key = lua.start_callback_call(f).unwrap();
    assert_eq!(key, 1);
    // Re-entering the same mutable callback while it is on the stack is
    // refused, never deadlocked.
    assert!(matches!(
        lua.start_callback_call(f),
        Err(Error::RecursiveMutCallback)
    ));
    lua.finish_callback_call(f);
    assert!(lua.start_callback_call(f).is_ok());
    lua.finish_callback_call(f);
    scope.close(&mut lua);
}

#[test]
fn counter_bump_scenario() {
    let mut lua = Lua::new();
    let mut scope: Scope<i64> = Scope::new();
    let mut reg = UserDataRegistry::new();
    // Host callback 7 is bump(), registered as an exclusive-borrow
    // method.
    reg.add_method_mut("bump".to_string(), 7);
    // counter = 0, exposed by mutable scope reference.
    let counter_obj = scope.create_userdata_ref_mut(&mut lua, 0i64, 101, reg).unwrap();
    let bump = "bump".to_string();
    // The driver mirrors the counter state its closure would capture.
    let mut counter: i64 = 0;

    for expected in 1..=2i64 {
        let mut args = MultiValue::from_vec(vec![Value::UserData(counter_obj)]);
        let key = lua.start_method_call(counter_obj, &bump, &mut args).unwrap();
        assert_eq!(key, 7);
        counter += 1;
        let ret = counter.into_lua_multi(&mut lua).unwrap();
        lua.finish_method_call(counter_obj, &bump);
        let out = ret.into_vec();
        assert!(out[0] == Value::Integer(expected));
    }

    // Scope exit: the lent payload comes back, and every later access
    // fails with the destroyed-resource error.
    let recovered = scope.close(&mut lua);
    assert_eq!(recovered, vec![0i64]);
    let mut args = MultiValue::from_vec(vec![Value::UserData(counter_obj)]);
    assert!(matches!(
        lua.start_method_call(counter_obj, &bump, &mut args),
        Err(Error::UserDataDestructed)
    ));
}

#[test]
fn scope_invalidation_after_close() {
    let mut lua = Lua::new();
    let mut scope: Scope<u32> = Scope::new();
    let mut reg = UserDataRegistry::new();
    reg.add_method("peek".to_string(), 3);
    let obj = scope.create_nonstatic_userdata(&mut lua, 11u32, reg).unwrap();
    let peek = "peek".to_string();

    // Live: a shared method call goes through.
    let mut args = MultiValue::from_vec(vec![Value::UserData(obj)]);
    assert_eq!(lua.start_method_call(obj, &peek, &mut args).unwrap(), 3);
    lua.finish_method_call(obj, &peek);

    let recovered = scope.close(&mut lua);
    assert_eq!(recovered, vec![11u32]);

    // Destroyed: the same call fails cleanly.
    let mut args = MultiValue::from_vec(vec![Value::UserData(obj)]);
    assert!(matches!(
        lua.start_method_call(obj, &peek, &mut args),
        Err(Error::UserDataDestructed)
    ));
}

#[test]
fn borrow_conflicts() {
    let mut lua = Lua::new();
    let mut scope: Scope<i64> = Scope::new();
    let mut reg = UserDataRegistry::new();
    reg.add_method("read".to_string(), 0);
    reg.add_method_mut("write".to_string(), 1);
    reg.add_method_mut("write2".to_string(), 2);
    let obj = scope.create_nonstatic_userdata(&mut lua, 5i64, reg).unwrap();
    let read = "read".to_string();
    let write = "write".to_string();
    let write2 = "write2".to_string();

    // Re-entering the same mutable method: recursive mutable access.
    let mut args = MultiValue::from_vec(vec![Value::UserData(obj)]);
    assert_eq!(lua.start_method_call(obj, &write, &mut args).unwrap(), 1);
    let mut args = MultiValue::from_vec(vec![Value::UserData(obj)]);
    assert!(matches!(
        lua.start_method_call(obj, &write, &mut args),
        Err(Error::RecursiveMutCallback)
    ));
    // A different mutable method trips over the active exclusive borrow.
    let mut args = MultiValue::from_vec(vec![Value::UserData(obj)]);
    assert!(matches!(
        lua.start_method_call(obj, &write2, &mut args),
        Err(Error::UserDataBorrowMutError)
    ));
    // A shared method is refused while the exclusive borrow is active.
    let mut args = MultiValue::from_vec(vec![Value::UserData(obj)]);
    assert!(matches!(
        lua.start_method_call(obj, &read, &mut args),
        Err(Error::UserDataBorrowError)
    ));
    lua.finish_method_call(obj, &write);
    // Shared borrows may overlap.
    let mut args = MultiValue::from_vec(vec![Value::UserData(obj)]);
    assert_eq!(lua.start_method_call(obj, &read, &mut args).unwrap(), 0);
    let mut args = MultiValue::from_vec(vec![Value::UserData(obj)]);
    assert_eq!(lua.start_method_call(obj, &read, &mut args).unwrap(), 0);
    lua.finish_method_call(obj, &read);
    lua.finish_method_call(obj, &read);
    scope.close(&mut lua);
}

#[test]
fn read_only_exposure_refuses_mutation() {
    let mut lua = Lua::new();
    let mut scope: Scope<i64> = Scope::new();
    let mut reg = UserDataRegistry::new();
    reg.add_method("read".to_string(), 0);
    reg.add_method_mut("write".to_string(), 1);
    let obj = scope.create_userdata_ref(&mut lua, 9i64, 55, reg).unwrap();
    let write = "write".to_string();
    let mut args = MultiValue::from_vec(vec![Value::UserData(obj)]);
    assert!(matches!(
        lua.start_method_call(obj, &write, &mut args),
        Err(Error::UserDataBorrowMutError)
    ));
    scope.close(&mut lua);
}

#[test]
fn identity_mismatch() {
    let mut lua = Lua::new();
    let mut scope: Scope<i64> = Scope::new();
    let mut reg_a = UserDataRegistry::new();
    reg_a.add_method("m".to_string(), 0);
    let a = scope.create_nonstatic_userdata(&mut lua, 1i64, reg_a).unwrap();
    let mut reg_b = UserDataRegistry::new();
    reg_b.add_method("m".to_string(), 1);
    let b = scope.create_nonstatic_userdata(&mut lua, 2i64, reg_b).unwrap();
    let m = "m".to_string();
    // Calling a's method with b as the receiver is an identity mismatch.
    let mut args = MultiValue::from_vec(vec![Value::UserData(b)]);
    assert!(matches!(
        lua.start_method_call(a, &m, &mut args),
        Err(Error::UserDataTypeMismatch)
    ));
    // And with no receiver at all.
    let mut args = MultiValue::new();
    assert!(matches!(
        lua.start_method_call(a, &m, &mut args),
        Err(Error::UserDataTypeMismatch)
    ));
    scope.close(&mut lua);
}

#[test]
fn early_take_and_teardown_skip() {
    let mut lua = Lua::new();
    let mut scope: Scope<i64> = Scope::new();
    let reg = UserDataRegistry::new();
    let obj = scope.create_nonstatic_userdata(&mut lua, 33i64, reg).unwrap();
    // Early extraction hands the payload back and severs the object.
    let payload = scope.take(&mut lua, obj).unwrap();
    assert_eq!(payload, 33);
    assert!(matches!(
        scope.take(&mut lua, obj),
        Err(Error::UserDataDestructed)
    ));
    // Teardown recovers nothing further.
    let recovered = scope.close(&mut lua);
    assert_eq!(recovered.len(), 0);
}

#[test]
fn take_refused_on_foreign_handle() {
    let mut lua = Lua::new();
    let mut scope_a: Scope<i64> = Scope::new();
    let mut scope_b: Scope<i64> = Scope::new();
    let obj = scope_a
        .create_nonstatic_userdata(&mut lua, 1i64, UserDataRegistry::new())
        .unwrap();
    // Another scope never registered this object, so it has nothing to
    // hand back.
    assert!(matches!(
        scope_b.take(&mut lua, obj),
        Err(Error::UserDataTypeMismatch)
    ));
    scope_a.close(&mut lua);
    scope_b.close(&mut lua);
}

#[test]
fn take_refused_on_lent_data() {
    let mut lua = Lua::new();
    let mut scope: Scope<i64> = Scope::new();
    let reg = UserDataRegistry::new();
    let obj = scope.create_userdata_ref(&mut lua, 4i64, 77, reg).unwrap();
    // Reference-backed cells support no early extraction.
    assert!(matches!(
        scope.take(&mut lua, obj),
        Err(Error::UserDataBorrowMutError)
    ));
    let recovered = scope.close(&mut lua);
    assert_eq!(recovered, vec![4i64]);
}

#[test]
fn teardown_recovers_in_registration_order() {
    let mut lua = Lua::new();
    let mut scope: Scope<i64> = Scope::new();
    let f = scope.create_function(&mut lua, 0).unwrap();
    let _a = scope
        .create_nonstatic_userdata(&mut lua, 10i64, UserDataRegistry::new())
        .unwrap();
    let _b = scope
        .create_nonstatic_userdata(&mut lua, 20i64, UserDataRegistry::new())
        .unwrap();
    let recovered = scope.close(&mut lua);
    assert_eq!(recovered, vec![10, 20]);
    assert!(matches!(
        lua.start_callback_call(f),
        Err(Error::CallbackDestructed)
    ));
}

#[test]
fn pool_hygiene() {
    let mut lua = Lua::new();
    // A previous call leaves values in a list before it goes back to the
    // pool.
    let mut mv = lua.new_multivalue_from_pool();
    mv.push_front(Value::Integer(42));
    mv.push_front(Value::Boolean(true));
    lua.return_multivalue_to_pool(mv);
    // Whatever the previous call pushed, a pooled list comes back empty.
    let mv2 = lua.new_multivalue_from_pool();
    assert_eq!(mv2.len(), 0);
    assert!(mv2.is_empty());
}

#[test]
fn meta_field_validation() {
    let mut lua = Lua::new();
    let mut scope: Scope<i64> = Scope::new();
    // A reserved protocol name is refused.
    let mut reg = UserDataRegistry::new();
    reg.add_meta_field("__gc".to_string(), Value::Nil);
    assert!(matches!(
        scope.create_nonstatic_userdata(&mut lua, 0i64, reg),
        Err(Error::MetaMethodRestricted(_))
    ));
    // The index entry must hold nil, a table or a function.
    let mut reg = UserDataRegistry::new();
    reg.add_meta_field("__index".to_string(), Value::Integer(1));
    assert!(matches!(
        scope.create_nonstatic_userdata(&mut lua, 0i64, reg),
        Err(Error::MetaMethodTypeError { .. })
    ));
    // A valid registration goes through.
    let mut reg = UserDataRegistry::new();
    reg.add_meta_field("__index".to_string(), Value::Nil);
    reg.add_meta_field("__name".to_string(), Value::Integer(1));
    assert!(scope.create_nonstatic_userdata(&mut lua, 0i64, reg).is_ok());
    scope.close(&mut lua);
}

#[test]
fn equality_hook_dispatch() {
    let mut lua = Lua::new();
    let mut scope: Scope<i64> = Scope::new();
    let mut reg = UserDataRegistry::new();
    // Host callback 9 is the custom equality hook.
    reg.add_meta_method("__eq".to_string(), 9);
    let x = scope.create_nonstatic_userdata(&mut lua, 1i64, reg).unwrap();
    let y = scope
        .create_nonstatic_userdata(&mut lua, 2i64, UserDataRegistry::new())
        .unwrap();
    let vx = Value::UserData(x);
    let vy = Value::UserData(y);
    // Identity decides without consulting any hook.
    assert!(matches!(
        vx.equals(&vx, &lua).unwrap(),
        EqOutcome::Decided(true)
    ));
    // Distinct objects consult the left operand's hook first.
    assert!(matches!(
        vx.equals(&vy, &lua).unwrap(),
        EqOutcome::Metamethod(9)
    ));
    assert!(matches!(
        vy.equals(&vx, &lua).unwrap(),
        EqOutcome::Metamethod(9)
    ));
    // Without any hook, distinct objects are unequal.
    let z = scope
        .create_nonstatic_userdata(&mut lua, 3i64, UserDataRegistry::new())
        .unwrap();
    assert!(matches!(
        Value::UserData(y).equals(&Value::UserData(z), &lua).unwrap(),
        EqOutcome::Decided(false)
    ));
    // Comparing a destroyed object is refused.
    scope.close(&mut lua);
    assert!(matches!(
        vx.equals(&vy, &lua),
        Err(Error::UserDataDestructed)
    ));
}

#[test]
fn typed_metatables_are_shared() {
    let mut lua = Lua::new();
    let mut scope: Scope<i64> = Scope::new();
    let mut reg1 = UserDataRegistry::new();
    reg1.add_method("m".to_string(), 0);
    let a = scope.create_userdata(&mut lua, 1i64, 42, reg1).unwrap();
    // The second instance of the same host type reuses the registered
    // metatable; its registry is not consulted again.
    let reg2 = UserDataRegistry::new();
    let b = scope.create_userdata(&mut lua, 2i64, 42, reg2).unwrap();
    let m = "m".to_string();
    let mut args = MultiValue::from_vec(vec![Value::UserData(b)]);
    assert_eq!(lua.start_method_call(b, &m, &mut args).unwrap(), 0);
    lua.finish_method_call(b, &m);
    let mut args = MultiValue::from_vec(vec![Value::UserData(a)]);
    assert_eq!(lua.start_method_call(a, &m, &mut args).unwrap(), 0);
    lua.finish_method_call(a, &m);
    scope.close(&mut lua);
}
