//! Tests of the value model and the conversion protocol.
use luascope::conversion::{FromLua, IntoLua};
use luascope::error::Error;
use luascope::multi::{FromLuaMulti, IntoLuaMulti, Variadic};
use luascope::multivalue::MultiValue;
use luascope::runtime::Lua;
use luascope::value::{LightUserData, Value};
use luascope::numbits::{nb_eq_exec, nb_eq_int_exec, nb_trunc_i64};

#[test]
fn round_trip_bool() {
    let mut lua = Lua::new();
    let v = true.into_lua(&mut lua).unwrap();
    assert!(v == Value::Boolean(true));
    let back = bool::from_lua(v, &mut lua).unwrap();
    assert!(back);
    let v2 = false.into_lua(&mut lua).unwrap();
    let back2 = bool::from_lua(v2, &mut lua).unwrap();
    assert!(!back2);
}

#[test]
fn round_trip_integer() {
    let mut lua = Lua::new();
    let v = 42i64.into_lua(&mut lua).unwrap();
    assert!(v == Value::Integer(42));
    let back = i64::from_lua(v, &mut lua).unwrap();
    assert_eq!(back, 42);
    let v2 = (-7i32).into_lua(&mut lua).unwrap();
    let back2 = i32::from_lua(v2, &mut lua).unwrap();
    assert_eq!(back2, -7);
}

#[test]
fn round_trip_string() {
    let mut lua = Lua::new();
    let v = "hello".to_string().into_lua(&mut lua).unwrap();
    let back = String::from_lua(v.clone(), &mut lua).unwrap();
    assert_eq!(back, "hello".to_string());
    // Interning: converting the same text twice gives the same handle.
    let v2 = "hello".to_string().into_lua(&mut lua).unwrap();
    assert!(v == v2);
}

#[test]
fn truthiness() {
    let mut lua = Lua::new();
    // Only nil and false are falsy.
    assert!(!bool::from_lua(Value::Nil, &mut lua).unwrap());
    assert!(!bool::from_lua(Value::Boolean(false), &mut lua).unwrap());
    // Integer zero, number zero and the empty string are all truthy.
    assert!(bool::from_lua(Value::Integer(0), &mut lua).unwrap());
    assert!(bool::from_lua(Value::Number((0.0f64).to_bits()), &mut lua).unwrap());
    let empty = "".to_string().into_lua(&mut lua).unwrap();
    assert!(bool::from_lua(empty, &mut lua).unwrap());
    assert!(bool::from_lua(Value::Boolean(true), &mut lua).unwrap());
}

#[test]
fn numeric_coercion() {
    let mut lua = Lua::new();
    // A number with an integral value narrows to integer targets.
    let v = Value::Number((3.0f64).to_bits());
    assert_eq!(i64::from_lua(v, &mut lua).unwrap(), 3);
    // Truncation toward zero, as the checked numeric cast does.
    let v = Value::Number((2.9f64).to_bits());
    assert_eq!(i64::from_lua(v, &mut lua).unwrap(), 2);
    let v = Value::Number((-2.9f64).to_bits());
    assert_eq!(i64::from_lua(v, &mut lua).unwrap(), -2);
    // Not-a-number is out of range.
    let v = Value::Number(f64::NAN.to_bits());
    assert!(matches!(
        i64::from_lua(v, &mut lua),
        Err(Error::FromLuaConversionError { .. })
    ));
    // Text coercion accepts a decimal integer.
    let v = "123".to_string().into_lua(&mut lua).unwrap();
    assert_eq!(i64::from_lua(v, &mut lua).unwrap(), 123);
    let v = "-9".to_string().into_lua(&mut lua).unwrap();
    assert_eq!(i64::from_lua(v, &mut lua).unwrap(), -9);
    let v = "nope".to_string().into_lua(&mut lua).unwrap();
    assert!(i64::from_lua(v, &mut lua).is_err());
}

#[test]
fn narrowing_out_of_range() {
    let mut lua = Lua::new();
    let v = Value::Integer(300);
    assert!(matches!(
        u8::from_lua(v, &mut lua),
        Err(Error::FromLuaConversionError { .. })
    ));
    let v = Value::Integer(200);
    assert_eq!(u8::from_lua(v, &mut lua).unwrap(), 200u8);
    let v = Value::Integer(-1);
    assert!(u32::from_lua(v, &mut lua).is_err());
    // Widening a huge host value is refused, not rounded.
    assert!(matches!(
        u64::MAX.into_lua(&mut lua),
        Err(Error::ToLuaConversionError { .. })
    ));
}

#[test]
fn string_coercion_of_numbers() {
    let mut lua = Lua::new();
    let s = String::from_lua(Value::Integer(-42), &mut lua).unwrap();
    assert_eq!(s, "-42".to_string());
    let s = String::from_lua(Value::Number((5.0f64).to_bits()), &mut lua).unwrap();
    assert_eq!(s, "5.0".to_string());
    assert!(String::from_lua(Value::Nil, &mut lua).is_err());
}

#[test]
fn light_userdata_round_trip() {
    let mut lua = Lua::new();
    let v = LightUserData(0xdead).into_lua(&mut lua).unwrap();
    let back = LightUserData::from_lua(v, &mut lua).unwrap();
    assert!(back == LightUserData(0xdead));
    assert!(LightUserData::from_lua(Value::Integer(1), &mut lua).is_err());
}

#[test]
fn identity_pointers() {
    let mut lua = Lua::new();
    let a = "a".to_string().into_lua(&mut lua).unwrap();
    let b = "b".to_string().into_lua(&mut lua).unwrap();
    assert!(a.to_pointer() != b.to_pointer());
    assert_eq!(Value::Integer(3).to_pointer(), 0);
    assert_eq!(Value::LightUserData(LightUserData(77)).to_pointer(), 77);
}

#[test]
fn kind_names() {
    assert_eq!(Value::Nil.kind_name(), "nil");
    assert_eq!(Value::Integer(1).kind_name(), "integer");
    assert_eq!(Value::Number(0).kind_name(), "number");
    assert_eq!(Value::Boolean(true).kind_name(), "boolean");
}

#[test]
fn value_equality() {
    // Exact numeric unification between integers and numbers.
    assert!(Value::Integer(3) == Value::Number((3.0f64).to_bits()));
    assert!(Value::Integer(3) != Value::Number((3.5f64).to_bits()));
    // The two zeros are equal; not-a-number equals nothing, itself
    // included.
    assert!(Value::Number((0.0f64).to_bits()) == Value::Number((-0.0f64).to_bits()));
    let nan = Value::Number(f64::NAN.to_bits());
    assert!(nan != nan.clone());
    // No string/number coercion in equality.
    let mut lua = Lua::new();
    let three = "3".to_string().into_lua(&mut lua).unwrap();
    assert!(three != Value::Integer(3));
}

#[test]
fn result_encoding() {
    let mut lua = Lua::new();
    let ok: Result<i64, i64> = Ok(5);
    let mv = ok.into_lua_multi(&mut lua).unwrap();
    let vs = mv.into_vec();
    assert_eq!(vs.len(), 1);
    assert!(vs[0] == Value::Integer(5));

    let err: Result<i64, i64> = Err(7);
    let mv = err.into_lua_multi(&mut lua).unwrap();
    let vs = mv.into_vec();
    assert_eq!(vs.len(), 2);
    assert!(vs[0] == Value::Nil);
    assert!(vs[1] == Value::Integer(7));
}

#[test]
fn tuple_threading() {
    let mut lua = Lua::new();
    let mv = MultiValue::from_vec(vec![
        Value::Integer(1),
        Value::Integer(2),
        Value::Integer(3),
        Value::Integer(4),
        Value::Integer(5),
    ]);
    let (a, b, rest): (i64, i64, Variadic<i64>) =
        FromLuaMulti::from_lua_multi(mv, &mut lua).unwrap();
    assert_eq!(a, 1);
    assert_eq!(b, 2);
    assert_eq!(rest.into_vec(), vec![3, 4, 5]);
}

#[test]
fn tuple_threading_missing_trailing() {
    let mut lua = Lua::new();
    let mv = MultiValue::new();
    // Missing elements become nil; optional targets absorb them.
    let (a, b, rest): (Option<i64>, Option<i64>, Variadic<i64>) =
        FromLuaMulti::from_lua_multi(mv, &mut lua).unwrap();
    assert!(a.is_none());
    assert!(b.is_none());
    assert_eq!(rest.len(), 0);
}

#[test]
fn multivalue_front_order() {
    let mut mv = MultiValue::new();
    mv.push_front(Value::Integer(2));
    mv.push_front(Value::Integer(1));
    assert_eq!(mv.len(), 2);
    assert!(mv.get(0).unwrap() == &Value::Integer(1));
    assert!(mv.get(1).unwrap() == &Value::Integer(2));
    assert!(mv.pop_front().unwrap() == Value::Integer(1));
    assert!(mv.pop_front().unwrap() == Value::Integer(2));
    assert!(mv.pop_front().is_none());
}

#[test]
fn multivalue_refill_reports_first_error() {
    let mut mv = MultiValue::from_vec(vec![Value::Integer(9)]);
    let r = mv.refill(vec![
        Ok(Value::Integer(1)),
        Err(Error::RecursiveMutCallback),
        Err(Error::UserDataTypeMismatch),
    ]);
    assert!(matches!(r, Err(Error::RecursiveMutCallback)));
    assert_eq!(mv.len(), 0);
    let mut mv = MultiValue::new();
    mv.refill(vec![Ok(Value::Integer(1)), Ok(Value::Integer(2))]).unwrap();
    assert_eq!(mv.into_vec(), vec![Value::Integer(1), Value::Integer(2)]);
}

#[test]
fn error_value_round_trip() {
    let mut lua = Lua::new();
    let v = Error::RecursiveMutCallback.into_lua(&mut lua).unwrap();
    let back = Error::from_lua(v, &mut lua).unwrap();
    assert!(matches!(back, Error::RecursiveMutCallback));
    // Any other value becomes a runtime error carrying its text.
    let e = Error::from_lua(Value::Integer(3), &mut lua).unwrap();
    assert!(matches!(e, Error::RuntimeError(s) if s == "3"));
}

#[test]
fn text_of_integers() {
    assert_eq!(luascope::text::format_i64(0), b"0".to_vec());
    assert_eq!(luascope::text::format_i64(-120), b"-120".to_vec());
    assert_eq!(luascope::text::format_i64(i64::MIN), b"-9223372036854775808".to_vec());
    assert_eq!(luascope::text::parse_i64(&b"123".to_vec()), Some(123));
    assert_eq!(luascope::text::parse_i64(&b"+9".to_vec()), Some(9));
    assert_eq!(luascope::text::parse_i64(&b"-9223372036854775808".to_vec()), Some(i64::MIN));
    assert_eq!(luascope::text::parse_i64(&b"9223372036854775808".to_vec()), None);
    assert_eq!(luascope::text::parse_i64(&b"".to_vec()), None);
    assert_eq!(luascope::text::parse_i64(&b"1x".to_vec()), None);
}

#[test]
fn number_bits_equality() {
    assert!(nb_eq_exec((0.0f64).to_bits(), (-0.0f64).to_bits()));
    assert!(!nb_eq_exec(f64::NAN.to_bits(), f64::NAN.to_bits()));
    assert!(nb_eq_exec((1.5f64).to_bits(), (1.5f64).to_bits()));
    assert!(nb_eq_int_exec((9.0f64).to_bits(), 9));
    assert!(!nb_eq_int_exec((9.5f64).to_bits(), 9));
    assert!(nb_eq_int_exec((-9007199254740992.0f64).to_bits(), -9007199254740992));
    assert_eq!(nb_trunc_i64((1.9f64).to_bits()), Some(1));
    assert_eq!(nb_trunc_i64((-1.9f64).to_bits()), Some(-1));
    assert_eq!(nb_trunc_i64(f64::INFINITY.to_bits()), None);
    assert_eq!(nb_trunc_i64((1e300f64).to_bits()), None);
    assert_eq!(nb_trunc_i64((0.25f64).to_bits()), Some(0));
}

#[test]
fn vector_table_round_trip() {
    let mut lua = Lua::new();
    let v = vec![10i64, 20, 30].into_lua(&mut lua).unwrap();
    assert!(matches!(v, Value::Table(_)));
    let back: Vec<i64> = Vec::from_lua(v, &mut lua).unwrap();
    assert_eq!(back, vec![10, 20, 30]);
    // Only tables convert to vectors.
    assert!(matches!(
        <Vec<i64>>::from_lua(Value::Integer(1), &mut lua),
        Err(Error::FromLuaConversionError { .. })
    ));
    // An element that cannot convert fails the whole conversion.
    let v = vec![Value::Integer(1), Value::Boolean(true)].into_lua(&mut lua).unwrap();
    assert!(<Vec<i64>>::from_lua(v, &mut lua).is_err());
}

#[test]
fn byte_string_conversion() {
    let mut lua = Lua::new();
    let b = bstr::BString::from(vec![0xffu8, 0x00, 0x41]);
    let v = b.into_lua(&mut lua).unwrap();
    // Guest strings are byte strings: invalid UTF-8 passes through
    // unchanged.
    let back = bstr::BString::from_lua(v.clone(), &mut lua).unwrap();
    assert_eq!(Vec::from(back), vec![0xffu8, 0x00, 0x41]);
    // But the UTF-8 host text target refuses those bytes.
    assert!(String::from_lua(v, &mut lua).is_err());
}

#[test]
fn c_string_bytes() {
    let mut lua = Lua::new();
    let v = "abc".to_string().into_lua(&mut lua).unwrap();
    let out = luascope::bytes::from_lua_c_string(v, &lua).unwrap();
    assert_eq!(out, b"abc\0".to_vec());
    // Interior nul is refused.
    let b = bstr::BString::from(vec![0x61u8, 0x00, 0x62]);
    let v = b.into_lua(&mut lua).unwrap();
    assert!(matches!(
        luascope::bytes::from_lua_c_string(v, &lua),
        Err(Error::FromLuaConversionError { .. })
    ));
    // Numbers coerce to their textual form first.
    let out = luascope::bytes::from_lua_c_string(Value::Integer(7), &lua).unwrap();
    assert_eq!(out, b"7\0".to_vec());
}

#[test]
fn bad_argument_wrapping() {
    let mut lua = Lua::new();
    let r = i64::from_lua_arg(Value::Boolean(true), 2, Some("add3"), &mut lua);
    match r {
        Err(Error::BadArgument { to, pos, name, cause }) => {
            assert_eq!(to, Some("add3".to_string()));
            assert_eq!(pos, 2);
            assert!(name.is_none());
            assert!(matches!(*cause, Error::FromLuaConversionError { .. }));
        }
        other => panic!("expected an argument-position failure, got {:?}", other),
    }
    // A convertible argument passes through unwrapped.
    assert_eq!(i64::from_lua_arg(Value::Integer(4), 1, None, &mut lua).unwrap(), 4);
    // The whole-list variant converts like the plain one.
    let mv = MultiValue::from_vec(vec![Value::Integer(8)]);
    let got: i64 = FromLuaMulti::from_lua_multi_args(mv, 1, Some("f"), &mut lua).unwrap();
    assert_eq!(got, 8);
    // Each error variant carries a stable diagnostic tag.
    assert_eq!(Error::RecursiveMutCallback.tag(), "recursive mutable access");
    assert_eq!(Error::UserDataDestructed.tag(), "value already destroyed");
}

#[test]
fn set_reading_asymmetry() {
    let mut lua = Lua::new();
    // A table that is a sequence decodes into a set through its values.
    let t = match vec![10i64, 20, 30].into_lua(&mut lua).unwrap() {
        Value::Table(t) => t,
        _ => unreachable!(),
    };
    let elems = lua.table_set_elements(t);
    assert_eq!(
        elems,
        vec![Value::Integer(10), Value::Integer(20), Value::Integer(30)]
    );
    // A table with only an associative part decodes through its keys,
    // not through the truthy values that carry them.
    let t = lua.create_table_with_entries(vec![
        (Value::Integer(7), Value::Boolean(true)),
        (Value::Integer(9), Value::Boolean(true)),
    ]);
    let elems = lua.table_set_elements(t);
    assert_eq!(elems, vec![Value::Integer(7), Value::Integer(9)]);
}

#[test]
fn table_entry_listing() {
    let mut lua = Lua::new();
    let t = match vec![5i64, 6].into_lua(&mut lua).unwrap() {
        Value::Table(t) => t,
        _ => unreachable!(),
    };
    // The sequence part appears under its one-based integer keys.
    let entries = lua.table_entries(t);
    assert_eq!(
        entries,
        vec![
            (Value::Integer(1), Value::Integer(5)),
            (Value::Integer(2), Value::Integer(6)),
        ]
    );
}

#[test]
fn wider_integer_targets() {
    let mut lua = Lua::new();
    let v = 7isize.into_lua(&mut lua).unwrap();
    assert_eq!(isize::from_lua(v, &mut lua).unwrap(), 7isize);
    let v = 5i128.into_lua(&mut lua).unwrap();
    assert_eq!(i128::from_lua(v, &mut lua).unwrap(), 5i128);
    let v = 5u128.into_lua(&mut lua).unwrap();
    assert_eq!(u128::from_lua(v, &mut lua).unwrap(), 5u128);
    // Values outside the guest integer range are refused, not rounded.
    assert!(matches!(
        (i128::MAX).into_lua(&mut lua),
        Err(Error::ToLuaConversionError { .. })
    ));
    assert!(matches!(
        (u128::MAX).into_lua(&mut lua),
        Err(Error::ToLuaConversionError { .. })
    ));
    assert!(u128::from_lua(Value::Integer(-1), &mut lua).is_err());
    let v = "text".into_lua(&mut lua).unwrap();
    assert_eq!(String::from_lua(v, &mut lua).unwrap(), "text".to_string());
}

#[test]
fn tuple_return_values() {
    let mut lua = Lua::new();
    // A host callback returning a pair yields two guest values.
    let mv = (1i64, true).into_lua_multi(&mut lua).unwrap();
    let vs = mv.into_vec();
    assert_eq!(vs.len(), 2);
    assert!(vs[0] == Value::Integer(1));
    assert!(vs[1] == Value::Boolean(true));
    // A triple whose trailing element is itself multi-valued flattens.
    let mv = (1i64, 2i64, Variadic::from_vec(vec![3i64, 4])).into_lua_multi(&mut lua).unwrap();
    let vs = mv.into_vec();
    assert_eq!(vs.len(), 4);
    assert!(vs[2] == Value::Integer(3));
    assert!(vs[3] == Value::Integer(4));
}

#[test]
fn argument_positions_in_tuples() {
    let mut lua = Lua::new();
    // The second argument fails; the failure carries position two.
    let mv = MultiValue::from_vec(vec![Value::Integer(1), Value::Boolean(true)]);
    let r: Result<(i64, i64), Error> =
        FromLuaMulti::from_lua_multi_args(mv, 1, Some("add3"), &mut lua);
    match r {
        Err(Error::BadArgument { pos, cause, .. }) => {
            assert_eq!(pos, 2);
            assert!(matches!(*cause, Error::FromLuaConversionError { .. }));
        }
        other => panic!("expected an argument-position failure, got {:?}", other),
    }
}

#[test]
fn table_equality_hooks() {
    let mut lua = Lua::new();
    let ta = lua.create_table();
    let tb = lua.create_table();
    let va = Value::Table(ta);
    let vb = Value::Table(tb);
    // Identity decides; without hooks distinct tables are unequal.
    assert!(matches!(
        va.equals(&va, &lua).unwrap(),
        luascope::runtime::EqOutcome::Decided(true)
    ));
    assert!(matches!(
        va.equals(&vb, &lua).unwrap(),
        luascope::runtime::EqOutcome::Decided(false)
    ));
    // With a hook on the right operand, the hook decides (left operand
    // consulted first).
    lua.set_table_eq_hook(tb, 12);
    assert!(matches!(
        va.equals(&vb, &lua).unwrap(),
        luascope::runtime::EqOutcome::Metamethod(12)
    ));
    lua.set_table_eq_hook(ta, 11);
    assert!(matches!(
        va.equals(&vb, &lua).unwrap(),
        luascope::runtime::EqOutcome::Metamethod(11)
    ));
}

#[test]
fn set_encoding_entries() {
    let mut lua = Lua::new();
    // A set crosses the boundary as element-to-true entries.
    let entries = luascope::runtime::set_entries(vec![
        Value::Integer(7),
        Value::Integer(9),
    ]);
    assert_eq!(
        entries,
        vec![
            (Value::Integer(7), Value::Boolean(true)),
            (Value::Integer(9), Value::Boolean(true)),
        ]
    );
    let t = lua.create_table_with_entries(entries);
    // Read back through the sequence-first policy: no sequence part, so
    // the keys come out.
    assert_eq!(
        lua.table_set_elements(t),
        vec![Value::Integer(7), Value::Integer(9)]
    );
}
