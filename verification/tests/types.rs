use syl::types::{IntegerType, IntegerValue, Value};

#[test]
fn test_integer_value_creation() {
    assert!(IntegerValue::from_string("10", IntegerType::I8).is_ok());
    assert!(IntegerValue::from_string("1000", IntegerType::I16).is_ok());
    assert!(IntegerValue::from_string("100000", IntegerType::I32).is_ok());
    assert!(IntegerValue::from_string("1000000000", IntegerType::I64).is_ok());
    assert!(IntegerValue::from_string("1000000000000000000", IntegerType::I128).is_ok());
    assert!(
        IntegerValue::from_string("1000000000000000000000000000000", IntegerType::BigInt).is_ok()
    );

    assert!(IntegerValue::from_string(i8::MIN.to_string().as_str(), IntegerType::I8).is_ok());
    assert!(IntegerValue::from_string(i8::MAX.to_string().as_str(), IntegerType::I8).is_ok());
    assert!(IntegerValue::from_string("128", IntegerType::I8).is_err());
    assert!(IntegerValue::from_string("-129", IntegerType::I8).is_err());
}

#[test]
fn test_integer_value_conversion() {
    let i8_val = IntegerValue::from_string("10", IntegerType::I8).unwrap();
    assert_eq!(i8_val.to_i16().unwrap(), 10);
    assert_eq!(i8_val.to_i32().unwrap(), 10);
    assert_eq!(i8_val.to_i64().unwrap(), 10);
    assert_eq!(i8_val.to_i128().unwrap(), 10);

    let i16_val = IntegerValue::from_string("1000", IntegerType::I16).unwrap();
    assert_eq!(i16_val.to_i32().unwrap(), 1000);
    assert_eq!(i16_val.to_i64().unwrap(), 1000);

    let i16_max =
        IntegerValue::from_string(i16::MAX.to_string().as_str(), IntegerType::I16).unwrap();
    assert!(i16_max.to_i8().is_err());
}

#[test]
fn test_integer_operations() {
    let a = IntegerValue::from_string("10", IntegerType::I8).unwrap();
    let b = IntegerValue::from_string("20", IntegerType::I8).unwrap();
    let result = a + b;
    assert!(result.is_ok());
    assert_eq!(result.unwrap().to_i8().unwrap(), 30);

    let a = IntegerValue::from_string("30", IntegerType::I8).unwrap();
    let b = IntegerValue::from_string("10", IntegerType::I8).unwrap();
    let result = a - b;
    assert!(result.is_ok());
    assert_eq!(result.unwrap().to_i8().unwrap(), 20);

    let a = IntegerValue::from_string("5", IntegerType::I8).unwrap();
    let b = IntegerValue::from_string("6", IntegerType::I8).unwrap();
    let result = a * b;
    assert!(result.is_ok());
    assert_eq!(result.unwrap().to_i8().unwrap(), 30);

    let a = IntegerValue::from_string("30", IntegerType::I8).unwrap();
    let b = IntegerValue::from_string("5", IntegerType::I8).unwrap();
    let result = a / b;
    assert!(result.is_ok());
    assert_eq!(result.unwrap().to_i8().unwrap(), 6);

    let a = IntegerValue::from_string("31", IntegerType::I8).unwrap();
    let b = IntegerValue::from_string("5", IntegerType::I8).unwrap();
    let result = a % b;
    assert!(result.is_ok());
    assert_eq!(result.unwrap().to_i8().unwrap(), 1);

    let a = IntegerValue::from_string(i8::MAX.to_string().as_str(), IntegerType::I8).unwrap();
    let b = IntegerValue::from_string("1", IntegerType::I8).unwrap();
    let result = a + b;
    assert!(result.is_err());
}

#[test]
fn test_bigint_operations() {
    let a = IntegerValue::from_string("1000000000000000000", IntegerType::BigInt).unwrap();
    let b = IntegerValue::from_string("2000000000000000000", IntegerType::BigInt).unwrap();
    let result = a + b;
    assert!(result.is_ok());
    assert_eq!(result.unwrap().to_bigint().to_string(), "3000000000000000000");
}

#[test]
fn test_mixed_type_operations() {
    let a = IntegerValue::from_string("10", IntegerType::I8).unwrap();
    let b = IntegerValue::from_string("20", IntegerType::I16).unwrap();
    let result = a + b;
    assert!(result.is_ok());
    let result_unwrap = result.unwrap();
    assert_eq!(result_unwrap.get_type(), IntegerType::I16);
    assert_eq!(result_unwrap.to_i16().unwrap(), 30);
}

fn num(s: &str, t: IntegerType) -> IntegerValue {
    IntegerValue::from_string(s, t).unwrap()
}

#[test]
fn addition_overflow_message() {
    let r = num("127", IntegerType::I8).add(num("1", IntegerType::I8));
    assert_eq!(r, Err("Addition overflow for i8: 127 + 1".to_string()));
    let r = num("-128", IntegerType::I8).sub(num("1", IntegerType::I8));
    assert_eq!(r, Err("Subtraction overflow for i8: -128 - 1".to_string()));
    let r = num("170141183460469231731687303715884105727", IntegerType::I128)
        .add(num("1", IntegerType::I8));
    assert_eq!(
        r,
        Err("Addition overflow for i128: 170141183460469231731687303715884105727 + 1".to_string())
    );
}

#[test]
fn multiplication_widens_to_bigint() {
    let r = num("1000000", IntegerType::I32).mul(num("1000000", IntegerType::I32)).unwrap();
    assert_eq!(r.get_type(), IntegerType::BigInt);
    assert_eq!(r.to_string(), "1000000000000");
    let r = num("100", IntegerType::I8).mul(num("-2", IntegerType::I8)).unwrap();
    assert_eq!(r.get_type(), IntegerType::BigInt);
    assert_eq!(r.to_string(), "-200");
    let r = num("-170141183460469231731687303715884105728", IntegerType::I128)
        .mul(num("-1", IntegerType::I8))
        .unwrap();
    assert_eq!(r.get_type(), IntegerType::BigInt);
    assert_eq!(r.to_string(), "170141183460469231731687303715884105728");
    let r = num("7", IntegerType::I8).mul(num("6", IntegerType::I64)).unwrap();
    assert_eq!(r, IntegerValue::I64(42));
}

#[test]
fn division_rounds_toward_zero() {
    let r = num("-7", IntegerType::I8).div(num("2", IntegerType::I8)).unwrap();
    assert_eq!(r, IntegerValue::I8(-3));
    let r = num("-7", IntegerType::I8).rem(num("2", IntegerType::I8)).unwrap();
    assert_eq!(r, IntegerValue::I8(-1));
    let r = num("7", IntegerType::I8).rem(num("-2", IntegerType::I8)).unwrap();
    assert_eq!(r, IntegerValue::I8(1));
    let r = num("-7", IntegerType::BigInt).div(num("2", IntegerType::I8)).unwrap();
    assert_eq!(r.to_string(), "-3");
    assert_eq!(r.get_type(), IntegerType::BigInt);
    let r = num("-7", IntegerType::BigInt).rem(num("2", IntegerType::BigInt)).unwrap();
    assert_eq!(r.to_string(), "-1");
    let r = num("7", IntegerType::BigInt).rem(num("-2", IntegerType::BigInt)).unwrap();
    assert_eq!(r.to_string(), "1");
    let r = num("7", IntegerType::BigInt).div(num("-2", IntegerType::BigInt)).unwrap();
    assert_eq!(r.to_string(), "-3");
}

#[test]
fn division_errors() {
    let r = num("1", IntegerType::I8).div(num("0", IntegerType::I8));
    assert_eq!(r, Err("Division by zero".to_string()));
    let r = num("1", IntegerType::I8).rem(num("0", IntegerType::I64));
    assert_eq!(r, Err("Modulo by zero".to_string()));
    let r = num("1", IntegerType::BigInt).div(num("0", IntegerType::I8));
    assert_eq!(r, Err("Division by zero".to_string()));
    let r = num("1", IntegerType::I8).rem(num("0", IntegerType::BigInt));
    assert_eq!(r, Err("Modulo by zero".to_string()));
    let r = num("-128", IntegerType::I8).div(num("-1", IntegerType::I8));
    assert_eq!(r, Err("Division overflow for i8: -128 / -1".to_string()));
    let r = num("-128", IntegerType::I8).rem(num("-1", IntegerType::I8));
    assert_eq!(r, Err("Modulo overflow for i8: -128 % -1".to_string()));
    let r = num("-128", IntegerType::I16).rem(num("-1", IntegerType::I8)).unwrap();
    assert_eq!(r, IntegerValue::I16(0));
}

#[test]
fn from_string_grammar() {
    assert_eq!(num("+5", IntegerType::I8), IntegerValue::I8(5));
    assert_eq!(num("-0", IntegerType::I8), IntegerValue::I8(0));
    assert_eq!(num("007", IntegerType::I16), IntegerValue::I16(7));
    assert_eq!(
        num("-170141183460469231731687303715884105728", IntegerType::I128),
        IntegerValue::I128(i128::MIN)
    );
    assert_eq!(
        IntegerValue::from_string("", IntegerType::I8),
        Err("Value  out of range for i8".to_string())
    );
    assert_eq!(
        IntegerValue::from_string("-", IntegerType::I32),
        Err("Value - out of range for i32".to_string())
    );
    assert_eq!(
        IntegerValue::from_string("1_0", IntegerType::I32),
        Err("Value 1_0 out of range for i32".to_string())
    );
    assert_eq!(
        IntegerValue::from_string("170141183460469231731687303715884105728", IntegerType::I128),
        Err("Value 170141183460469231731687303715884105728 out of range for i128".to_string())
    );
    assert_eq!(
        IntegerValue::from_string("12x", IntegerType::BigInt),
        Err("Invalid bigint value: 12x".to_string())
    );
    assert_eq!(num("1_000", IntegerType::BigInt).to_string(), "1000");
    assert_eq!(num("+12", IntegerType::BigInt).to_string(), "12");
    assert_eq!(num("-0", IntegerType::BigInt).to_string(), "0");
    assert_eq!(num("0012", IntegerType::BigInt).to_string(), "12");
    assert!(IntegerValue::from_string("_1", IntegerType::BigInt).is_err());
    assert!(IntegerValue::from_string("-+1", IntegerType::BigInt).is_err());
    assert!(IntegerValue::from_string("+", IntegerType::BigInt).is_err());
    assert!(IntegerValue::from_string("", IntegerType::BigInt).is_err());
}

#[test]
fn casts_and_comparisons() {
    let big = num("300", IntegerType::BigInt);
    assert_eq!(big.to_i16(), Ok(300));
    assert_eq!(big.to_i8(), Err("Value 300 out of range for i8".to_string()));
    assert_eq!(big.cast_to(&IntegerType::I32), Ok(IntegerValue::I32(300)));
    let huge = num("170141183460469231731687303715884105728", IntegerType::BigInt);
    assert_eq!(
        huge.to_i128(),
        Err("Value 170141183460469231731687303715884105728 out of range for i128".to_string())
    );
    assert!(num("5", IntegerType::I8).lt(&huge));
    assert!(huge.gt(&num("5", IntegerType::I64)));
    assert!(num("5", IntegerType::I8).le(&num("5", IntegerType::I64)));
    assert!(num("5", IntegerType::I8).ge(&num("5", IntegerType::BigInt)));
    assert!(!num("5", IntegerType::I8).same(&num("5", IntegerType::I64)));
    assert!(num("5", IntegerType::BigInt).same(&num("05", IntegerType::BigInt)));
    assert_eq!(
        IntegerValue::promote_type(&num("1", IntegerType::I64), &num("1", IntegerType::I16)),
        IntegerType::I64
    );
    assert!(Value::Integer(num("0", IntegerType::BigInt)).is_false());
    assert!(!Value::Integer(num("-1", IntegerType::I8)).is_false());
    assert_eq!(Value::Integer(num("-12", IntegerType::I8)).to_string(), "-12");
}

#[test]
fn operators_are_the_methods() {
    let a = num("10", IntegerType::I8);
    let b = num("20", IntegerType::I16);
    assert_eq!(a + b, Ok(IntegerValue::I16(30)));
    assert_eq!(num("10", IntegerType::I8) - num("20", IntegerType::I8), Ok(IntegerValue::I8(-10)));
    assert_eq!(num("10", IntegerType::I8) * num("20", IntegerType::I8).to_bigint(), {
        IntegerValue::from_string("200", IntegerType::BigInt)
    });
    assert_eq!(num("7", IntegerType::I8) / num("2", IntegerType::I8), Ok(IntegerValue::I8(3)));
    assert_eq!(num("7", IntegerType::I8) % num("2", IntegerType::I8), Ok(IntegerValue::I8(1)));
}

#[test]
fn the_order_is_that_of_the_integers() {
    assert!(num("5", IntegerType::I8) < num("6", IntegerType::I64));
    assert!(num("5", IntegerType::I8) <= num("5", IntegerType::BigInt));
    assert!(num("-5", IntegerType::BigInt) < num("-4", IntegerType::I8));
    assert!(num("170141183460469231731687303715884105728", IntegerType::BigInt)
        > num("170141183460469231731687303715884105727", IntegerType::I128));
    assert!(!(num("5", IntegerType::I8) < num("5", IntegerType::I16)));
    assert!(num("5", IntegerType::I8) >= num("5", IntegerType::I16));
    // Two values of different widths are not the same value.
    assert!(num("5", IntegerType::I8) != num("5", IntegerType::I16));
}

#[test]
fn big_subtraction_and_zero() {
    let a = num("100000000000000000000000000000000000000000", IntegerType::BigInt);
    let b = num("1", IntegerType::I8);
    let r = (a - b).unwrap();
    assert_eq!(r.to_string(), "99999999999999999999999999999999999999999");
    let r = (num("5", IntegerType::BigInt) - num("5", IntegerType::I128)).unwrap();
    assert!(r.is_zero());
    assert_eq!(r.get_type(), IntegerType::BigInt);
    assert!(!num("-1", IntegerType::BigInt).is_zero());
    assert_eq!(num("-7", IntegerType::I64).to_bigint().to_string(), "-7");
}

#[test]
fn bigint_numerals() {
    let big = |s: &str| IntegerValue::from_string(s, IntegerType::BigInt).map(|v| v.to_string());
    let bad = |s: &str| Err(format!("Invalid bigint value: {}", s));
    assert_eq!(big("1_"), Ok("1".to_string()));
    assert_eq!(big("1__2"), Ok("12".to_string()));
    assert_eq!(big("-1_0"), Ok("-10".to_string()));
    assert_eq!(big("+0_0"), Ok("0".to_string()));
    assert_eq!(big("-000"), Ok("0".to_string()));
    for s in ["_1", "-_1", "+_1", "--1", "+-1", "-+1", "++1", "-", "+", "", " 1", "1 ", "0x10", "1e5", "٣", "1.0", "a", "-a", "1-"] {
        assert_eq!(big(s), bad(s), "{:?}", s);
    }
    let small = |s: &str| IntegerValue::from_string(s, IntegerType::I32).map(|v| v.to_string());
    for s in ["_1", "1_", "--1", "+-1", "-", "+", "", " 1", "1 ", "0x10", "٣", "2147483648", "-2147483649"] {
        assert_eq!(small(s), Err(format!("Value {} out of range for i32", s)), "{:?}", s);
    }
    assert_eq!(small("-2147483648"), Ok("-2147483648".to_string()));
    assert_eq!(small("+2147483647"), Ok("2147483647".to_string()));
    assert_eq!(small("-0000"), Ok("0".to_string()));
    // What the machine integers of the standard library read, this reads.
    for s in ["12", "+12", "-12", "", "-", "1_0", "128", "-129", "0127", "-0"] {
        assert_eq!(
            IntegerValue::from_string(s, IntegerType::I8).ok(),
            s.parse::<i8>().ok().map(IntegerValue::I8),
            "{:?}",
            s
        );
    }
}
