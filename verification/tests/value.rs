use typy::value::Value;

#[test]
fn value_arithmetic() {
    assert_eq!(Value::Int(2).add(&Value::Int(3)), Ok(Value::Int(5)));
    assert_eq!(Value::Int(2).sub(&Value::Int(3)), Ok(Value::Int(-1)));
    assert_eq!(Value::Int(-4).mul(&Value::Int(3)), Ok(Value::Int(-12)));
    assert_eq!(Value::Int(-9).div(&Value::Int(2)), Ok(Value::Int(-4)));
    assert_eq!(Value::Int(9).div(&Value::Int(0)), Err("ZeroDivisionError: division by zero".to_string()));
}

#[test]
fn value_accessors() {
    assert_eq!(Value::Int(7).as_int(), Ok(7));
    assert_eq!(Value::Int(7).type_label(), "int");
    assert_eq!(Value::Int(-120).display_text(), "-120");
    assert_eq!(Value::Int(i64::MIN).display_text(), "-9223372036854775808");
}
