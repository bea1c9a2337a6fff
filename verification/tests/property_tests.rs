use terminal_cli::{
    new_property_min_max, validate_property_min_max, BufferTerminal, PropertyValidationError,
    ValueBool, ValueInput, ValueOutput, ValueOutputToString,
};

#[test]
fn test_property_set_get_roundtrip() {
    let mut p = new_property_min_max(b"num1", 5, 1, 100);

    assert_eq!(Ok(()), p.set(b"42"));
    let mut out = BufferTerminal::new();
    p.get(&mut out).unwrap();
    assert_eq!(b"num1 = 42\r\n".to_vec(), *out.bytes());
}

#[test]
fn test_property_set_below_min_keeps_value() {
    let mut p = new_property_min_max(b"num1", 5, 1, 100);
    assert_eq!(Err(PropertyValidationError::ValueTooSmall { min: 1, val: 0 }), p.set(b"0"));

    // the stored value did not move
    let mut out = BufferTerminal::new();
    p.get(&mut out).unwrap();
    assert_eq!(b"num1 = 5\r\n".to_vec(), *out.bytes());
}

#[test]
fn test_property_set_above_max() {
    let mut p = new_property_min_max(b"num1", 5, 1, 100);
    assert_eq!(Err(PropertyValidationError::ValueTooBig { max: 100, val: 101 }), p.set(b"101"));
}

#[test]
fn test_property_set_invalid_input() {
    let mut p = new_property_min_max(b"num1", 5, 1, 100);
    assert_eq!(Err(PropertyValidationError::InvalidInput), p.set(b"abc"));
    assert_eq!(Err(PropertyValidationError::InvalidInput), p.set(b""));
}

#[test]
fn test_min_max_parser() {
    let parser = validate_property_min_max(1, 100);
    assert_eq!(Ok(50), parser.input(b"50"));
    assert_eq!(Ok(1), parser.input(b"+1"));
    assert_eq!(Err(PropertyValidationError::ValueTooSmall { min: 1, val: 0 }), parser.input(b"0"));
    assert_eq!(
        Err(PropertyValidationError::ValueTooBig { max: 100, val: 400 }),
        parser.input(b"400")
    );
    assert_eq!(Err(PropertyValidationError::InvalidInput), parser.input(b"4x"));
}

#[test]
fn test_integer_output() {
    let out = ValueOutputToString;
    assert_eq!(Ok(b"0".to_vec()), out.output(&0));
    assert_eq!(Ok(b"1234".to_vec()), out.output(&1234));
    assert_eq!(Ok(b"-56".to_vec()), out.output(&-56));
    assert_eq!(Ok(b"9223372036854775807".to_vec()), out.output(&i64::MAX));
    assert_eq!(Ok(b"-9223372036854775808".to_vec()), out.output(&i64::MIN));
}

#[test]
fn test_integer_parse_bounds() {
    let parser = validate_property_min_max(i64::MIN, i64::MAX);
    assert_eq!(Ok(i64::MAX), parser.input(b"9223372036854775807"));
    assert_eq!(Ok(i64::MIN), parser.input(b"-9223372036854775808"));
    assert_eq!(Err(PropertyValidationError::InvalidInput), parser.input(b"9223372036854775808"));
    assert_eq!(Ok(1), parser.input(b"0000000000000000000000001"));
}

#[test]
fn test_bool_parser() {
    let b = ValueBool;
    assert_eq!(Ok(false), b.input(b"0"));
    assert_eq!(Ok(false), b.input(b"FALSE"));
    assert_eq!(Ok(false), b.input(b" off "));
    assert_eq!(Ok(false), b.input(b"No"));
    assert_eq!(Ok(true), b.input(b"1"));
    assert_eq!(Ok(true), b.input(b"True"));
    assert_eq!(Ok(true), b.input(b"ON"));
    assert_eq!(Ok(true), b.input(b"yes"));
    assert_eq!(Err(PropertyValidationError::InvalidInput), b.input(b"maybe"));
    assert_eq!(Ok(b"true".to_vec()), b.output(&true));
    assert_eq!(Ok(b"false".to_vec()), b.output(&false));
}
