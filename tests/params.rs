use jenkins_trigger::params::{parse_key_val, ParamError};

#[test]
fn splits_at_first_equals() {
    assert_eq!(
        parse_key_val("BRANCH=main"),
        Ok(("BRANCH".to_string(), "main".to_string()))
    );
}

#[test]
fn value_keeps_later_equals() {
    assert_eq!(
        parse_key_val("EXPR=a=b"),
        Ok(("EXPR".to_string(), "a=b".to_string()))
    );
}

#[test]
fn empty_key_and_value() {
    assert_eq!(parse_key_val("="), Ok((String::new(), String::new())));
    assert_eq!(parse_key_val("=x"), Ok((String::new(), "x".to_string())));
}

#[test]
fn non_ascii_item() {
    assert_eq!(
        parse_key_val("NAMÉ=größe"),
        Ok(("NAMÉ".to_string(), "größe".to_string()))
    );
}

#[test]
fn missing_equals_is_rejected() {
    let e = parse_key_val("novalue").unwrap_err();
    assert_eq!(e, ParamError { item: "novalue".to_string() });
    assert_eq!(e.message(), "Invalid KEY=value: no `=` found in `novalue`");
}
