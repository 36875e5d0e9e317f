use confql::values::DataValue;
use confql::values::{get_sub_value_at_address, take_sub_value_at_address};
use confql::DataResolverError;

fn s(x: &str) -> String {
    x.to_string()
}

fn parse(text: &str) -> DataValue {
    confql::yaml::parse_document(text).unwrap()
}

#[test]
fn yaml_parses() {
    let v = parse("my:\n  yaml:\n    is:\n    - hella\n    - deep\n");
    match v {
        DataValue::Mapping(_) => {}
        other => panic!("expected a mapping, got {:?}", other),
    }
}

#[test]
fn values_gets_value_from_file() {
    let v = parse("ok: true\ngo: home\n");
    assert_eq!(
        v,
        DataValue::Mapping(vec![
            (s("ok"), DataValue::Bool(true)),
            (s("go"), DataValue::Text(s("home"))),
        ])
    );
}

#[test]
fn parse_failure_is_parse_error() {
    let e = confql::yaml::parse_document("a: [1").unwrap_err();
    assert_eq!(e, DataResolverError::ParseError);
}

#[test]
fn takes_sub_value_at_address() {
    let mut value = parse("my:\n  yaml:\n    is:\n    - hella\n    - deep\n");

    let taken = take_sub_value_at_address(&mut value, &vec![s("my"), s("yaml")]).unwrap();

    assert_eq!(taken, parse("is:\n- hella\n- deep\n"));
    assert_eq!(value, parse("my:\n  yaml:\n"));
}

#[test]
fn take_sub_value_missing_key() {
    let mut value = parse("my:\n  yaml: 1\n");
    let e = take_sub_value_at_address(&mut value, &vec![s("my"), s("nope")]).unwrap_err();
    assert_eq!(e, DataResolverError::KeyNotFound(s("nope")));
    // The value is untouched on failure.
    assert_eq!(value, parse("my:\n  yaml: 1\n"));
}

#[test]
fn take_sub_value_through_non_mapping() {
    let mut value = parse("my: 3\n");
    let e = take_sub_value_at_address(&mut value, &vec![s("my"), s("deeper")]).unwrap_err();
    assert_eq!(e, DataResolverError::KeyNotFound(s("deeper")));
}

#[test]
fn gets_sub_value_at_address() {
    let value = parse("my:\n  yaml:\n    is:\n    - hella\n    - deep\n");

    let sub = get_sub_value_at_address(&value, &vec![s("my"), s("yaml"), s("is")]).unwrap();

    assert_eq!(
        *sub,
        DataValue::Sequence(vec![DataValue::Text(s("hella")), DataValue::Text(s("deep"))])
    );
}

#[test]
fn gets_whole_value_at_empty_address() {
    let value = parse("a: 1\n");
    let sub = get_sub_value_at_address(&value, &vec![]).unwrap();
    assert_eq!(*sub, parse("a: 1\n"));
}

#[test]
fn number_keeps_textual_form() {
    assert_eq!(parse("1.1"), DataValue::Number(s("1.1")));
    assert_eq!(parse("3"), DataValue::Number(s("3")));
    assert_eq!(parse("true"), DataValue::Bool(true));
    assert_eq!(parse("home"), DataValue::Text(s("home")));
    assert_eq!(parse("null"), DataValue::Null);
}
