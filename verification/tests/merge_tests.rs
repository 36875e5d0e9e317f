use confql::values::DataValue;
use confql::DataResolverError;

fn s(x: &str) -> String {
    x.to_string()
}

fn num(x: &str) -> DataValue {
    DataValue::Number(s(x))
}

fn text(x: &str) -> DataValue {
    DataValue::Text(s(x))
}

fn parse(text: &str) -> DataValue {
    confql::yaml::parse_document(text).unwrap()
}

#[test]
fn merge_null_is_identity() {
    // Merging Null in either direction leaves the value as it was.
    let samples = vec![
        DataValue::Null,
        DataValue::Bool(true),
        num("3"),
        text("hi"),
        DataValue::Sequence(vec![num("1"), text("x")]),
        DataValue::Mapping(vec![(s("a"), num("1"))]),
    ];
    for sample in samples {
        let mut v = clone_of(&sample);
        v.merge(DataValue::Null).unwrap();
        assert_eq!(v, sample);

        let mut n = DataValue::Null;
        n.merge(clone_of(&sample)).unwrap();
        assert_eq!(n, sample);
    }
}

fn clone_of(v: &DataValue) -> DataValue {
    v.clone()
}

#[test]
fn merge_scalar_override() {
    let mut b = DataValue::Bool(true);
    b.merge(DataValue::Bool(false)).unwrap();
    assert_eq!(b, DataValue::Bool(false));

    let mut n = num("1");
    n.merge(num("2")).unwrap();
    assert_eq!(n, num("2"));

    let mut t = text("old");
    t.merge(text("new")).unwrap();
    assert_eq!(t, text("new"));
}

#[test]
fn merge_sequence_concatenates() {
    let mut v = DataValue::Sequence(vec![num("1")]);
    v.merge(DataValue::Sequence(vec![num("2")])).unwrap();
    assert_eq!(v, DataValue::Sequence(vec![num("1"), num("2")]));
}

#[test]
fn merge_mapping_deep() {
    // merge({a:1, b:{c:1}}, {b:{d:2}, e:3}) == {a:1, b:{c:1, d:2}, e:3}
    let mut dst = parse("a: 1\nb:\n  c: 1\n");
    let src = parse("b:\n  d: 2\ne: 3\n");
    dst.merge(src).unwrap();
    assert_eq!(dst, parse("a: 1\nb:\n  c: 1\n  d: 2\ne: 3\n"));
}

#[test]
fn merge_incompatible_kinds_fails() {
    let mut v = DataValue::Sequence(vec![num("1")]);
    let e = v.merge(text("nope")).unwrap_err();
    match e {
        DataResolverError::IncompatibleYamlMerge { dst, src } => {
            assert_eq!(dst, DataValue::Sequence(vec![num("1")]));
            assert_eq!(src, text("nope"));
        }
        other => panic!("unexpected error {:?}", other),
    }
    // The destination is untouched on failure.
    assert_eq!(v, DataValue::Sequence(vec![num("1")]));
}

#[test]
fn merge_incompatible_nested_reports_sub_values() {
    let mut dst = parse("a: 1\n");
    let e = dst.merge(parse("a: hello\n")).unwrap_err();
    match e {
        DataResolverError::IncompatibleYamlMerge { dst, src } => {
            assert_eq!(dst, num("1"));
            assert_eq!(src, text("hello"));
        }
        other => panic!("unexpected error {:?}", other),
    }
}

#[test]
fn merge_at_inserts_and_merges() {
    let mut v = DataValue::Null;
    v.merge_at("id", num("1")).unwrap();
    assert_eq!(v, DataValue::Mapping(vec![(s("id"), num("1"))]));

    v.merge_at("name", text("Objy")).unwrap();
    assert_eq!(
        v,
        DataValue::Mapping(vec![(s("id"), num("1")), (s("name"), text("Objy"))])
    );

    v.merge_at("id", num("7")).unwrap();
    assert_eq!(
        v,
        DataValue::Mapping(vec![(s("id"), num("7")), (s("name"), text("Objy"))])
    );
}

#[test]
fn merge_at_refuses_non_mapping() {
    let mut v = num("3");
    let e = v.merge_at("k", num("1")).unwrap_err();
    match e {
        DataResolverError::CannotMergeIntoNonMapping(w) => assert_eq!(w, num("3")),
        other => panic!("unexpected error {:?}", other),
    }
    assert_eq!(v, num("3"));
}

#[test]
fn take_leaves_null() {
    let mut v = num("3");
    let t = v.take();
    assert_eq!(t, num("3"));
    assert_eq!(v, DataValue::Null);
}
