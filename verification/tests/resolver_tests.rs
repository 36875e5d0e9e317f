use confql::resolver::DataResolver;
use confql::shape::{DeriveRole, Field, ScalarKind, Shape};
use confql::tree::{Tree, TreeEntry};
use confql::values::DataValue;
use confql::DataResolverError;

fn s(x: &str) -> String {
    x.to_string()
}

fn parse(text: &str) -> DataValue {
    confql::yaml::parse_document(text).unwrap()
}

fn file_entry(name: &str, yaml: &str) -> TreeEntry {
    TreeEntry { name: s(name), doc: Some(parse(yaml)), sub: None }
}

fn dir_entry(name: &str, sub: Tree) -> TreeEntry {
    TreeEntry { name: s(name), doc: None, sub: Some(sub) }
}

fn tree(index: Option<&str>, entries: Vec<TreeEntry>) -> Tree {
    Tree { index: index.map(|t| parse(t)), entries }
}

fn number() -> Shape {
    Shape::Scalar(ScalarKind::Number)
}

fn text_kind() -> Shape {
    Shape::Scalar(ScalarKind::Text)
}

fn field(name: &str, shape: Shape) -> Field {
    Field { name: s(name), shape, derive_from_name: false, derive_role: DeriveRole::Filename }
}

fn derive_field(name: &str, shape: Shape) -> Field {
    Field { name: s(name), shape, derive_from_name: true, derive_role: DeriveRole::Filename }
}

fn my_obj_shape() -> Shape {
    Shape::Record(vec![field("id", number()), field("name", text_kind())])
}

fn my_other_obj_shape() -> Shape {
    Shape::Record(vec![field("id", number()), field("alias", text_kind())])
}

fn query_shape() -> Shape {
    Shape::Record(vec![
        field("my_obj", my_obj_shape()),
        field("my_list", Shape::List(Box::new(my_other_obj_shape()))),
    ])
}

/// The elements of a resolved sequence, disregarding order.
fn same_elements(got: &DataValue, expected: Vec<DataValue>) -> bool {
    match got {
        DataValue::Sequence(items) => {
            if items.len() != expected.len() {
                return false;
            }
            let mut used = vec![false; expected.len()];
            for item in items {
                let mut found = false;
                for (i, e) in expected.iter().enumerate() {
                    if !used[i] && item == e {
                        used[i] = true;
                        found = true;
                        break;
                    }
                }
                if !found {
                    return false;
                }
            }
            true
        }
        _ => false,
    }
}

#[test]
fn resolves_num() {
    let r = DataResolver::new(tree(Some("1\n"), vec![]));
    let v = r.get(&vec![], &number()).unwrap();
    assert_eq!(v, DataValue::Number(s("1")));
}

#[test]
fn resolve_num() {
    let r = DataResolver::new(tree(Some("1\n"), vec![]));
    let v = r.get(&vec![], &number()).unwrap();
    assert_eq!(v, DataValue::Number(s("1")));
}

#[test]
fn resolves_list_num_accross_files() {
    let r = DataResolver::new(tree(None, vec![file_entry("a", "1\n"), file_entry("b", "2\n")]));
    let v = r.get(&vec![], &Shape::List(Box::new(number()))).unwrap();
    // Enumeration order is not guaranteed; compare as a set.
    assert!(same_elements(&v, vec![DataValue::Number(s("1")), DataValue::Number(s("2"))]));
}

#[test]
fn lib_resolves_object_from_index() {
    let r = DataResolver::new(tree(Some("id: 1\nname: Objy\n"), vec![]));
    let v = r.get(&vec![], &my_obj_shape()).unwrap();
    assert_eq!(v, parse("id: 1\nname: Objy\n"));
}

#[test]
fn mod_resolves_object_from_index() {
    let r = DataResolver::new(tree(Some("id: 1\nname: Objy\n"), vec![]));
    let v = r.get(&vec![], &my_obj_shape()).unwrap();
    assert_eq!(v, parse("id: 1\nname: Objy\n"));
}

#[test]
fn resolves_object_from_broken_files() {
    let r = DataResolver::new(
        tree(None, vec![file_entry("id", "1\n"), file_entry("name", "Objy\n")]),
    );
    let v = r.get(&vec![], &my_obj_shape()).unwrap();
    assert_eq!(v, parse("id: 1\nname: Objy\n"));
}

#[test]
fn lib_resolves_deep_object_from_index() {
    let doc = "my_obj:\n  id: 1\n  name: Objy\nmy_list:\n- id: 1\n  alias: Obbo\n- id: 2\n  alias: Ali\n";
    let r = DataResolver::new(tree(Some(doc), vec![]));
    let v = r.get(&vec![], &query_shape()).unwrap();
    assert_eq!(v, parse(doc));
}

#[test]
fn mod_resolves_deep_object_from_index() {
    let doc = "my_obj:\n  id: 1\n  name: Objy\nmy_list:\n- id: 1\n  alias: Obbo\n- id: 2\n  alias: Ali\n";
    let r = DataResolver::new(tree(Some(doc), vec![]));
    let v = r.get(&vec![], &query_shape()).unwrap();
    assert_eq!(v, parse(doc));
}

#[test]
fn resolves_nested_list_from_files() {
    let r = DataResolver::new(tree(
        None,
        vec![
            dir_entry("my_obj", tree(Some("id: 1\nname: Objy\n"), vec![])),
            dir_entry(
                "my_list",
                tree(
                    None,
                    vec![
                        file_entry("x", "id: 1\nalias: Obbo\n"),
                        file_entry("y", "id: 2\nalias: Ali\n"),
                    ],
                ),
            ),
        ],
    ));
    let v = r.get(&vec![], &query_shape()).unwrap();
    match &v {
        DataValue::Mapping(entries) => {
            assert_eq!(entries[0].0, s("my_obj"));
            assert_eq!(entries[0].1, parse("id: 1\nname: Objy\n"));
            assert_eq!(entries[1].0, s("my_list"));
            assert!(same_elements(
                &entries[1].1,
                vec![parse("id: 1\nalias: Obbo\n"), parse("id: 2\nalias: Ali\n")]
            ));
        }
        other => panic!("expected a mapping, got {:?}", other),
    }
}

#[test]
fn resolves_nested_objects_from_file_tree() {
    let r = DataResolver::new(tree(
        None,
        vec![
            dir_entry("my_obj", tree(Some("id: 1\nname: Objy\n"), vec![])),
            dir_entry(
                "my_list",
                tree(
                    None,
                    vec![
                        file_entry("x", "id: 1\nalias: Obbo\n"),
                        file_entry("y", "id: 2\nalias: Ali\n"),
                    ],
                ),
            ),
        ],
    ));
    let v = r.get(&vec![], &query_shape()).unwrap();
    match &v {
        DataValue::Mapping(entries) => {
            assert_eq!(entries[0].1, parse("id: 1\nname: Objy\n"));
            assert!(same_elements(
                &entries[1].1,
                vec![parse("id: 1\nalias: Obbo\n"), parse("id: 2\nalias: Ali\n")]
            ));
        }
        other => panic!("expected a mapping, got {:?}", other),
    }
}

#[test]
fn resolves_broken_nested_list_from_dir_index_files() {
    let r = DataResolver::new(tree(
        None,
        vec![
            dir_entry("my_obj", tree(Some("id: 1\nname: Objy\n"), vec![])),
            dir_entry(
                "my_list",
                tree(
                    None,
                    vec![
                        dir_entry("x", tree(Some("id: 1\nalias: Obbo\n"), vec![])),
                        dir_entry("y", tree(Some("id: 2\nalias: Ali\n"), vec![])),
                    ],
                ),
            ),
        ],
    ));
    let v = r.get(&vec![], &query_shape()).unwrap();
    match &v {
        DataValue::Mapping(entries) => {
            assert_eq!(entries[0].1, parse("id: 1\nname: Objy\n"));
            assert!(same_elements(
                &entries[1].1,
                vec![parse("id: 1\nalias: Obbo\n"), parse("id: 2\nalias: Ali\n")]
            ));
        }
        other => panic!("expected a mapping, got {:?}", other),
    }
}

#[test]
fn resolves_broken_nested_list_from_dir_tree() {
    let r = DataResolver::new(tree(
        None,
        vec![
            dir_entry("my_obj", tree(Some("id: 1\nname: Objy\n"), vec![])),
            dir_entry(
                "my_list",
                tree(
                    None,
                    vec![
                        dir_entry(
                            "x",
                            tree(Some("id: 1\n"), vec![file_entry("alias", "Obbo\n")]),
                        ),
                        dir_entry(
                            "y",
                            tree(None, vec![file_entry("alias", "Ali\n"), file_entry("id", "2\n")]),
                        ),
                    ],
                ),
            ),
        ],
    ));
    let v = r.get(&vec![], &query_shape()).unwrap();
    match &v {
        DataValue::Mapping(entries) => {
            assert_eq!(entries[0].1, parse("id: 1\nname: Objy\n"));
            assert!(same_elements(
                &entries[1].1,
                vec![parse("id: 1\nalias: Obbo\n"), parse("id: 2\nalias: Ali\n")]
            ));
        }
        other => panic!("expected a mapping, got {:?}", other),
    }
}

#[test]
fn specificity_precedence() {
    // A deeper document overrides a broader one for the same address.
    let r = DataResolver::new(tree(
        Some("a:\n  b: 1\n"),
        vec![dir_entry("a", tree(Some("b: 2\n"), vec![]))],
    ));
    let v = r.get(&vec![s("a"), s("b")], &number()).unwrap();
    assert_eq!(v, DataValue::Number(s("2")));
}

#[test]
fn list_from_siblings() {
    let r = DataResolver::new(tree(
        None,
        vec![dir_entry(
            "things",
            tree(
                None,
                vec![file_entry("widget", "size: 1.1\n"), file_entry("dongle", "size: 2.2\n")],
            ),
        )],
    ));
    let shape = Shape::List(Box::new(Shape::Record(vec![field("size", number())])));
    let v = r.get(&vec![s("things")], &shape).unwrap();
    assert!(same_elements(&v, vec![parse("size: 1.1\n"), parse("size: 2.2\n")]));
}

#[test]
fn filename_default_overridden_by_explicit_value() {
    // A derive_from_name field falls back to the element's name, but an
    // explicit value in the element's own document wins.
    let r = DataResolver::new(tree(
        None,
        vec![dir_entry(
            "things",
            tree(
                None,
                vec![
                    file_entry("widget", "alias: Widgy\nsize: 1.1\n"),
                    file_entry("dongle", "size: 2.2\n"),
                ],
            ),
        )],
    ));
    let shape = Shape::List(Box::new(Shape::Record(vec![
        derive_field("name", text_kind()),
        derive_field("alias", text_kind()),
        field("size", number()),
    ])));
    let v = r.get(&vec![s("things")], &shape).unwrap();
    assert!(same_elements(
        &v,
        vec![
            parse("name: widget\nalias: Widgy\nsize: 1.1\n"),
            parse("name: dongle\nalias: dongle\nsize: 2.2\n"),
        ]
    ));
}

#[test]
fn missing_non_optional_leaf_fails() {
    let r = DataResolver::new(tree(None, vec![]));
    let e = r.get(&vec![s("a")], &number()).unwrap_err();
    assert_eq!(e, DataResolverError::DataNotFound);
}

#[test]
fn missing_optional_leaf_is_null() {
    let r = DataResolver::new(tree(None, vec![]));
    let v = r.get(&vec![s("a")], &Shape::Optional(Box::new(number()))).unwrap();
    assert_eq!(v, DataValue::Null);
}

#[test]
fn record_missing_required_field_fails() {
    let r = DataResolver::new(tree(Some("name: Objy\n"), vec![]));
    let e = r.get(&vec![], &my_obj_shape()).unwrap_err();
    assert_eq!(e, DataResolverError::DataNotFound);
}

#[test]
fn record_missing_optional_field_succeeds() {
    let shape = Shape::Record(vec![
        field("name", text_kind()),
        field("id", Shape::Optional(Box::new(number()))),
    ]);
    let r = DataResolver::new(tree(Some("name: Objy\n"), vec![]));
    let v = r.get(&vec![], &shape).unwrap();
    assert_eq!(v, parse("name: Objy\nid: null\n"));
}

#[test]
fn idempotent_re_resolution() {
    // Resolving the same address against an unchanged store twice yields
    // structurally equal values.
    let r = DataResolver::new(tree(
        Some("a:\n  b: 1\n"),
        vec![dir_entry("a", tree(Some("b: 2\nc: [1, 2]\n"), vec![]))],
    ));
    let v1 = r.get(&vec![s("a"), s("b")], &number()).unwrap();
    let v2 = r.get(&vec![s("a"), s("b")], &number()).unwrap();
    assert_eq!(v1, v2);
}

#[test]
fn incompatible_documents_fail_resolution() {
    // A mapping met where the broader level already supplied a scalar is a
    // type clash, reported with both operands.
    let r = DataResolver::new(tree(
        Some("a: 1\n"),
        vec![dir_entry("a", tree(Some("b: 2\n"), vec![]))],
    ));
    let e = r.get(&vec![s("a")], &number()).unwrap_err();
    match e {
        DataResolverError::IncompatibleYamlMerge { dst, src } => {
            assert_eq!(dst, DataValue::Number(s("1")));
            assert_eq!(src, parse("b: 2\n"));
        }
        other => panic!("unexpected error {:?}", other),
    }
}

#[test]
fn explicit_sequence_wins_over_siblings() {
    // A directory whose own document holds a sequence at the address keeps
    // that sequence; siblings are not enumerated.
    let r = DataResolver::new(tree(
        None,
        vec![dir_entry(
            "things",
            tree(Some("[7, 8]"), vec![file_entry("widget", "9\n")]),
        )],
    ));
    let v = r.get(&vec![s("things")], &Shape::List(Box::new(number()))).unwrap();
    assert_eq!(v, parse("[7, 8]"));
}

#[test]
fn empty_directory_list_is_empty() {
    let r = DataResolver::new(tree(None, vec![dir_entry("things", tree(None, vec![]))]));
    let v = r.get(&vec![s("things")], &Shape::List(Box::new(number()))).unwrap();
    assert_eq!(v, DataValue::Sequence(vec![]));
}

#[test]
fn missing_list_fails() {
    let r = DataResolver::new(tree(None, vec![]));
    let e = r.get(&vec![s("things")], &Shape::List(Box::new(number()))).unwrap_err();
    assert_eq!(e, DataResolverError::DataNotFound);
}

#[test]
fn optional_record_missing_field_is_null() {
    let shape = Shape::Optional(Box::new(my_obj_shape()));
    let r = DataResolver::new(tree(Some("name: Objy\n"), vec![]));
    let v = r.get(&vec![], &shape).unwrap();
    assert_eq!(v, DataValue::Null);
}

#[test]
fn null_document_does_not_override() {
    // An explicit null at a more specific level never erases broader data.
    let r = DataResolver::new(tree(Some("a: 1\n"), vec![file_entry("a", "null\n")]));
    let v = r.get(&vec![s("a")], &number()).unwrap();
    assert_eq!(v, DataValue::Number(s("1")));
}
