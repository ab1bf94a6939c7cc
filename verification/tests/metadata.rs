use ycmark::{
    flatten_yaml, metadata_from_documents, parse_documents, read_metadata, stringify_yaml,
    ErrorKind, Metadata, MetadataError, Node,
};

fn text(s: &str) -> Node {
    Node::Text(s.to_string())
}

fn entry(key: &str, value: Node) -> (Node, Node) {
    (text(key), value)
}

fn value_of<'a>(m: &'a Metadata, key: &str) -> Option<&'a str> {
    m.get(key).map(|v| v.as_str())
}

#[test]
fn nested_document_is_flattened_to_dotted_paths() {
    let m = read_metadata("title: \"t\"\nlist: [\"a\", \"b\"]\nmap: {key: \"v\"}\n").unwrap();
    assert_eq!(m.len(), 4);
    assert_eq!(value_of(&m, "title"), Some("t"));
    assert_eq!(value_of(&m, "list.0"), Some("a"));
    assert_eq!(value_of(&m, "list.1"), Some("b"));
    assert_eq!(value_of(&m, "map.key"), Some("v"));
    assert_eq!(value_of(&m, "list"), None);
    assert_eq!(value_of(&m, "map"), None);
}

#[test]
fn tree_built_by_hand_is_flattened_alike() {
    let root = Node::Mapping(vec![
        entry("title", text("t")),
        entry("list", Node::Sequence(vec![text("a"), text("b")])),
        entry("map", Node::Mapping(vec![entry("key", text("v"))])),
    ]);
    let mut m = Metadata::new();
    flatten_yaml(&root, &mut m);
    assert_eq!(m.len(), 4);
    assert_eq!(value_of(&m, "title"), Some("t"));
    assert_eq!(value_of(&m, "list.0"), Some("a"));
    assert_eq!(value_of(&m, "list.1"), Some("b"));
    assert_eq!(value_of(&m, "map.key"), Some("v"));
}

#[test]
fn malformed_text_is_a_scan_error() {
    let r = read_metadata("key: value: more\n");
    assert!(matches!(r, Err(MetadataError::Scan(_))));
    assert_eq!(r.err().unwrap().kind(), ErrorKind::Scan);
    assert!(matches!(read_metadata("a: [1, 2\n"), Err(MetadataError::Scan(_))));
    assert!(matches!(read_metadata("a: 1\na: 2\n"), Err(MetadataError::Scan(_))));
}

#[test]
fn scalar_document_is_an_invalid_type() {
    let r = read_metadata("just a scalar");
    assert!(matches!(r, Err(MetadataError::InvalidType)));
    assert_eq!(r.err().unwrap().kind(), ErrorKind::InvalidType);
    assert!(matches!(read_metadata("42"), Err(MetadataError::InvalidType)));
}

#[test]
fn other_shapes_are_invalid_types() {
    assert!(matches!(read_metadata("- a\n- b\n"), Err(MetadataError::InvalidType)));
    assert!(matches!(read_metadata(""), Err(MetadataError::InvalidType)));
    assert!(matches!(read_metadata("# only a comment\n"), Err(MetadataError::InvalidType)));
    assert!(matches!(read_metadata("a: 1\n---\nb: 2\n"), Err(MetadataError::InvalidType)));
}

#[test]
fn documents_are_counted_before_they_are_flattened() {
    assert!(matches!(metadata_from_documents(&vec![]), Err(MetadataError::InvalidType)));
    let two = vec![Node::Mapping(vec![]), Node::Mapping(vec![])];
    assert!(matches!(metadata_from_documents(&two), Err(MetadataError::InvalidType)));
    let list = vec![Node::Sequence(vec![text("a")])];
    assert!(matches!(metadata_from_documents(&list), Err(MetadataError::InvalidType)));
    let one = vec![Node::Mapping(vec![entry("a", text("b"))])];
    let m = metadata_from_documents(&one).unwrap();
    assert_eq!(m.len(), 1);
    assert_eq!(value_of(&m, "a"), Some("b"));
    assert_eq!(metadata_from_documents(&vec![Node::Mapping(vec![])]).unwrap().len(), 0);
}

#[test]
fn scalars_are_written_as_strings() {
    assert_eq!(stringify_yaml(&Node::Real("1.50".to_string())), "1.50");
    assert_eq!(stringify_yaml(&Node::Integer(0)), "0");
    assert_eq!(stringify_yaml(&Node::Integer(7)), "7");
    assert_eq!(stringify_yaml(&Node::Integer(1234567890)), "1234567890");
    assert_eq!(stringify_yaml(&Node::Integer(-42)), "-42");
    assert_eq!(stringify_yaml(&Node::Integer(i64::MAX)), "9223372036854775807");
    assert_eq!(stringify_yaml(&Node::Integer(i64::MIN)), "-9223372036854775808");
    assert_eq!(stringify_yaml(&text("as is")), "as is");
    assert_eq!(stringify_yaml(&Node::Boolean(true)), "true");
    assert_eq!(stringify_yaml(&Node::Boolean(false)), "false");
    assert_eq!(stringify_yaml(&Node::Null), "null");
    assert_eq!(stringify_yaml(&Node::Other), "");
    assert_eq!(stringify_yaml(&Node::Sequence(vec![text("a")])), "");
    assert_eq!(stringify_yaml(&Node::Mapping(vec![])), "");
}

#[test]
fn parsed_scalars_are_written_as_strings() {
    let m = read_metadata("r: 2.50\ni: -17\ns: text\nb: true\nf: false\nn: ~\nq: \"12\"\n").unwrap();
    assert_eq!(value_of(&m, "r"), Some("2.50"));
    assert_eq!(value_of(&m, "i"), Some("-17"));
    assert_eq!(value_of(&m, "s"), Some("text"));
    assert_eq!(value_of(&m, "b"), Some("true"));
    assert_eq!(value_of(&m, "f"), Some("false"));
    assert_eq!(value_of(&m, "n"), Some("null"));
    assert_eq!(value_of(&m, "q"), Some("12"));
    assert_eq!(m.len(), 7);
}

#[test]
fn keys_that_are_no_strings_are_skipped() {
    let root = Node::Mapping(vec![
        (Node::Integer(1), text("one")),
        entry("kept", text("yes")),
        (Node::Null, Node::Mapping(vec![entry("deep", text("lost"))])),
        (Node::Boolean(true), Node::Sequence(vec![text("lost")])),
    ]);
    let mut m = Metadata::new();
    flatten_yaml(&root, &mut m);
    assert_eq!(m.len(), 1);
    assert_eq!(value_of(&m, "kept"), Some("yes"));
    let parsed = read_metadata("1: one\nkept: yes\n").unwrap();
    assert_eq!(parsed.len(), 1);
    assert_eq!(value_of(&parsed, "kept"), Some("yes"));
}

#[test]
fn earlier_leaf_with_the_same_path_stays() {
    let root = Node::Mapping(vec![
        entry("a.b", text("first")),
        entry("a", Node::Mapping(vec![entry("b", text("second"))])),
        entry("c", Node::Sequence(vec![text("third")])),
        entry("c.0", text("fourth")),
    ]);
    let mut m = Metadata::new();
    flatten_yaml(&root, &mut m);
    assert_eq!(m.len(), 2);
    assert_eq!(value_of(&m, "a.b"), Some("first"));
    assert_eq!(value_of(&m, "c.0"), Some("third"));

    let parsed = read_metadata("a: {b: nested}\na.b: flat\n").unwrap();
    assert_eq!(parsed.len(), 1);
    assert_eq!(value_of(&parsed, "a.b"), Some("nested"));
}

#[test]
fn scan_error_carries_the_report_of_the_parser() {
    let text = "key: value: more\n";
    let expected = yaml_rust2::YamlLoader::load_from_str(text).unwrap_err();
    match read_metadata(text) {
        Err(MetadataError::Scan(report)) => {
            assert_eq!(report, expected);
            assert_eq!(report.to_string(), expected.to_string());
            assert!(!report.info().is_empty());
        }
        _ => panic!("malformed text was read"),
    }
    match parse_documents("a: [1, 2\n") {
        Err(report) => {
            assert_eq!(report, yaml_rust2::YamlLoader::load_from_str("a: [1, 2\n").unwrap_err())
        }
        Ok(_) => panic!("malformed text was parsed"),
    }
}

#[test]
fn flattening_writes_over_what_the_map_held() {
    let mut m = Metadata::new();
    m.insert("a".to_string(), "old".to_string());
    m.insert("z".to_string(), "kept".to_string());
    flatten_yaml(&Node::Mapping(vec![entry("a", text("new"))]), &mut m);
    assert_eq!(m.len(), 2);
    assert_eq!(value_of(&m, "a"), Some("new"));
    assert_eq!(value_of(&m, "z"), Some("kept"));
}

#[test]
fn sequences_nest_by_index() {
    let items: Vec<Node> = (0..12).map(|i| Node::Integer(i * 10)).collect();
    let root = Node::Mapping(vec![entry(
        "m",
        Node::Sequence(vec![Node::Sequence(items), Node::Mapping(vec![entry("k", Node::Null)])]),
    )]);
    let mut m = Metadata::new();
    flatten_yaml(&root, &mut m);
    assert_eq!(m.len(), 13);
    assert_eq!(value_of(&m, "m.0.0"), Some("0"));
    assert_eq!(value_of(&m, "m.0.9"), Some("90"));
    assert_eq!(value_of(&m, "m.0.10"), Some("100"));
    assert_eq!(value_of(&m, "m.0.11"), Some("110"));
    assert_eq!(value_of(&m, "m.1.k"), Some("null"));
}

#[test]
fn empty_collections_leave_no_key() {
    let root = Node::Mapping(vec![
        entry("none", Node::Sequence(vec![])),
        entry("nothing", Node::Mapping(vec![])),
    ]);
    let mut m = Metadata::new();
    flatten_yaml(&root, &mut m);
    assert_eq!(m.len(), 0);
    assert!(m.is_empty());
}

#[test]
fn empty_key_adds_no_dot() {
    let root = Node::Mapping(vec![
        entry("", Node::Mapping(vec![entry("x", text("1"))])),
        entry("y", Node::Mapping(vec![entry("", text("2"))])),
    ]);
    let mut m = Metadata::new();
    flatten_yaml(&root, &mut m);
    assert_eq!(value_of(&m, "x"), Some("1"));
    assert_eq!(value_of(&m, "y."), Some("2"));
    assert_eq!(m.len(), 2);
}

#[test]
fn scalar_root_is_written_under_the_empty_path() {
    let mut m = Metadata::new();
    flatten_yaml(&text("alone"), &mut m);
    assert_eq!(m.len(), 1);
    assert_eq!(value_of(&m, ""), Some("alone"));
}

#[test]
fn deep_document_is_flattened_without_recursion() {
    let mut node = text("bottom");
    let mut path = String::new();
    for _ in 0..2000 {
        node = Node::Sequence(vec![node]);
        if !path.is_empty() {
            path.push('.');
        }
        path.push('0');
    }
    let mut m = Metadata::new();
    flatten_yaml(&node, &mut m);
    assert_eq!(m.len(), 1);
    assert_eq!(value_of(&m, &path), Some("bottom"));
    std::mem::forget(node);
}

#[test]
fn parser_values_become_nodes() {
    let docs = parse_documents("a: 1\nb: [x, 2.5, true, ~]\n").unwrap();
    assert_eq!(docs.len(), 1);
    assert_eq!(
        format!("{:?}", docs[0]),
        "Mapping([(Text(\"a\"), Integer(1)), (Text(\"b\"), Sequence([Text(\"x\"), Real(\"2.5\"), \
         Boolean(true), Null]))])"
    );
    let docs = parse_documents("first\n---\n- second\n").unwrap();
    assert_eq!(docs.len(), 2);
    assert_eq!(format!("{:?}", docs), "[Text(\"first\"), Sequence([Text(\"second\")])]");
    assert_eq!(parse_documents("").unwrap().len(), 0);
    assert!(parse_documents("a: b: c").is_err());
}

#[test]
fn aliases_are_copied_by_the_parser() {
    let m = read_metadata("a: &x 1\nb: *x\n").unwrap();
    assert_eq!(value_of(&m, "a"), Some("1"));
    assert_eq!(value_of(&m, "b"), Some("1"));
}

#[test]
fn map_is_read_by_key() {
    let mut m = Metadata::new();
    assert!(m.is_empty());
    assert_eq!(m.len(), 0);
    m.insert("k".to_string(), "v".to_string());
    m.insert("k".to_string(), "w".to_string());
    m.insert("l".to_string(), "x".to_string());
    assert_eq!(m.len(), 2);
    assert!(m.contains_key("k"));
    assert!(!m.contains_key("K"));
    assert_eq!(value_of(&m, "k"), Some("w"));
    assert_eq!(value_of(&m, "m"), None);
}

#[test]
fn extending_prefers_the_other_map() {
    let mut m = Metadata::new();
    m.insert("a".to_string(), "1".to_string());
    m.insert("b".to_string(), "2".to_string());
    let mut other = Metadata::new();
    other.insert("b".to_string(), "3".to_string());
    other.insert("c".to_string(), "4".to_string());
    m.extend(other);
    assert_eq!(m.len(), 3);
    assert_eq!(value_of(&m, "a"), Some("1"));
    assert_eq!(value_of(&m, "b"), Some("3"));
    assert_eq!(value_of(&m, "c"), Some("4"));
}

#[test]
fn pairs_are_written_in_order() {
    let pairs = vec![
        ("a".to_string(), "1".to_string()),
        ("b".to_string(), "2".to_string()),
        ("a".to_string(), "3".to_string()),
    ];
    let m = Metadata::from_pairs(&pairs);
    assert_eq!(m.len(), 2);
    assert_eq!(value_of(&m, "a"), Some("3"));
    assert_eq!(value_of(&m, "b"), Some("2"));
    assert_eq!(Metadata::from_pairs(&vec![]).len(), 0);
}
