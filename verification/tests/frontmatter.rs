use fme::frontmatter::{
    decode_frontmatter, encode_frontmatter, parse_frontmatter, serialize_frontmatter, Frontmatter,
    FrontmatterError,
};
use serde_yaml::value::{Tag, TaggedValue};
use serde_yaml::{Mapping, Number, Value};

fn text(s: &str) -> Value {
    Value::String(s.to_string())
}

fn list(items: &[&str]) -> Vec<String> {
    items.iter().map(|s| s.to_string()).collect()
}

fn empty() -> Frontmatter {
    Frontmatter { id: None, aliases: None, tags: None, other: vec![] }
}

#[test]
fn parse_frontmatter_reads_the_typed_fields() {
    let (frontmatter, body) =
        parse_frontmatter("---\nid: n1\naliases:\n  - one\n  - two\ntags: [a, b]\n---\nbody\n")
            .unwrap();
    assert_eq!(
        frontmatter,
        Frontmatter {
            id: Some("n1".to_string()),
            aliases: Some(list(&["one", "two"])),
            tags: Some(list(&["a", "b"])),
            other: vec![],
        }
    );
    assert_eq!(body, "body\n");
}

#[test]
fn parse_frontmatter_keeps_other_fields_in_their_order() {
    let (frontmatter, body) =
        parse_frontmatter("---\nz: 1\nid: x\na: text\ntags: [t]\nm:\n  k: true\n---\nbody")
            .unwrap();
    let mut nested = Mapping::new();
    nested.insert(text("k"), Value::Bool(true));
    assert_eq!(
        frontmatter,
        Frontmatter {
            id: Some("x".to_string()),
            aliases: None,
            tags: Some(list(&["t"])),
            other: vec![
                ("z".to_string(), Value::Number(Number::from(1))),
                ("a".to_string(), text("text")),
                ("m".to_string(), Value::Mapping(nested)),
            ],
        }
    );
    assert_eq!(body, "body");
}

#[test]
fn parse_frontmatter_takes_null_for_absent() {
    let (frontmatter, body) =
        parse_frontmatter("---\nid: ~\ntags: null\naliases:\n---\nb").unwrap();
    assert_eq!(frontmatter, empty());
    assert_eq!(body, "b");
    let (frontmatter, _) = parse_frontmatter("---\n---\n").unwrap();
    assert_eq!(frontmatter, empty());
}

#[test]
fn parse_frontmatter_keeps_an_empty_list_apart_from_an_absent_one() {
    let (frontmatter, _) = parse_frontmatter("---\naliases: []\ntags: []\nid: ''\n---\n").unwrap();
    assert_eq!(
        frontmatter,
        Frontmatter {
            id: Some(String::new()),
            aliases: Some(vec![]),
            tags: Some(vec![]),
            other: vec![],
        }
    );
}

#[test]
fn parse_frontmatter_without_a_block_fails_with_no_frontmatter() {
    assert_eq!(parse_frontmatter("just a body"), Err(FrontmatterError::NoFrontmatter));
    assert_eq!(parse_frontmatter(""), Err(FrontmatterError::NoFrontmatter));
    assert_eq!(parse_frontmatter("---\ntags: [a]\n"), Err(FrontmatterError::NoFrontmatter));
    assert_eq!(
        parse_frontmatter("intro\n---\ntags: [a]\n---\n"),
        Err(FrontmatterError::NoFrontmatter)
    );
}

#[test]
fn parse_frontmatter_of_a_bad_block_fails_with_malformed_yaml() {
    let malformed = [
        "---\ntags: [a\n---\n",
        "---\njust text\n---\n",
        "---\n- a\n- b\n---\n",
        "---\ntags: a\n---\n",
        "---\ntags: [a, 1]\n---\n",
        "---\ntags:\n  k: v\n---\n",
        "---\naliases: 3\n---\n",
        "---\nid: 12\n---\n",
        "---\nid: [x]\n---\n",
        "---\nid: true\n---\n",
        "---\n1: x\n---\n",
        "---\nid: a\nid: b\n---\n",
    ];
    for doc in malformed.iter() {
        assert_eq!(parse_frontmatter(doc), Err(FrontmatterError::MalformedYaml), "{:?}", doc);
    }
}

#[test]
fn serialize_frontmatter_leaves_out_absent_fields() {
    assert_eq!(serialize_frontmatter(empty()).unwrap(), "{}\n");
    let frontmatter = Frontmatter { tags: Some(list(&["a"])), ..empty() };
    assert_eq!(serialize_frontmatter(frontmatter).unwrap(), "tags:\n  - a\n");
    let frontmatter = Frontmatter { id: Some("n".to_string()), ..empty() };
    assert_eq!(serialize_frontmatter(frontmatter).unwrap(), "id: n\n");
}

#[test]
fn serialize_frontmatter_writes_the_fields_in_their_order() {
    let frontmatter = Frontmatter {
        id: Some("n1".to_string()),
        aliases: Some(list(&["one"])),
        tags: Some(list(&["a", "b"])),
        other: vec![
            ("zeta".to_string(), Value::Number(Number::from(1))),
            ("alpha".to_string(), Value::Sequence(vec![text("x"), text("y")])),
        ],
    };
    assert_eq!(
        serialize_frontmatter(frontmatter).unwrap(),
        "id: n1\naliases:\n  - one\ntags:\n  - a\n  - b\nzeta: 1\nalpha:\n  - x\n  - y\n"
    );
}

#[test]
fn serialize_frontmatter_writes_empty_values() {
    let frontmatter = Frontmatter {
        id: Some(String::new()),
        aliases: Some(vec![]),
        tags: Some(vec![]),
        other: vec![],
    };
    assert_eq!(serialize_frontmatter(frontmatter).unwrap(), "id: ''\naliases: []\ntags: []\n");
}

#[test]
fn decode_frontmatter_sorts_entries_into_fields() {
    let entries = vec![
        (text("title"), text("T")),
        (text("tags"), Value::Sequence(vec![text("a"), text("b")])),
        (text("id"), text("n")),
        (text("aliases"), Value::Null),
        (text("count"), Value::Number(Number::from(2))),
    ];
    assert_eq!(
        decode_frontmatter(entries),
        Some(Frontmatter {
            id: Some("n".to_string()),
            aliases: None,
            tags: Some(list(&["a", "b"])),
            other: vec![
                ("title".to_string(), text("T")),
                ("count".to_string(), Value::Number(Number::from(2))),
            ],
        })
    );
    assert_eq!(decode_frontmatter(vec![]), Some(empty()));
}

#[test]
fn decode_frontmatter_refuses_wrong_shapes() {
    assert_eq!(decode_frontmatter(vec![(Value::Bool(true), text("x"))]), None);
    assert_eq!(decode_frontmatter(vec![(Value::Null, text("x"))]), None);
    assert_eq!(decode_frontmatter(vec![(text("id"), Value::Bool(true))]), None);
    assert_eq!(decode_frontmatter(vec![(text("id"), Value::Sequence(vec![]))]), None);
    assert_eq!(decode_frontmatter(vec![(text("tags"), text("a"))]), None);
    assert_eq!(
        decode_frontmatter(vec![(text("tags"), Value::Sequence(vec![text("a"), Value::Null]))]),
        None
    );
    assert_eq!(
        decode_frontmatter(vec![(text("aliases"), Value::Mapping(Mapping::new()))]),
        None
    );
    assert_eq!(
        decode_frontmatter(vec![(text("ok"), text("x")), (text("id"), Value::Number(Number::from(1)))]),
        None
    );
}

#[test]
fn encode_frontmatter_writes_one_entry_for_each_present_field() {
    let frontmatter = Frontmatter {
        id: Some("n".to_string()),
        aliases: Some(vec![]),
        tags: Some(list(&["a", "b"])),
        other: vec![("k".to_string(), Value::Bool(false))],
    };
    assert_eq!(
        encode_frontmatter(frontmatter),
        vec![
            (text("id"), text("n")),
            (text("aliases"), Value::Sequence(vec![])),
            (text("tags"), Value::Sequence(vec![text("a"), text("b")])),
            (text("k"), Value::Bool(false)),
        ]
    );
    assert_eq!(encode_frontmatter(empty()), vec![]);
}

#[test]
fn encoded_entries_decode_to_the_same_frontmatter() {
    let frontmatter = Frontmatter {
        id: Some("n".to_string()),
        aliases: None,
        tags: Some(list(&["a", "b", "a"])),
        other: vec![
            ("k".to_string(), Value::Null),
            ("j".to_string(), Value::Sequence(vec![Value::Bool(true)])),
        ],
    };
    assert_eq!(decode_frontmatter(encode_frontmatter(frontmatter.clone())), Some(frontmatter));
}

#[test]
fn a_note_in_the_written_layout_is_written_back_as_it_is() {
    let doc = "---\nid: n1\naliases:\n  - one\ntags:\n  - a\n  - b\ntitle: My note\ncount: 3\n---\n\nbody\n";
    let (frontmatter, body) = parse_frontmatter(doc).unwrap();
    let block = serialize_frontmatter(frontmatter).unwrap();
    assert_eq!(format!("---\n{}---\n{}", block, body), doc);
}

#[test]
fn error_messages_name_the_failure() {
    assert_eq!(FrontmatterError::NoFrontmatter.message(), "no frontmatter block");
    assert_eq!(FrontmatterError::MalformedYaml.message(), "malformed frontmatter");
    assert_eq!(
        FrontmatterError::Unserializable.message(),
        "frontmatter cannot be written as YAML"
    );
}

#[test]
fn serialize_frontmatter_reports_what_cannot_be_written() {
    let inner = Value::Tagged(Box::new(TaggedValue { tag: Tag::new("b"), value: Value::Null }));
    let outer = Value::Tagged(Box::new(TaggedValue { tag: Tag::new("a"), value: inner }));
    let frontmatter = Frontmatter { other: vec![("k".to_string(), outer)], ..empty() };
    assert_eq!(serialize_frontmatter(frontmatter), Err(FrontmatterError::Unserializable));
}

#[test]
fn a_tagged_value_is_carried_through() {
    let (frontmatter, _) = parse_frontmatter("---\nwhen: !date 2024-01-01\ntags: [a]\n---\n").unwrap();
    assert_eq!(frontmatter.other.len(), 1);
    assert_eq!(frontmatter.other[0].0, "when");
    assert_eq!(
        serialize_frontmatter(frontmatter).unwrap(),
        "tags:\n  - a\nwhen: !date 2024-01-01\n"
    );
}
