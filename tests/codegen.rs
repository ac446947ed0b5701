use proto_codegen::codegen::{distinct_values, find_location, sort_numbers, split_nested};
use proto_codegen::config::{known_type, match_ident, well_known_type, Config};
use proto_codegen::descriptor::{
    EnumDescriptor, EnumValueDescriptor, FieldDescriptor, FieldType, FileDescriptor, Label,
    Location, MessageDescriptor, MethodDescriptor, OneofDescriptor, ServiceDescriptor, Syntax,
};
use proto_codegen::escape::{escape_bytes, quote_bytes, unescape_c_escape_string, EscapeError};
use proto_codegen::graph::MessageGraph;
use proto_codegen::groups::group_oneof_fields;
use proto_codegen::lower::{
    can_pack, field_boxed, field_type_tag, optional, parse_syntax, resolve_type, GenError,
};
use proto_codegen::naming::strip_enum_prefix;
use proto_codegen::resolve::{join_parts, resolve_ident, split_at_dots};
use proto_codegen::walker::{module, CodeGenerator};
use prost_types::{MethodOptions, ServiceOptions};

fn s(x: &str) -> String {
    x.to_string()
}

fn config() -> Config {
    Config {
        type_attributes: Vec::new(),
        field_attributes: Vec::new(),
        btree_map: Vec::new(),
        mapped_types: Vec::new(),
        strip_enum_prefix: true,
        prost_types: true,
        service_generator: false,
    }
}

fn field(name: &str, number: i32, label: Label, ty: FieldType, type_ref: &str) -> FieldDescriptor {
    FieldDescriptor {
        name: s(name),
        number,
        label,
        field_type: ty,
        type_ref: s(type_ref),
        default_value: None,
        oneof_index: None,
        packed: None,
    }
}

fn message(name: &str, fields: Vec<FieldDescriptor>, nested: Vec<MessageDescriptor>) -> MessageDescriptor {
    MessageDescriptor {
        name: s(name),
        fields,
        oneofs: Vec::new(),
        nested,
        enums: Vec::new(),
        map_entry: false,
    }
}

fn loc(path: &[i32]) -> Location {
    Location { path: path.to_vec(), lines: Vec::new() }
}

fn file(package: &str, syntax: &str, messages: Vec<MessageDescriptor>, locations: Vec<Location>) -> FileDescriptor {
    FileDescriptor {
        package: s(package),
        syntax: Some(s(syntax)),
        messages,
        enums: Vec::new(),
        services: Vec::new(),
        locations,
    }
}

fn graph_of(package: &str, messages: &[&MessageDescriptor]) -> MessageGraph {
    let mut g = MessageGraph::new();
    let p = format!(".{}", package);
    for m in messages {
        g.add_message(&p, m);
    }
    g
}

#[test]
fn test_unescape_c_escape_string() {
    assert_eq!(&b"hello world"[..], &unescape_c_escape_string("hello world").unwrap()[..]);

    assert_eq!(&b"\0"[..], &unescape_c_escape_string(r#"\0"#).unwrap()[..]);

    assert_eq!(&[0o012, 0o156], &unescape_c_escape_string(r#"\012\156"#).unwrap()[..]);
    assert_eq!(&[0x01, 0x02], &unescape_c_escape_string(r#"\x01\x02"#).unwrap()[..]);

    assert_eq!(&b"\0\x01\x07\x08\x0C\n\r\t\x0B\\\'\"\xFE"[..],
               &unescape_c_escape_string(r#"\0\001\a\b\f\n\r\t\v\\\'\"\xfe"#).unwrap()[..]);
}

#[test]
fn test_strip_enum_prefix() {
    assert_eq!(strip_enum_prefix("Foo", "FooBar"), "Bar");
    assert_eq!(strip_enum_prefix("Foo", "Foobar"), "Foobar");
    assert_eq!(strip_enum_prefix("Foo", "Foo"), "Foo");
    assert_eq!(strip_enum_prefix("Foo", "Bar"), "Bar");
    assert_eq!(strip_enum_prefix("Foo", "Foo1"), "Foo1");
}

#[test]
fn unescape_errors() {
    assert_eq!(unescape_c_escape_string("ab\\"), Err(EscapeError::TrailingBackslash));
    assert_eq!(unescape_c_escape_string("\\x1"), Err(EscapeError::IncompleteHex));
    assert_eq!(unescape_c_escape_string("\\xg1"), Err(EscapeError::InvalidHex));
    assert_eq!(unescape_c_escape_string("\\777"), Err(EscapeError::OctalOverflow));
    assert_eq!(unescape_c_escape_string("\\q"), Err(EscapeError::InvalidEscape));
    assert_eq!(unescape_c_escape_string("\\?\\X41\\7x").unwrap(), vec![0x3F, 0x41, 0x07, b'x']);
}

#[test]
fn escape_round_trip() {
    let all: Vec<u8> = (0u8..=255).collect();
    let escaped = escape_bytes(&all);
    let text = String::from_utf8(escaped).unwrap();
    assert_eq!(unescape_c_escape_string(&text).unwrap(), all);
    assert_eq!(escape_bytes(&[b'a', 0, b'"', b'\\', 0xfe, b'\n']), b"a\\x00\\\"\\\\\\xfe\\n".to_vec());
}

#[test]
fn quote_escaped_bytes() {
    let q: String = quote_bytes(b"a\\x00\\\"").into_iter().collect();
    assert_eq!(q, "a\\\\x00\\\\\\\"");
}

#[test]
fn strip_prefix_keeps_non_boundary() {
    assert_eq!(strip_enum_prefix("Foo", "FooBAR"), "BAR");
    assert_eq!(strip_enum_prefix("", "Bar"), "Bar");
    assert_eq!(strip_enum_prefix("Foo", "foo"), "foo");
}

#[test]
fn split_and_join() {
    let chars: Vec<char> = "a..b.c".chars().collect();
    assert_eq!(split_at_dots(&chars), vec![s("a"), s(""), s("b"), s("c")]);
    assert_eq!(split_at_dots(&[]), vec![s("")]);
    assert_eq!(join_parts(&vec![s("super"), s("b"), s("T")]), "super::b::T");
    assert_eq!(join_parts(&vec![]), "");
}

#[test]
fn resolve_same_scope() {
    let scope = vec![s("pkg"), s("a")];
    assert_eq!(resolve_ident(&scope, ".pkg.a.Target").unwrap(), "Target");
}

#[test]
fn resolve_sibling_scope() {
    let scope = vec![s("pkg"), s("a"), s("c")];
    assert_eq!(resolve_ident(&scope, ".pkg.a.b.Target").unwrap(), "super::b::Target");
    assert_eq!(resolve_ident(&scope, ".pkg.a.Target").unwrap(), "super::Target");
}

#[test]
fn resolve_disjoint_and_unqualified() {
    let scope = vec![s("foo"), s("bar")];
    assert_eq!(resolve_ident(&scope, ".baz.my_type.FooBar").unwrap(), "super::super::baz::my_type::FooBar");
    assert_eq!(resolve_ident(&Vec::new(), ".a.b_c.T").unwrap(), "a::b_c::T");
    assert_eq!(resolve_ident(&scope, "foo.T"), None);
    assert_eq!(resolve_ident(&scope, ""), None);
}

#[test]
fn enum_aliases_first_wins() {
    let vals = vec![
        EnumValueDescriptor { name: s("A"), number: 1 },
        EnumValueDescriptor { name: s("B"), number: 1 },
        EnumValueDescriptor { name: s("C"), number: 2 },
    ];
    assert_eq!(distinct_values(&vals), vec![0, 2]);
}

#[test]
fn comment_lookup_is_exact() {
    let locs = vec![loc(&[4, 0]), loc(&[4, 0, 2, 1])];
    assert_eq!(find_location(&locs, &vec![4, 0, 2, 1]), Some(1));
    assert_eq!(find_location(&locs, &vec![4, 0, 2]), None);
    assert_eq!(find_location(&locs, &vec![4, 1]), None);
}

#[test]
fn missing_comment_aborts_generation() {
    let outer = message("Outer", vec![field("x", 1, Label::Optional, FieldType::Int32, "")], Vec::new());
    let g = graph_of("pkg", &[&outer]);
    let f = file("pkg", "proto3", vec![outer], vec![loc(&[4, 0])]);
    let mut buf = s("keep");
    let r = CodeGenerator::generate(&config(), &g, f, &mut buf);
    assert_eq!(r.err(), Some(GenError::MissingComment));
    assert_eq!(buf, "keep");
}

#[test]
fn unknown_syntax_is_rejected() {
    assert_eq!(parse_syntax(&Some(s("proto4"))), Err(GenError::UnknownSyntax));
    assert_eq!(parse_syntax(&None), Ok(Syntax::Proto2));
    assert_eq!(parse_syntax(&Some(s("proto3"))), Ok(Syntax::Proto3));
    let mut buf = String::new();
    let f = file("pkg", "proto1", Vec::new(), Vec::new());
    let r = CodeGenerator::generate(&config(), &MessageGraph::new(), f, &mut buf);
    assert_eq!(r.err(), Some(GenError::UnknownSyntax));
}

#[test]
fn end_to_end_outer_inner() {
    let mut nums = field("nums", 2, Label::Repeated, FieldType::Int32, "");
    nums.packed = Some(true);
    let inner = message("Inner", Vec::new(), Vec::new());
    let outer = message(
        "Outer",
        vec![field("inner", 1, Label::Optional, FieldType::Message, ".pkg.Outer.Inner"), nums],
        vec![inner],
    );
    let g = graph_of("pkg", &[&outer]);
    let f = file(
        "pkg",
        "proto3",
        vec![outer],
        vec![loc(&[4, 0]), loc(&[4, 0, 2, 0]), loc(&[4, 0, 2, 1]), loc(&[4, 0, 3, 0]), loc(&[4]), loc(&[4, 0, 2])],
    );
    let mut buf = String::new();
    let services = CodeGenerator::generate(&config(), &g, f, &mut buf).unwrap();
    assert!(services.is_empty());
    let expected = "#[derive(Clone, PartialEq, Message)]\n\
pub struct Outer {\n\
\x20   #[prost(message, tag=\"1\")]\n\
\x20   pub inner: outer::Inner,\n\
\x20   #[prost(int32, repeated, tag=\"2\")]\n\
\x20   pub nums: ::std::vec::Vec<i32>,\n\
}\n\
pub mod outer {\n\
\x20   #[derive(Clone, PartialEq, Message)]\n\
\x20   pub struct Inner {\n\
\x20   }\n\
}\n";
    assert_eq!(buf, expected);
}

#[test]
fn unpacked_mark_in_proto2() {
    let nums = field("nums", 3, Label::Repeated, FieldType::Sint64, "");
    let m = message("M", vec![nums], Vec::new());
    let g = graph_of("p", &[&m]);
    let f = file("p", "proto2", vec![m], vec![loc(&[4, 0]), loc(&[4, 0, 2, 0])]);
    let mut buf = String::new();
    CodeGenerator::generate(&config(), &g, f, &mut buf).unwrap();
    assert!(buf.contains("#[prost(sint64, repeated, packed=\"false\", tag=\"3\")]\n"));
}

#[test]
fn recursive_field_is_boxed() {
    let node = message(
        "Node",
        vec![field("next", 1, Label::Optional, FieldType::Message, ".p.Node")],
        Vec::new(),
    );
    let other = message(
        "Other",
        vec![field("node", 1, Label::Optional, FieldType::Message, ".p.Node")],
        Vec::new(),
    );
    let g = graph_of("p", &[&node, &other]);
    assert!(field_boxed(&g, ".p.Node", &node.fields[0]));
    assert!(!field_boxed(&g, ".p.Other", &other.fields[0]));
    let f = file("p", "proto3", vec![node, other], vec![loc(&[4, 0]), loc(&[4, 0, 2, 0]), loc(&[4, 1]), loc(&[4, 1, 2, 0])]);
    let mut buf = String::new();
    CodeGenerator::generate(&config(), &g, f, &mut buf).unwrap();
    assert!(buf.contains("#[prost(message, boxed, tag=\"1\")]\n    pub next: ::std::boxed::Box<Node>,\n"));
    assert!(buf.contains("#[prost(message, tag=\"1\")]\n    pub node: Node,\n"));
}

#[test]
fn mutual_recursion_is_boxed() {
    let a = message("A", vec![field("b", 1, Label::Optional, FieldType::Message, ".p.B")], Vec::new());
    let b = message("B", vec![field("a", 1, Label::Optional, FieldType::Message, ".p.A")], Vec::new());
    let g = graph_of("p", &[&a, &b]);
    assert!(g.is_nested(".p.B", ".p.A"));
    assert!(g.is_nested(".p.A", ".p.A"));
    assert!(!g.is_nested(".p.A", ".p.C"));
    assert!(field_boxed(&g, ".p.A", &a.fields[0]));
    let mut rep = field("bs", 2, Label::Repeated, FieldType::Message, ".p.B");
    rep.oneof_index = None;
    assert!(!field_boxed(&g, ".p.A", &rep));
}

#[test]
fn map_entry_becomes_map_field() {
    let mut entry = message(
        "ValuesEntry",
        vec![
            field("key", 1, Label::Optional, FieldType::String, ""),
            field("value", 2, Label::Optional, FieldType::Int32, ""),
        ],
        Vec::new(),
    );
    entry.map_entry = true;
    let m = message(
        "M",
        vec![field("values", 1, Label::Repeated, FieldType::Message, ".p.M.ValuesEntry")],
        vec![entry],
    );
    let (plain, maps) = split_nested(&m.nested);
    assert!(plain.is_empty());
    assert_eq!(maps, vec![0]);
    let g = graph_of("p", &[&m]);
    let f = file("p", "proto3", vec![m], vec![loc(&[4, 0]), loc(&[4, 0, 2, 0])]);
    let mut buf = String::new();
    CodeGenerator::generate(&config(), &g, f, &mut buf).unwrap();
    assert_eq!(
        buf,
        "#[derive(Clone, PartialEq, Message)]\npub struct M {\n    #[prost(map=\"string, int32\", tag=\"1\")]\n    pub values: ::std::collections::HashMap<String, i32>,\n}\n"
    );
}

#[test]
fn malformed_map_entry_is_rejected() {
    let mut entry = message("ValuesEntry", vec![field("value", 1, Label::Optional, FieldType::Int32, "")], Vec::new());
    entry.map_entry = true;
    let m = message("M", Vec::new(), vec![entry]);
    let f = file("p", "proto3", vec![m], vec![loc(&[4, 0])]);
    let mut buf = String::new();
    let r = CodeGenerator::generate(&config(), &MessageGraph::new(), f, &mut buf);
    assert_eq!(r.err(), Some(GenError::MalformedMapEntry));
}

#[test]
fn enum_with_alias_and_prefix() {
    let e = EnumDescriptor {
        name: s("Color"),
        values: vec![
            EnumValueDescriptor { name: s("COLOR_RED"), number: 1 },
            EnumValueDescriptor { name: s("COLOR_CRIMSON"), number: 1 },
            EnumValueDescriptor { name: s("COLOR_BLUE"), number: 2 },
        ],
    };
    let f = FileDescriptor {
        package: s("p"),
        syntax: None,
        messages: Vec::new(),
        enums: vec![e],
        services: Vec::new(),
        locations: vec![loc(&[5, 0]), loc(&[5, 0, 2, 0]), loc(&[5, 0, 2, 2])],
    };
    let mut buf = String::new();
    CodeGenerator::generate(&config(), &MessageGraph::new(), f, &mut buf).unwrap();
    assert_eq!(
        buf,
        "#[derive(Clone, Copy, Debug, PartialEq, Eq, Hash, PartialOrd, Ord, Enumeration)]\npub enum Color {\n    Red = 1,\n    Blue = 2,\n}\n"
    );
}

#[test]
fn oneof_fields_and_type() {
    let mut a = field("a", 5, Label::Optional, FieldType::Int32, "");
    a.oneof_index = Some(0);
    let mut b = field("b", 3, Label::Optional, FieldType::String, "");
    b.oneof_index = Some(0);
    let mut m = message("M", vec![a, b], Vec::new());
    m.oneofs = vec![OneofDescriptor { name: s("choice") }];
    let f = file(
        "p",
        "proto3",
        vec![m],
        vec![loc(&[4, 0]), loc(&[4, 0, 8, 0]), loc(&[4, 0, 2, 0]), loc(&[4, 0, 2, 1])],
    );
    let g = MessageGraph::new();
    let mut buf = String::new();
    CodeGenerator::generate(&config(), &g, f, &mut buf).unwrap();
    assert!(buf.contains("    #[prost(oneof=\"m::Choice\", tags=\"3, 5\")]\n    pub choice: ::std::option::Option<m::Choice>,\n"));
    assert!(buf.contains("pub mod m {\n    #[derive(Clone, Oneof, PartialEq)]\n    pub enum Choice {\n        #[prost(int32, tag=\"5\")]\n        A(i32),\n        #[prost(string, tag=\"3\")]\n        B(String),\n    }\n}\n"));
}

#[test]
fn oneof_count_mismatch_is_rejected() {
    let mut a = field("a", 1, Label::Optional, FieldType::Int32, "");
    a.oneof_index = Some(1);
    let mut m = message("M", vec![a], Vec::new());
    m.oneofs = vec![OneofDescriptor { name: s("choice") }];
    let f = file("p", "proto3", vec![m], vec![loc(&[4, 0])]);
    let mut buf = String::new();
    let r = CodeGenerator::generate(&config(), &MessageGraph::new(), f, &mut buf);
    assert_eq!(r.err(), Some(GenError::OneofMismatch));
}

#[test]
fn group_oneofs() {
    let idx = vec![Some(1), None, Some(0), Some(1)];
    assert_eq!(group_oneof_fields(&idx, 2), Some(vec![vec![2], vec![0, 3]]));
    assert_eq!(group_oneof_fields(&idx, 3), None);
    assert_eq!(group_oneof_fields(&vec![Some(2)], 1), None);
    assert_eq!(group_oneof_fields(&vec![None], 0), Some(vec![]));
}

#[test]
fn bytes_and_enum_defaults() {
    let mut data = field("data", 1, Label::Optional, FieldType::Bytes, "");
    data.default_value = Some(s("a\\001\""));
    let mut kind = field("kind", 2, Label::Optional, FieldType::Enum, ".p.Kind");
    kind.default_value = Some(s("KIND_ONE"));
    let mut n = field("n", 3, Label::Optional, FieldType::Int32, "");
    n.default_value = Some(s("-7"));
    let m = message("M", vec![data, kind, n], Vec::new());
    let f = file("p", "proto2", vec![m], vec![loc(&[4, 0]), loc(&[4, 0, 2, 0]), loc(&[4, 0, 2, 1]), loc(&[4, 0, 2, 2])]);
    let mut buf = String::new();
    CodeGenerator::generate(&config(), &MessageGraph::new(), f, &mut buf).unwrap();
    assert!(buf.contains("#[prost(bytes, optional, tag=\"1\", default=\"b\\\"a\\\\x01\\\\\\\"\\\"\")]\n"));
    assert!(buf.contains("#[prost(enumeration=\"Kind\", optional, tag=\"2\", default=\"One\")]\n"));
    assert!(buf.contains("#[prost(int32, optional, tag=\"3\", default=\"-7\")]\n    pub n: ::std::option::Option<i32>,\n"));
}

#[test]
fn bad_bytes_default_is_rejected() {
    let mut data = field("data", 1, Label::Optional, FieldType::Bytes, "");
    data.default_value = Some(s("\\z"));
    let m = message("M", vec![data], Vec::new());
    let f = file("p", "proto2", vec![m], vec![loc(&[4, 0]), loc(&[4, 0, 2, 0])]);
    let mut buf = String::new();
    let r = CodeGenerator::generate(&config(), &MessageGraph::new(), f, &mut buf);
    assert_eq!(r.err(), Some(GenError::BadDefault));
}

#[test]
fn well_known_and_mapped_types() {
    let mut c = config();
    let name: Vec<char> = ".google.protobuf.Timestamp".chars().collect();
    assert_eq!(well_known_type(&c, &name), Some(s("::prost_types::Timestamp")));
    let empty: Vec<char> = ".google.protobuf.Empty".chars().collect();
    assert_eq!(known_type(&c, &empty), Some(s("()")));
    c.prost_types = false;
    assert_eq!(well_known_type(&c, &name), None);
    c.mapped_types = vec![(s(".google.protobuf.Timestamp"), s("my::Time"))];
    assert_eq!(known_type(&c, &name), Some(s("my::Time")));
    let other: Vec<char> = ".p.X".chars().collect();
    assert_eq!(known_type(&c, &other), None);
}

#[test]
fn field_types_and_tags() {
    let scope = vec![s("p")];
    let e = field("e", 1, Label::Optional, FieldType::Enum, ".p.sub.Kind");
    assert_eq!(field_type_tag(&scope, &e).unwrap(), "enumeration=\"sub::Kind\"");
    assert_eq!(resolve_type(&config(), &scope, &e).unwrap(), "i32");
    let d = field("d", 2, Label::Optional, FieldType::Double, "");
    assert_eq!(field_type_tag(&scope, &d).unwrap(), "double");
    assert_eq!(resolve_type(&config(), &scope, &d).unwrap(), "f64");
    let w = field("w", 3, Label::Optional, FieldType::Message, ".google.protobuf.BoolValue");
    assert_eq!(resolve_type(&config(), &scope, &w).unwrap(), "bool");
    let bad = field("x", 4, Label::Optional, FieldType::Enum, "Kind");
    assert_eq!(field_type_tag(&scope, &bad), Err(GenError::NotQualified));
    assert!(can_pack(FieldType::Fixed32));
    assert!(!can_pack(FieldType::Bytes));
    assert!(optional(Syntax::Proto2, &d));
    assert!(!optional(Syntax::Proto3, &d));
    assert!(!optional(Syntax::Proto3, &w));
    assert!(optional(Syntax::Proto2, &w));
}

#[test]
fn rule_matching() {
    let msg: Vec<char> = ".pkg.Msg".chars().collect();
    assert!(match_ident(".", &msg, None));
    assert!(match_ident(".pkg", &msg, None));
    assert!(!match_ident(".pk", &msg, None));
    assert!(match_ident("Msg.field", &msg, Some("field")));
    assert!(!match_ident("sg.field", &msg, Some("field")));
    assert!(!match_ident("", &msg, None));
}

#[test]
fn services_are_described() {
    let mut c = config();
    c.service_generator = true;
    let svc = ServiceDescriptor {
        name: s("greeter_service"),
        methods: vec![MethodDescriptor {
            name: s("SayHello"),
            input_type: s(".p.HelloRequest"),
            output_type: s(".google.protobuf.Empty"),
            client_streaming: false,
            server_streaming: true,
            options: MethodOptions::default(),
        }],
        options: ServiceOptions::default(),
    };
    let mut f = file("p", "proto3", Vec::new(), vec![loc(&[6, 0]), loc(&[6, 0, 2, 0])]);
    f.services = vec![svc];
    f.locations[0].lines = vec![s(" Greets.")];
    let mut buf = String::new();
    let services = CodeGenerator::generate(&c, &MessageGraph::new(), f, &mut buf).unwrap();
    assert_eq!(services.len(), 1);
    assert_eq!(services[0].name, "GreeterService");
    assert_eq!(services[0].proto_name, "greeter_service");
    assert_eq!(services[0].package, "p");
    assert_eq!(services[0].comments, vec![s(" Greets.")]);
    assert_eq!(services[0].methods[0].name, "say_hello");
    assert_eq!(services[0].methods[0].input_type, "HelloRequest");
    assert_eq!(services[0].methods[0].output_type, "()");
    assert!(services[0].methods[0].server_streaming);
}

#[test]
fn doc_comments_are_indented() {
    let m = message("M", vec![field("x", 1, Label::Optional, FieldType::Bool, "")], Vec::new());
    let mut f = file("p", "proto3", vec![m], vec![loc(&[4, 0]), loc(&[4, 0, 2, 0])]);
    f.locations[0].lines = vec![s(" A message.")];
    f.locations[1].lines = vec![s(" One."), s(" Two.")];
    let mut buf = String::new();
    CodeGenerator::generate(&config(), &MessageGraph::new(), f, &mut buf).unwrap();
    assert!(buf.starts_with("/// A message.\n#[derive"));
    assert!(buf.contains("    /// One.\n    /// Two.\n    #[prost(bool, tag=\"1\")]\n    pub x: bool,\n"));
}

#[test]
fn module_path_of_package() {
    let f = file("foo.BarBaz..q", "proto3", Vec::new(), Vec::new());
    assert_eq!(module(&f), vec![s("foo"), s("bar_baz"), s("q")]);
}

#[test]
fn sorting_numbers() {
    assert_eq!(sort_numbers(&vec![5, -1, 3, 3]), vec![-1, 3, 3, 5]);
    assert_eq!(sort_numbers(&vec![]), Vec::<i32>::new());
}

#[test]
fn attributes_and_btree_maps() {
    let mut c = config();
    c.type_attributes = vec![(s(".p.M"), s("#[derive(Eq)]")), (s(".q"), s("#[never]"))];
    c.field_attributes = vec![(s("M.values"), s("#[serde(default)]"))];
    c.btree_map = vec![s(".")];
    let mut entry = message(
        "ValuesEntry",
        vec![
            field("key", 1, Label::Optional, FieldType::Int64, ""),
            field("value", 2, Label::Optional, FieldType::Enum, ".p.Kind"),
        ],
        Vec::new(),
    );
    entry.map_entry = true;
    let m = message(
        "M",
        vec![field("values", 1, Label::Repeated, FieldType::Message, ".p.M.ValuesEntry")],
        vec![entry],
    );
    let f = file("p", "proto3", vec![m], vec![loc(&[4, 0]), loc(&[4, 0, 2, 0])]);
    let mut buf = String::new();
    CodeGenerator::generate(&c, &MessageGraph::new(), f, &mut buf).unwrap();
    assert_eq!(
        buf,
        "#[derive(Clone, PartialEq, Message)]\n#[derive(Eq)]\npub struct M {\n    #[prost(btree_map=\"int64, enumeration(Kind)\", tag=\"1\")]\n    #[serde(default)]\n    pub values: ::std::collections::BTreeMap<i64, i32>,\n}\n"
    );
}

#[test]
fn well_known_message_is_skipped() {
    let m = message("Timestamp", vec![field("seconds", 1, Label::Optional, FieldType::Int64, "")], Vec::new());
    let f = file("google.protobuf", "proto3", vec![m], Vec::new());
    let mut buf = String::new();
    CodeGenerator::generate(&config(), &MessageGraph::new(), f, &mut buf).unwrap();
    assert_eq!(buf, "");
}

#[test]
fn group_fields_are_skipped() {
    let g = field("legacy", 1, Label::Optional, FieldType::Group, ".p.M.Legacy");
    let m = message("M", vec![g], Vec::new());
    let f = file("p", "proto2", vec![m], vec![loc(&[4, 0])]);
    let mut buf = String::new();
    CodeGenerator::generate(&config(), &MessageGraph::new(), f, &mut buf).unwrap();
    assert_eq!(buf, "#[derive(Clone, PartialEq, Message)]\npub struct M {\n}\n");
}

#[test]
fn enum_default_strips_converted_enum_name() {
    let mut kind = field("kind", 1, Label::Optional, FieldType::Enum, ".p.foo_bar");
    kind.default_value = Some(s("FOO_BAR_BAZ"));
    let m = message("M", vec![kind], Vec::new());
    let f = file("p", "proto2", vec![m], vec![loc(&[4, 0]), loc(&[4, 0, 2, 0])]);
    let mut buf = String::new();
    CodeGenerator::generate(&config(), &MessageGraph::new(), f, &mut buf).unwrap();
    assert!(buf.contains("#[prost(enumeration=\"FooBar\", optional, tag=\"1\", default=\"Baz\")]\n"));
}

#[test]
fn map_entry_with_extra_field_is_rejected() {
    let mut entry = message(
        "ValuesEntry",
        vec![
            field("key", 1, Label::Optional, FieldType::String, ""),
            field("value", 2, Label::Optional, FieldType::Int32, ""),
            field("extra", 3, Label::Optional, FieldType::Int32, ""),
        ],
        Vec::new(),
    );
    entry.map_entry = true;
    let m = message("M", Vec::new(), vec![entry]);
    let f = file("p", "proto3", vec![m], vec![loc(&[4, 0])]);
    let mut buf = String::new();
    let r = CodeGenerator::generate(&config(), &MessageGraph::new(), f, &mut buf);
    assert_eq!(r.err(), Some(GenError::MalformedMapEntry));
}

#[test]
fn service_missing_method_comment_fails() {
    let mut c = config();
    c.service_generator = true;
    let svc = ServiceDescriptor {
        name: s("S"),
        methods: vec![MethodDescriptor {
            name: s("M"),
            input_type: s(".p.A"),
            output_type: s(".p.B"),
            client_streaming: true,
            server_streaming: false,
            options: MethodOptions::default(),
        }],
        options: ServiceOptions::default(),
    };
    let mut f = file("p", "proto3", Vec::new(), vec![loc(&[6, 0])]);
    f.services = vec![svc];
    let mut buf = String::new();
    let r = CodeGenerator::generate(&c, &MessageGraph::new(), f, &mut buf);
    assert_eq!(r.err(), Some(GenError::MissingComment));
}
