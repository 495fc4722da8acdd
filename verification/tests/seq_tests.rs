use kaitai::document::{Entry, Node};
use kaitai::error::Error;
use kaitai::hir::{
    Attribute, Attributes, Contents, DocSpec, MetaSpec, Repeat, TypeDef, VariableContents,
};
use kaitai::document::parse_document;
use kaitai::resolve::{enums, meta};
use kaitai::schema::Endianness;

fn doc_pairs(source: &str) -> Vec<Entry> {
    match parse_document(source).expect("document should load") {
        Node::Dict(pairs) => pairs,
        other => panic!("expected a mapping, got {:?}", other),
    }
}

#[test]
fn no_seq() {
    let input: Vec<Entry> = Vec::new();

    let result = kaitai::resolve::seq(&input);

    assert_eq!(
        result.unwrap_err(),
        Error::RequiredAttrNotFound("seq".to_owned())
    );
}

#[test]
fn missing_type() {
    let map = doc_pairs(
        "
seq:
  - id: foo\0",
    );

    let result = kaitai::resolve::seq(&map);

    assert_eq!(
        result.unwrap_err(),
        Error::RequiredAttrNotFound("type".to_owned())
    );
}

#[test]
fn wrong_id_type() {
    let map = doc_pairs(
        "
seq:
  - id: 3
    type: example_type\0",
    );

    let result = kaitai::resolve::seq(&map);

    assert_eq!(
        result.unwrap_err(),
        Error::InvalidAttrType {
            attr: "id".to_owned(),
            pat: "Yaml::String(s)".to_owned(),
            actual: Node::Int(3),
        }
    );
}

#[test]
fn all_attributes() {
    let map = doc_pairs(
        "
seq:
  - id: example_id
    type: example_type
    doc: foo
    doc-ref: bar
    repeat: eos
  - id: example_id
    type: example_type
    doc: foo
    doc-ref: bar
    repeat: eos\0",
    );

    let result = kaitai::resolve::seq(&map);

    assert_eq!(
        result.unwrap(),
        Attributes(vec![
            Attribute {
                id: "example_id".to_owned(),
                doc: DocSpec {
                    description: Some("foo".to_owned()),
                    reference: Some("bar".to_owned()),
                },
                contents: Contents::Variable(VariableContents {
                    ty: TypeDef::Custom("ExampleType".to_owned()),
                    enum_ident: None,
                    repeat: Some(Repeat::Eos),
                }),
            },
            Attribute {
                id: "example_id".to_owned(),
                doc: DocSpec {
                    description: Some("foo".to_owned()),
                    reference: Some("bar".to_owned()),
                },
                contents: Contents::Variable(VariableContents {
                    ty: TypeDef::Custom("ExampleType".to_owned()),
                    enum_ident: None,
                    repeat: Some(Repeat::Eos),
                }),
            },
        ])
    );
}

#[test]
fn attribute_enum() {
    let map = doc_pairs(
        "
seq:
  - id: protocol
    enum: ip_protocol
  - id: another_thing
    enum: enum_id\0",
    );

    let _map = map;
}

#[test]
fn contents_without_type() {
    let map = doc_pairs(
        "
seq:
  - contents: glTF\0",
    );

    let result = kaitai::resolve::seq(&map).unwrap();
    assert_eq!(result.0.len(), 1);
    assert!(matches!(result.0[0].contents, Contents::Fixed(_)));
}

#[test]
fn enum_on_non_scalar_is_rejected() {
    let map = doc_pairs(
        "
seq:
  - id: body
    type: custom_thing
    enum: some_enum\0",
    );

    let result = kaitai::resolve::seq(&map);

    assert_eq!(
        result.unwrap_err(),
        Error::EnumLookupNotApplicable("some_enum".to_owned())
    );
}

#[test]
fn meta_endianness_tokens() {
    let map = doc_pairs(
        "
meta:
  endian: be\0",
    );
    assert_eq!(
        meta(&map, None).unwrap(),
        MetaSpec { endianness: Endianness::Be }
    );

    let map = doc_pairs(
        "
meta:
  endian: upside-down\0",
    );
    assert_eq!(meta(&map, None).unwrap_err(), Error::InvalidEndianness);
}

#[test]
fn meta_missing_without_inheritance() {
    let map = doc_pairs("irrelevant: 1\0");
    assert_eq!(
        meta(&map, None).unwrap_err(),
        Error::RequiredAttrNotFound("meta".to_owned())
    );

    let inherited = MetaSpec { endianness: Endianness::Le };
    assert_eq!(meta(&map, Some(inherited)).unwrap(), inherited);
}

#[test]
fn enums_resolved_and_canonicalized() {
    let map = doc_pairs(
        "
enums:
  ip_protocol:
    1: icmp
    6: tcp
    17: udp\0",
    );

    let result = enums(&map).unwrap();
    assert_eq!(result.0.len(), 1);
    assert_eq!(result.0[0].ident, "IpProtocol");
    assert_eq!(result.0[0].variants.len(), 3);
    assert_eq!(result.0[0].variants[0].ident, "Icmp");
    assert_eq!(result.0[0].variants[0].value, 1);
    assert_eq!(result.0[0].variants[2].ident, "Udp");
    assert_eq!(result.0[0].variants[2].value, 17);

    assert_eq!(result.0[0].n(6), Some("Tcp".to_owned()));
    assert_eq!(result.0[0].n(2), None);
}

#[test]
fn unresolved_type_reference_is_rejected() {
    let ty = kaitai::compile(
        "
meta:
  endian: le
seq:
  - id: body
    type: missing_piece\0",
        "Example",
    );

    assert_eq!(
        ty.unwrap_err(),
        Error::UnresolvedTypeReference("MissingPiece".to_owned())
    );
}

#[test]
fn nested_type_inherits_endianness() {
    let ty = kaitai::compile(
        "
meta:
  endian: be
seq:
  - id: inner
    type: sub
types:
  sub:
    seq:
      - id: x
        type: u2\0",
        "Example",
    );

    let ty = ty.unwrap();
    assert_eq!(ty.endianness, Endianness::Be);
    assert_eq!(ty.types.len(), 1);
    assert_eq!(ty.types[0].id, "Sub");
    assert_eq!(ty.types[0].endianness, Endianness::Be);
}

#[test]
fn nested_type_explicit_endianness_wins() {
    let ty = kaitai::compile(
        "
meta:
  endian: be
seq:
  - id: inner
    type: sub
types:
  sub:
    meta:
      endian: le
    seq:
      - id: x
        type: u2\0",
        "Example",
    );

    let ty = ty.unwrap();
    assert_eq!(ty.endianness, Endianness::Be);
    assert_eq!(ty.types[0].endianness, Endianness::Le);
}

#[test]
fn root_without_endianness_is_fatal() {
    let ty = kaitai::compile(
        "
seq:
  - id: x
    type: u2\0",
        "Example",
    );

    assert_eq!(
        ty.unwrap_err(),
        Error::RequiredAttrNotFound("meta".to_owned())
    );
}

#[test]
fn field_declarations_skip_fixed_contents() {
    let map = doc_pairs(
        "
seq:
  - id: temp1
    type: u4
  - id: temp2
    type: custom_type_defined_elsewhere
  - id: temp3
    contents: hello\0",
    );

    let attrs = kaitai::resolve::seq(&map).unwrap();
    let decls = attrs.field_declarations();
    assert_eq!(decls.len(), 2);
    assert_eq!(decls[0].id, "temp1");
    assert!(matches!(
        decls[0].ty,
        kaitai::emit::BaseType::BuiltIn(kaitai::hir::BuiltIn::U32)
    ));
    assert!(!decls[0].repeated);
    assert_eq!(decls[1].id, "temp2");
    assert!(matches!(decls[1].ty, kaitai::emit::BaseType::Named(ref n) if n == "CustomTypeDefinedElsewhere"));
}

#[test]
fn gendoc_header_and_list() {
    assert_eq!(kaitai::gendoc::header("References"), "### References\n");
    let items = vec!["one".to_owned(), "two".to_owned()];
    assert_eq!(kaitai::gendoc::list(&items), "- one\n- two\n");
}

#[test]
fn gendoc_doc_attr() {
    let doc = kaitai::schema::Doc {
        doc: Some("A format.".to_owned()),
        doc_ref: vec!["somewhere".to_owned()],
    };
    let text = kaitai::gendoc::doc_attr(&doc, None);
    assert_eq!(text, "A format.\n### References\n- somewhere\n");
}

#[test]
fn attribute_that_is_no_mapping_is_rejected() {
    let map = doc_pairs(
        "
seq:
  - 3\0",
    );

    let result = kaitai::resolve::seq(&map);

    assert_eq!(result.unwrap_err(), Error::InvalidAttribute(Node::Int(3)));
}

#[test]
fn contents_array_must_hold_bytes() {
    let map = doc_pairs(
        "
seq:
  - id: magic
    contents: [1, 300]\0",
    );

    let result = kaitai::resolve::seq(&map);

    assert_eq!(
        result.unwrap_err(),
        Error::InvalidAttrType {
            attr: "contents".to_owned(),
            pat: "Yaml::Integer(i)".to_owned(),
            actual: Node::Int(300),
        }
    );
}

#[test]
fn switch_type_is_represented() {
    let map = doc_pairs(
        "
seq:
  - id: len
    type: u1
  - id: body
    type:
      switch-on: len
      cases:
        1: u1
        2: u2\0",
    );

    let result = kaitai::resolve::seq(&map).unwrap();
    match &result.0[1].contents {
        Contents::Variable(vc) => match &vc.ty {
            TypeDef::Switch { on, cases } => {
                assert_eq!(on, "len");
                assert_eq!(cases.len(), 2);
            }
            other => panic!("expected a switch, got {:?}", other),
        },
        other => panic!("expected a stored attribute, got {:?}", other),
    }
}

#[test]
fn doc_ref_normalizes_to_a_list() {
    let map = doc_pairs(
        "
doc: described
doc-ref:
  - one
  - two\0",
    );
    let doc = kaitai::parse::parse_doc(&map).unwrap();
    assert_eq!(doc.doc, Some("described".to_owned()));
    assert_eq!(doc.doc_ref, vec!["one".to_owned(), "two".to_owned()]);

    let map = doc_pairs("doc-ref: 1234\0");
    let doc = kaitai::parse::parse_doc(&map).unwrap();
    assert_eq!(doc.doc_ref, vec!["1234".to_owned()]);
}

#[test]
fn types_are_surfaced_under_canonical_names() {
    let map = doc_pairs(
        "
types:
  sub_one:
    seq: []
  sub_two:
    seq: []\0",
    );
    let decls = kaitai::resolve::get_types(&map).unwrap();
    assert_eq!(decls.len(), 2);
    assert_eq!(decls[0].ident, "SubOne");
    assert_eq!(decls[1].ident, "SubTwo");
}

#[test]
fn attribute_field_definitions() {
    let attrs = vec![
        Attribute {
            id: "bitch".to_owned(),
            doc: DocSpec { description: None, reference: None },
            contents: Contents::Fixed(kaitai::schema::FixedContents::Array(vec![0, 1])),
        },
        Attribute {
            id: "dont".to_owned(),
            doc: DocSpec { description: None, reference: None },
            contents: Contents::Variable(VariableContents {
                ty: TypeDef::Custom("MyType".to_owned()),
                enum_ident: None,
                repeat: None,
            }),
        },
        Attribute {
            id: "kill".to_owned(),
            doc: DocSpec { description: None, reference: None },
            contents: Contents::Variable(VariableContents {
                ty: TypeDef::BuiltIn(kaitai::hir::BuiltIn::U16),
                enum_ident: None,
                repeat: None,
            }),
        },
        Attribute {
            id: "my".to_owned(),
            doc: DocSpec { description: None, reference: None },
            contents: Contents::Variable(VariableContents {
                ty: TypeDef::BuiltIn(kaitai::hir::BuiltIn::U16),
                enum_ident: Some("MyEnum".to_owned()),
                repeat: Some(Repeat::Eos),
            }),
        },
        Attribute {
            id: "vibe".to_owned(),
            doc: DocSpec { description: None, reference: None },
            contents: Contents::Variable(VariableContents {
                ty: TypeDef::Bytes(kaitai::hir::Size::Eos),
                enum_ident: None,
                repeat: Some(Repeat::Eos),
            }),
        },
    ];

    let decls: Vec<Option<kaitai::emit::FieldDecl>> =
        attrs.iter().map(|a| a.declaration()).collect();

    assert!(decls[0].is_none());
    let dont = decls[1].as_ref().unwrap();
    assert_eq!(dont.id, "dont");
    assert!(matches!(dont.ty, kaitai::emit::BaseType::Named(ref n) if n == "MyType"));
    assert!(!dont.repeated);
    let kill = decls[2].as_ref().unwrap();
    assert!(matches!(
        kill.ty,
        kaitai::emit::BaseType::BuiltIn(kaitai::hir::BuiltIn::U16)
    ));
    assert!(!kill.repeated);
    let my = decls[3].as_ref().unwrap();
    assert!(matches!(my.ty, kaitai::emit::BaseType::Named(ref n) if n == "MyEnum"));
    assert!(my.repeated);
    let vibe = decls[4].as_ref().unwrap();
    assert!(matches!(vibe.ty, kaitai::emit::BaseType::Bytes));
    assert!(vibe.repeated);
}

#[test]
fn doc_comment_of_resolved_item() {
    let d = DocSpec {
        description: Some("stored field".to_owned()),
        reference: Some("the format book".to_owned()),
    };
    assert_eq!(d.doc_comment(), "stored field\n### Reference\nthe format book");
    let empty = DocSpec { description: None, reference: None };
    assert_eq!(empty.doc_comment(), "");
}
