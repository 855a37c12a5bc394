use chunk_lang::{parse_str, ErrorKind, NumberKind, Parser, Value};

const SAMPLE: &str = r#"
#_type(chunk)
@main:
--> document_name: String
    document_author: String

#_type(chunk)
@song_info:
--> name: String
    artist: String[]
    released_year: Int?


#_chunk
@main:
--> document_name: "My Favorite Song"
    document_author: "decaplanet"

#_chunk
favorite_song @song_info:
--> name: "Shelter"
    artist: [
        "Porter Robinson"
        "Madeon"
    ]
    released_year: 2016
"#;

fn string_value(v: &Value) -> &str {
    match v {
        Value::String(s) => s.as_str(),
        other => panic!("not a string: {:?}", other),
    }
}

fn error_of(text: &str) -> (ErrorKind, usize) {
    match parse_str(text) {
        Ok(d) => panic!("parsed: {:?}", d),
        Err(e) => (e.kind, e.line),
    }
}

#[test]
fn test_parse_str() {
    parse_str(SAMPLE).unwrap();
}

#[test]
fn sample_schemas_and_instances() {
    let doc = parse_str(SAMPLE).unwrap();
    assert_eq!(doc.schemas.len(), 2);
    assert_eq!(doc.instances.len(), 2);
    let song = doc.schema("song_info").unwrap();
    let names: Vec<&str> = song.fields.iter().map(|f| f.name.as_str()).collect();
    assert_eq!(names, vec!["name", "artist", "released_year"]);
    assert_eq!(song.fields[1].ty.base_name, "String");
    assert!(song.fields[1].ty.is_array);
    assert!(!song.fields[1].ty.is_optional);
    assert_eq!(song.fields[2].ty.base_name, "Int");
    assert!(song.fields[2].ty.is_optional);
    assert!(!song.fields[2].ty.is_array);
    let fav = doc.instance("favorite_song").unwrap();
    assert_eq!(fav.schema_name, "song_info");
    assert_eq!(fav.declared_name.as_deref(), Some("favorite_song"));
    match &fav.fields[1].1 {
        Value::Array(items) => {
            assert_eq!(items.len(), 2);
            assert_eq!(string_value(&items[0]), "Porter Robinson");
            assert_eq!(string_value(&items[1]), "Madeon");
        }
        other => panic!("not an array: {:?}", other),
    }
    match &fav.fields[2].1 {
        Value::Number(n) => {
            assert_eq!(n.text, "2016");
            assert_eq!(n.kind, NumberKind::Integer);
        }
        other => panic!("not a number: {:?}", other),
    }
}

#[test]
fn main_document_scenario() {
    let text = "#_type(chunk)\n@main:\n--> document_name: String\n    document_author: String\n\n#_chunk\n@main:\n--> document_name: \"My Favorite Song\"\n    document_author: \"decaplanet\"\n";
    let doc = parse_str(text).unwrap();
    assert_eq!(doc.schemas.len(), 1);
    let main = doc.schema("main").unwrap();
    assert_eq!(main.fields.len(), 2);
    assert_eq!(main.fields[0].name, "document_name");
    assert_eq!(main.fields[0].ty.base_name, "String");
    assert_eq!(main.fields[1].name, "document_author");
    assert_eq!(main.fields[1].ty.base_name, "String");
    assert_eq!(doc.instances.len(), 1);
    let inst = doc.instance("main").unwrap();
    assert!(inst.declared_name.is_none());
    assert_eq!(inst.fields[0].0, "document_name");
    assert_eq!(string_value(&inst.fields[0].1), "My Favorite Song");
    assert_eq!(inst.fields[1].0, "document_author");
    assert_eq!(string_value(&inst.fields[1].1), "decaplanet");
}

#[test]
fn named_instance_key() {
    let doc = parse_str(SAMPLE).unwrap();
    assert!(doc.instance("favorite_song").is_some());
    assert!(doc.instance("song_info").is_none());
    assert_eq!(doc.instances[1].key(), "favorite_song");
}

#[test]
fn prefix_equal_to_type_is_no_declared_name() {
    let text = "#_type(chunk)\n@a:\n--> x: Int\n#_chunk\na @a:\n--> x: 1\n";
    let doc = parse_str(text).unwrap();
    assert!(doc.instances[0].declared_name.is_none());
    assert_eq!(doc.instances[0].key(), "a");
}

#[test]
fn missing_field_is_mismatch() {
    let text = "#_type(chunk)\n@main:\n--> a: String\n    b: String\n\n#_chunk\n@main:\n--> a: \"x\"\n";
    assert_eq!(error_of(text), (ErrorKind::FieldMismatch, 7));
}

#[test]
fn reordered_fields_are_mismatch() {
    let text = "#_type(chunk)\n@m:\n--> a: Int\n    b: Int\n#_chunk\n@m:\n--> b: 1\n    a: 2\n";
    assert_eq!(error_of(text), (ErrorKind::FieldMismatch, 6));
}

#[test]
fn unknown_category() {
    assert_eq!(error_of("#_type(paragraph)\n@x:\n--> a: Int\n"), (ErrorKind::UnknownCategory, 0));
}

#[test]
fn no_directives_empty_document() {
    let doc = parse_str("just text\n// a comment\n\n    indented: 1\n").unwrap();
    assert!(doc.schemas.is_empty());
    assert!(doc.instances.is_empty());
    let doc = parse_str("").unwrap();
    assert!(doc.schemas.is_empty());
    assert!(doc.instances.is_empty());
}

#[test]
fn commented_directive_is_not_a_directive() {
    let doc = parse_str("// #_type(chunk)\n@x:\n").unwrap();
    assert!(doc.schemas.is_empty());
}

#[test]
fn duplicate_field_name() {
    let text = "#_type(chunk)\n@m:\n--> a: Int\n    a: String\n";
    assert_eq!(error_of(text), (ErrorKind::DuplicateFieldName, 3));
}

#[test]
fn parse_twice_same_document() {
    let a = parse_str(SAMPLE).unwrap();
    let b = parse_str(SAMPLE).unwrap();
    assert_eq!(format!("{:?}", a), format!("{:?}", b));
}

#[test]
fn multi_line_array_keeps_order_and_count() {
    let text = "#_type(chunk)\n@m:\n--> xs: Int[]\n#_chunk\n@m:\n--> xs: [\n        3\n        1\n        2\n    ]\n";
    let doc = parse_str(text).unwrap();
    match &doc.instances[0].fields[0].1 {
        Value::Array(items) => {
            let texts: Vec<&str> = items
                .iter()
                .map(|v| match v {
                    Value::Number(n) => n.text.as_str(),
                    _ => panic!("not a number"),
                })
                .collect();
            assert_eq!(texts, vec!["3", "1", "2"]);
        }
        other => panic!("not an array: {:?}", other),
    }
}

#[test]
fn empty_multi_line_array() {
    let text = "#_type(chunk)\n@m:\n--> xs: Int[]\n#_chunk\n@m:\n--> xs: [\n    ]\n";
    let doc = parse_str(text).unwrap();
    assert!(matches!(&doc.instances[0].fields[0].1, Value::Array(items) if items.is_empty()));
}

#[test]
fn literals() {
    let text = "#_type(chunk)\n@m:\n--> a: X\n    b: X\n    c: X\n    d: X\n    e: X\n#_chunk\n@m:\n--> a: null\n    b: true\n    c: false\n    d: -1.5\n    e: \"a // b\"\n";
    let doc = parse_str(text).unwrap();
    let f = &doc.instances[0].fields;
    assert!(matches!(f[0].1, Value::Null));
    assert!(matches!(f[1].1, Value::Bool(true)));
    assert!(matches!(f[2].1, Value::Bool(false)));
    match &f[3].1 {
        Value::Number(n) => {
            assert_eq!(n.text, "-1.5");
            assert_eq!(n.kind, NumberKind::Decimal);
        }
        other => panic!("not a number: {:?}", other),
    }
    assert_eq!(string_value(&f[4].1), "a // b");
}

#[test]
fn inline_comment_is_cut() {
    let text = "#_type(chunk) // schema\n@m: // header\n--> a: Int // field\n";
    let doc = parse_str(text).unwrap();
    assert_eq!(doc.schemas[0].fields[0].ty.base_name, "Int");
}

#[test]
fn unknown_directive() {
    assert_eq!(error_of("#_record\n@x:\n"), (ErrorKind::UnknownDirective, 0));
}

#[test]
fn malformed_directive() {
    assert_eq!(error_of("#_type\n@x:\n"), (ErrorKind::MalformedDirective, 0));
    assert_eq!(error_of("#_type(chunk\n@x:\n"), (ErrorKind::MalformedDirective, 0));
    assert_eq!(error_of("#_chunk(x)\n@x:\n"), (ErrorKind::MalformedDirective, 0));
}

#[test]
fn missing_at_sign() {
    assert_eq!(error_of("#_type(chunk)\nmain:\n"), (ErrorKind::MissingAtSign, 1));
    assert_eq!(error_of("\n#_chunk"), (ErrorKind::MissingAtSign, 1));
}

#[test]
fn header_without_colon() {
    assert_eq!(error_of("#_type(chunk)\n@main\n"), (ErrorKind::MissingAtSign, 1));
    assert_eq!(error_of("#_chunk\n@\n"), (ErrorKind::EmptyName, 1));
}

#[test]
fn malformed_instance_prefix() {
    assert_eq!(error_of("#_chunk\nx@m:\n"), (ErrorKind::MissingAtSign, 1));
    assert_eq!(error_of("#_chunk\na b @m:\n"), (ErrorKind::MissingAtSign, 1));
    assert_eq!(error_of("#_chunk\na-b @m:\n"), (ErrorKind::MissingAtSign, 1));
}

#[test]
fn field_line_without_colon() {
    assert_eq!(error_of("#_type(chunk)\n@main:\n--> a Int\n"), (ErrorKind::BadTypeExpression, 2));
    let text = "#_type(chunk)\n@m:\n--> a: Int\n#_chunk\n@m:\n--> a 1\n";
    assert_eq!(error_of(text), (ErrorKind::BadLiteral, 5));
}

#[test]
fn mismatch_on_last_header_line() {
    let text = "#_type(chunk)\n@m:\n--> a: Int\n#_chunk\n@m:";
    assert_eq!(error_of(text), (ErrorKind::FieldMismatch, 4));
}

#[test]
fn unicode_blank_line_ends_block() {
    let text = "#_type(chunk)\n@m:\n--> a: Int\n    \u{0C}\n    \u{A0}\n";
    let doc = parse_str(text).unwrap();
    assert_eq!(doc.schemas[0].fields.len(), 1);
}

#[test]
fn empty_name() {
    assert_eq!(error_of("#_type(chunk)\n@:\n"), (ErrorKind::EmptyName, 1));
    assert_eq!(error_of("#_type(chunk)\n@m:\n--> : Int\n"), (ErrorKind::EmptyName, 2));
}

#[test]
fn unterminated_array() {
    let text = "#_type(chunk)\n@m:\n--> xs: Int[]\n#_chunk\n@m:\n--> xs: [\n        1\n\n";
    assert_eq!(error_of(text), (ErrorKind::UnterminatedArray, 5));
    let text = "#_type(chunk)\n@m:\n--> xs: Int[]\n#_chunk\n@m:\n--> xs: [\n        1";
    assert_eq!(error_of(text), (ErrorKind::UnterminatedArray, 5));
}

#[test]
fn bad_type_expression() {
    assert_eq!(error_of("#_type(chunk)\n@m:\n--> a: Int[]?\n"), (ErrorKind::BadTypeExpression, 2));
    assert_eq!(error_of("#_type(chunk)\n@m:\n--> a: \n"), (ErrorKind::BadTypeExpression, 2));
}

#[test]
fn bad_literal() {
    let text = "#_type(chunk)\n@m:\n--> a: Int\n#_chunk\n@m:\n--> a: 1.2.3\n";
    assert_eq!(error_of(text), (ErrorKind::BadLiteral, 5));
    let text = "#_type(chunk)\n@m:\n--> a: Int\n#_chunk\n@m:\n--> a: [1, 2]\n";
    assert_eq!(error_of(text), (ErrorKind::BadLiteral, 5));
}

#[test]
fn duplicate_schema_name() {
    let text = "#_type(chunk)\n@m:\n--> a: Int\n#_type(chunk)\n@m:\n--> b: Int\n";
    assert_eq!(error_of(text), (ErrorKind::DuplicateSchemaName, 4));
}

#[test]
fn unknown_schema() {
    assert_eq!(error_of("#_chunk\n@m:\n--> a: 1\n"), (ErrorKind::UnknownSchema, 1));
}

#[test]
fn duplicate_instance_name() {
    let text = "#_type(chunk)\n@m:\n--> a: Int\n#_chunk\n@m:\n--> a: 1\n#_chunk\n@m:\n--> a: 2\n";
    assert_eq!(error_of(text), (ErrorKind::DuplicateInstanceName, 7));
}

#[test]
fn parser_value_matches_entry_point() {
    let a = Parser::new(SAMPLE).parse().unwrap();
    let b = parse_str(SAMPLE).unwrap();
    assert_eq!(format!("{:?}", a), format!("{:?}", b));
}

#[test]
fn error_messages() {
    assert_eq!(ErrorKind::UnknownCategory.message(), "unknown type category");
    assert_eq!(ErrorKind::FieldMismatch.message(), "fields do not match the schema");
    let e = parse_str("#_type(paragraph)\n").unwrap_err();
    assert_eq!(e.message(), "unknown type category");
    assert_eq!(e.line, 0);
}

#[test]
fn type_header_prefix_plays_no_part() {
    let doc = parse_str("#_type(chunk)\nfoo @m:\n--> a: Int\n").unwrap();
    assert_eq!(doc.schemas[0].name, "m");
    assert!(doc.schema("foo").is_none());
}

#[test]
fn directive_with_blanks_around() {
    let doc = parse_str("#_type(chunk)  \n@m:\n--> a: Int\n#_chunk \t\n@m:\n--> a: 7\n").unwrap();
    assert_eq!(doc.instances.len(), 1);
}
