use proctext::deserialize::{
    decode_record, parse_bool, parse_unsigned, FieldSpec, FieldValue, PrimKind, Schema,
};
use proctext::document::decode_document;
use proctext::token::{TokenKind, TokenStream};
use proctext::positional::decode_positional;
use proctext::DecodeError;

fn example_schema() -> Schema {
    Schema {
        fields: vec![
            FieldSpec::field("horse", PrimKind::Boolean),
            FieldSpec::field("value1", PrimKind::Unsigned),
            FieldSpec::field("name", PrimKind::Text),
        ],
    }
}

#[test]
fn test_deserialize() {
    let meminfo = "value1:       15 kB\nname:         Test\nhorse : yes\n";

    let parsed = decode_record(meminfo, &example_schema()).unwrap();

    assert_eq!(
        parsed.values,
        vec![
            Some(FieldValue::Boolean(true)),
            Some(FieldValue::Unsigned(15)),
            Some(FieldValue::Text(String::from("Test"))),
        ]
    );
}

#[test]
fn unit_suffix_stripping() {
    assert_eq!(parse_unsigned("15 kB"), Ok(15));
    assert_eq!(parse_unsigned("32587776 kB"), Ok(32587776));
}

#[test]
fn boolean_lexicon() {
    assert_eq!(parse_bool("yes"), Ok(true));
    assert_eq!(parse_bool("no"), Ok(false));
    assert_eq!(parse_bool("maybe"), Err(DecodeError::InvalidBool));
}

#[test]
fn array_of_records_splitting() {
    let input = "value1: 15 kB\nname: Test\nhorse: yes\n\nvalue1: 432 kB\nname: Validation\nhorse: no\n";
    let docs = decode_document(input, &example_schema()).unwrap();

    assert_eq!(docs.len(), 2);
    assert_eq!(
        docs[0].values,
        vec![
            Some(FieldValue::Boolean(true)),
            Some(FieldValue::Unsigned(15)),
            Some(FieldValue::Text(String::from("Test"))),
        ]
    );
    assert_eq!(
        docs[1].values,
        vec![
            Some(FieldValue::Boolean(false)),
            Some(FieldValue::Unsigned(432)),
            Some(FieldValue::Text(String::from("Validation"))),
        ]
    );
}

#[test]
fn trailing_characters_rejected() {
    let good = "value1: 15 kB\nname: Test\nhorse: yes\n";
    assert!(decode_record(good, &example_schema()).is_ok());

    for junk in ['x', '7', ':', '('] {
        let mut bad = String::from(good);
        bad.push(junk);
        assert_eq!(
            decode_record(&bad, &example_schema()),
            Err(DecodeError::TrailingCharacters),
            "appending {junk:?} must be rejected"
        );
    }
}

#[test]
fn idempotent_decode() {
    let input = "value1: 15 kB\nname: Test\nhorse: yes\n";
    let schema = example_schema();
    let first = decode_record(input, &schema);
    let second = decode_record(input, &schema);
    assert_eq!(first, second);

    let d1 = decode_document(input, &schema);
    let d2 = decode_document(input, &schema);
    assert_eq!(d1, d2);
}

#[test]
fn field_order_does_not_matter() {
    let forward = "horse: yes\nvalue1: 15 kB\nname: Test\n";
    let backward = "name: Test\nvalue1: 15 kB\nhorse: yes\n";
    let schema = example_schema();
    assert_eq!(
        decode_record(forward, &schema).unwrap(),
        decode_record(backward, &schema).unwrap()
    );
}

#[test]
fn unknown_keys_are_ignored() {
    let input = "surplus: anything at all\nvalue1: 15\nname: Test\nhorse: no\n";
    let parsed = decode_record(input, &example_schema()).unwrap();
    assert_eq!(parsed.values[1], Some(FieldValue::Unsigned(15)));
}

#[test]
fn missing_required_field_is_eof() {
    let input = "value1: 15\nname: Test\n";
    assert_eq!(
        decode_record(input, &example_schema()),
        Err(DecodeError::Eof)
    );
}

#[test]
fn optional_field_may_be_absent() {
    let schema = Schema {
        fields: vec![
            FieldSpec::field("value1", PrimKind::Unsigned),
            FieldSpec::optional("extra", PrimKind::Unsigned),
        ],
    };
    let parsed = decode_record("value1: 15\n", &schema).unwrap();
    assert_eq!(
        parsed.values,
        vec![Some(FieldValue::Unsigned(15)), None]
    );
}

#[test]
fn missing_separator_inside_record() {
    let input = "value1: 15\nrogue\nname: Test\nhorse: yes\n";
    assert_eq!(
        decode_record(input, &example_schema()),
        Err(DecodeError::MissingSeparator)
    );
}

#[test]
fn bad_integer_is_expected_integer() {
    let input = "value1: kB\nname: Test\nhorse: yes\n";
    assert_eq!(
        decode_record(input, &example_schema()),
        Err(DecodeError::ExpectedInteger)
    );
}

#[test]
fn bad_boolean_is_invalid_bool() {
    let input = "value1: 15\nname: Test\nhorse: neigh\n";
    assert_eq!(
        decode_record(input, &example_schema()),
        Err(DecodeError::InvalidBool)
    );
}

#[test]
fn integer_overflow_is_expected_integer() {
    assert_eq!(
        parse_unsigned("99999999999999999999999"),
        Err(DecodeError::ExpectedInteger)
    );
}

#[test]
fn positional_grammar_mismatch() {
    // No leading digits.
    assert_eq!(
        decode_positional("(name) S 1", 2),
        Err(DecodeError::GrammarMismatch)
    );
    // No parenthesized field.
    assert_eq!(
        decode_positional("17 name S 1", 2),
        Err(DecodeError::GrammarMismatch)
    );
}

#[test]
fn positional_fields_by_position() {
    let rec = decode_positional("7 (two words) S 42 -1\n", 3).unwrap();
    assert_eq!(rec.key, "7");
    assert_eq!(rec.command, "two words");
    assert_eq!(rec.fields, vec!["S", "42", "-1"]);
}

#[test]
fn positional_shape_mismatch() {
    assert_eq!(
        decode_positional("7 (name) S 42 -1\n", 4),
        Err(DecodeError::ShapeMismatch)
    );
    assert_eq!(
        decode_positional("7 (name) S 42 -1 0 0\n", 4),
        Err(DecodeError::ShapeMismatch)
    );
}

#[test]
fn empty_document_is_single_empty_record() {
    let schema = Schema {
        fields: vec![FieldSpec::optional("anything", PrimKind::Text)],
    };
    let docs = decode_document("", &schema).unwrap();
    assert_eq!(docs.len(), 1);
    assert_eq!(docs[0].values, vec![None]);
}

#[test]
fn error_messages() {
    assert_eq!(
        DecodeError::TrailingCharacters.message(),
        "Didn't parse the entirety of the input"
    );
    assert_eq!(DecodeError::ExpectedInteger.message(), "Expected an integer.");
    assert_eq!(DecodeError::InvalidBool.message(), "Value is not a bool.");
    assert_eq!(DecodeError::MissingSeparator.message(), "Missing separator.");
}

#[test]
fn token_stream_cursor() {
    let input = "value1: 15 kB\n";
    let mut st = TokenStream::new(input);

    // One lookahead is available without consuming.
    let first = st.peek().unwrap();
    assert_eq!(first.kind, TokenKind::Key);
    assert_eq!(&input[..7][first.start..first.end], "value1");

    let kinds: Vec<TokenKind> = std::iter::from_fn(|| st.next().map(|t| t.kind)).collect();
    assert_eq!(
        kinds,
        vec![
            TokenKind::Key,
            TokenKind::Separator,
            TokenKind::Value,
            TokenKind::EndOfInput,
        ]
    );
    assert!(st.next().is_none());
}
