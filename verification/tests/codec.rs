use schema_annotations::global_id::{DecodeError, GlobalID, SUPPORTED_VERSION};
use schema_annotations::hex::{hex_decode, hex_encode};
use schema_annotations::names::{FieldName, TypeName};
use schema_annotations::order::bytes_lt;

fn named(s: &str) -> TypeName {
    TypeName::new(s.as_bytes().to_vec()).unwrap()
}

fn field_name(s: &str) -> FieldName {
    FieldName { text: s.as_bytes().to_vec() }
}

fn author() -> GlobalID {
    let mut g = GlobalID::new(1, named("Author"));
    g.insert(field_name("author_id"), b"42".to_vec());
    g
}

const AUTHOR_TEXT: &str = "01000600000000000000417574686f7201000000000000000900000000000000617574686f725f696402000000000000003432";

#[test]
fn supported_version_is_one() {
    assert_eq!(SUPPORTED_VERSION, 1);
}

#[test]
fn hex_encode_writes_two_lower_case_digits_per_byte() {
    assert_eq!(hex_encode(&vec![0x00, 0xff, 0x1a, 0xa1, 0x09]), b"00ff1aa109".to_vec());
    assert_eq!(hex_encode(&vec![]), Vec::<u8>::new());
}

#[test]
fn hex_decode_reads_what_hex_encode_wrote() {
    assert_eq!(hex_decode(&b"00ff1aa109".to_vec()), Some(vec![0x00, 0xff, 0x1a, 0xa1, 0x09]));
    for b in 0..=255u8 {
        assert_eq!(hex_decode(&hex_encode(&vec![b])), Some(vec![b]));
    }
}

#[test]
fn hex_decode_refuses_odd_length_upper_case_and_other_characters() {
    assert_eq!(hex_decode(&b"0".to_vec()), None);
    assert_eq!(hex_decode(&b"0F".to_vec()), None);
    assert_eq!(hex_decode(&b"0g".to_vec()), None);
    assert_eq!(hex_decode(&b" 0".to_vec()), None);
    assert_eq!(hex_decode(&b"".to_vec()), Some(vec![]));
}

#[test]
fn bytes_lt_is_the_lexicographic_order() {
    assert!(bytes_lt(&b"a".to_vec(), &b"b".to_vec()));
    assert!(bytes_lt(&b"a".to_vec(), &b"ab".to_vec()));
    assert!(bytes_lt(&b"".to_vec(), &b"a".to_vec()));
    assert!(!bytes_lt(&b"a".to_vec(), &b"a".to_vec()));
    assert!(!bytes_lt(&b"b".to_vec(), &b"ab".to_vec()));
    assert!(!bytes_lt(&b"ab".to_vec(), &b"a".to_vec()));
    assert!(!bytes_lt(&b"".to_vec(), &b"".to_vec()));
}

#[test]
fn author_identifier_encodes_to_its_stable_text() {
    assert_eq!(author().encode(), AUTHOR_TEXT.as_bytes().to_vec());
    assert_eq!(author().encode(), author().encode());
}

#[test]
fn author_identifier_round_trips() {
    let g = author();
    assert!(g.is_valid());
    let back = GlobalID::decode(&g.encode()).unwrap();
    assert_eq!(back, g);
    assert_eq!(back.version(), 1);
    assert_eq!(back.typename().text, b"Author".to_vec());
    assert_eq!(back.len(), 1);
    assert_eq!(back.field(0).name.text, b"author_id".to_vec());
    assert_eq!(back.field(0).value, b"42".to_vec());
}

#[test]
fn identifier_without_fields_round_trips() {
    let g = GlobalID::new(1, named("Author"));
    let back = GlobalID::decode(&g.encode()).unwrap();
    assert_eq!(back, g);
    assert_eq!(back.len(), 0);
}

#[test]
fn identifier_with_several_fields_round_trips() {
    let mut g = GlobalID::new(1, named("Order_Line"));
    g.insert(field_name("order_id"), b"\"a-17\"".to_vec());
    g.insert(field_name("line"), b"3".to_vec());
    g.insert(field_name("region"), b"null".to_vec());
    g.insert(field_name("empty"), b"".to_vec());
    let back = GlobalID::decode(&g.encode()).unwrap();
    assert_eq!(back, g);
    assert_eq!(back.len(), 4);
}

#[test]
fn fields_are_kept_in_name_order() {
    let mut g = GlobalID::new(1, named("T"));
    g.insert(field_name("b"), b"2".to_vec());
    g.insert(field_name("c"), b"3".to_vec());
    g.insert(field_name("a"), b"1".to_vec());
    g.insert(field_name("ab"), b"4".to_vec());
    let names: Vec<Vec<u8>> = (0..g.len()).map(|i| g.field(i).name.text.clone()).collect();
    assert_eq!(names, vec![b"a".to_vec(), b"ab".to_vec(), b"b".to_vec(), b"c".to_vec()]);
}

#[test]
fn insert_replaces_the_binding_of_the_same_name() {
    let mut g = GlobalID::new(1, named("T"));
    g.insert(field_name("a"), b"1".to_vec());
    g.insert(field_name("b"), b"2".to_vec());
    g.insert(field_name("a"), b"9".to_vec());
    assert_eq!(g.len(), 2);
    assert_eq!(g.field(0).name.text, b"a".to_vec());
    assert_eq!(g.field(0).value, b"9".to_vec());
    assert_eq!(g.field(1).value, b"2".to_vec());
}

#[test]
fn encoding_does_not_depend_on_insertion_order() {
    let mut g1 = GlobalID::new(1, named("Article"));
    g1.insert(field_name("author_id"), b"42".to_vec());
    g1.insert(field_name("article_id"), b"7".to_vec());
    g1.insert(field_name("zone"), b"\"eu\"".to_vec());
    let mut g2 = GlobalID::new(1, named("Article"));
    g2.insert(field_name("zone"), b"\"eu\"".to_vec());
    g2.insert(field_name("article_id"), b"7".to_vec());
    g2.insert(field_name("author_id"), b"42".to_vec());
    assert_eq!(g1.encode(), g2.encode());
    assert_eq!(g1, g2);
}

#[test]
fn decode_refuses_text_that_is_not_hexadecimal() {
    assert_eq!(GlobalID::decode(&b"zz".to_vec()).unwrap_err(), DecodeError::MalformedEncoding);
    assert_eq!(GlobalID::decode(&b"010".to_vec()).unwrap_err(), DecodeError::MalformedEncoding);
    let upper = AUTHOR_TEXT.to_uppercase();
    assert_eq!(
        GlobalID::decode(&upper.as_bytes().to_vec()).unwrap_err(),
        DecodeError::MalformedEncoding
    );
}

#[test]
fn decode_refuses_a_malformed_structure() {
    assert_eq!(GlobalID::decode(&b"".to_vec()).unwrap_err(), DecodeError::MalformedStructure);
    assert_eq!(GlobalID::decode(&b"01".to_vec()).unwrap_err(), DecodeError::MalformedStructure);
    assert_eq!(GlobalID::decode(&b"0100".to_vec()).unwrap_err(), DecodeError::MalformedStructure);
    let truncated = &AUTHOR_TEXT[..AUTHOR_TEXT.len() - 2];
    assert_eq!(
        GlobalID::decode(&truncated.as_bytes().to_vec()).unwrap_err(),
        DecodeError::MalformedStructure
    );
    let trailing = format!("{}00", AUTHOR_TEXT);
    assert_eq!(
        GlobalID::decode(&trailing.as_bytes().to_vec()).unwrap_err(),
        DecodeError::MalformedStructure
    );
}

#[test]
fn decode_refuses_a_length_beyond_the_text() {
    let text = "0100ffffffffffffffff41";
    assert_eq!(
        GlobalID::decode(&text.as_bytes().to_vec()).unwrap_err(),
        DecodeError::MalformedStructure
    );
    let many = "01000100000000000000 41ffffffffffffffff".replace(' ', "");
    assert_eq!(
        GlobalID::decode(&many.as_bytes().to_vec()).unwrap_err(),
        DecodeError::MalformedStructure
    );
}

#[test]
fn decode_refuses_another_version() {
    let text = format!("0200{}", &AUTHOR_TEXT[4..]);
    assert_eq!(
        GlobalID::decode(&text.as_bytes().to_vec()).unwrap_err(),
        DecodeError::UnsupportedVersion
    );
    assert_eq!(GlobalID::decode(&b"0000".to_vec()).unwrap_err(), DecodeError::UnsupportedVersion);
}

#[test]
fn decode_refuses_a_type_name_that_is_no_name() {
    // version 1, type name "1x", no fields
    let text = "0100020000000000000031780000000000000000";
    assert_eq!(
        GlobalID::decode(&text.as_bytes().to_vec()).unwrap_err(),
        DecodeError::UnknownTypename
    );
}

#[test]
fn decode_refuses_fields_out_of_order() {
    // version 1, type name "T", fields b=1 then a=2
    let head = "0100010000000000000054";
    let count = "0200000000000000";
    let b1 = "0100000000000000620100000000000000 31".replace(' ', "");
    let a2 = "0100000000000000610100000000000000 32".replace(' ', "");
    let unordered = format!("{}{}{}{}", head, count, b1, a2);
    assert_eq!(
        GlobalID::decode(&unordered.as_bytes().to_vec()).unwrap_err(),
        DecodeError::MalformedStructure
    );
    let ordered = format!("{}{}{}{}", head, count, a2, b1);
    assert_eq!(GlobalID::decode(&ordered.as_bytes().to_vec()).unwrap().len(), 2);
    let twice = format!("{}{}{}{}", head, count, a2, a2);
    assert_eq!(
        GlobalID::decode(&twice.as_bytes().to_vec()).unwrap_err(),
        DecodeError::MalformedStructure
    );
}

#[test]
fn an_altered_text_never_decodes_to_the_same_identifier() {
    let g = author();
    let text = g.encode();
    for i in 0..text.len() {
        for c in [b'0', b'1', b'7', b'a', b'f', b'F', b'z'] {
            if text[i] == c {
                continue;
            }
            let mut altered = text.clone();
            altered[i] = c;
            match GlobalID::decode(&altered) {
                Ok(other) => assert_ne!(other, g),
                Err(_) => {}
            }
        }
    }
}

#[test]
fn is_valid_tells_the_supported_version() {
    assert!(author().is_valid());
    let g = GlobalID::new(2, named("Author"));
    assert!(!g.is_valid());
    assert_eq!(GlobalID::decode(&g.encode()).unwrap_err(), DecodeError::UnsupportedVersion);
}
