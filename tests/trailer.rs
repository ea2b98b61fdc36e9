use pdf_structure::structure::{ObjectStatus, ParseError, TrailerKey, TrailerValue};
use pdf_structure::trailer::{
    parse_array, parse_integer, parse_object, parse_unknown, read_trailer, take_trailer_body,
    take_trailer_entry, take_trailer_kv_key, take_trailer_kv_pair, take_trailer_kv_pairs,
    take_trailer_kv_value,
};

fn reference(object_number: i64, generation_number: i64, kind: ObjectStatus) -> TrailerValue {
    TrailerValue::IndirectReference { object_number, generation_number, kind }
}

#[test]
fn test_trailer_body() {
    let input = "trailer
<</Size 14/Root 12 0 R
/Info 13 0 R
/ID [ <2379A69CC127F883136B24B3AABCB40D>
<2379A69CC127F883136B24B3AABCB40D> ]
/DocChecksum /32059j2fin
>>
startxref";

    let bytes = input.as_bytes();
    let (start, end) = take_trailer_body(bytes, 0).unwrap();
    assert_eq!(start, 10);
    assert!(bytes[start..end].starts_with(b"/Size 14/Root 12 0 R"));
    assert!(bytes[start..end].ends_with(b"/DocChecksum /32059j2fin\n"));
    assert_eq!(&bytes[end..], b">>\nstartxref");
}

#[test]
fn test_take_trailer_kv_pair() {
    let input = "/Size 14/Root 12 0 R
/Info 13 0 R
/ID [ <2379A69CC127F883136B24B3AABCB40D>
<2379A69CC127F883136B24B3AABCB40D> ]
/DocChecksum /34352532";

    let bytes = input.as_bytes();
    let ((key, value), next) = take_trailer_entry(bytes, 0, bytes.len()).unwrap();
    assert_eq!(key, TrailerKey::Size);
    assert_eq!(value, TrailerValue::Integer(14));
    assert_eq!(next, 8);

    let pairs = take_trailer_kv_pair(bytes, 0, bytes.len()).unwrap();
    let id = "2379A69CC127F883136B24B3AABCB40D".to_string();
    assert_eq!(
        pairs,
        vec![
            (TrailerKey::Size, TrailerValue::Integer(14)),
            (TrailerKey::Root, reference(12, 0, ObjectStatus::Reference)),
            (TrailerKey::Info, reference(13, 0, ObjectStatus::Reference)),
            (TrailerKey::ID, TrailerValue::HexStringArray(vec![id.clone(), id])),
            (TrailerKey::Unknown, TrailerValue::Opaque(b" ".to_vec())),
            (TrailerKey::Unknown, TrailerValue::Opaque(Vec::new())),
        ]
    );
}

// `R` marks a reference and `obj` a definition, so `12 0 R` is a reference.
#[test]
fn trailer_body_with_four_known_keys() {
    let bytes = b"/Size 14/Root 12 0 R/Info 13 0 R/ID [ <AA> <BB> ]";
    let pairs = take_trailer_kv_pair(bytes, 0, bytes.len()).unwrap();
    assert_eq!(
        pairs,
        vec![
            (TrailerKey::Size, TrailerValue::Integer(14)),
            (TrailerKey::Root, reference(12, 0, ObjectStatus::Reference)),
            (TrailerKey::Info, reference(13, 0, ObjectStatus::Reference)),
            (
                TrailerKey::ID,
                TrailerValue::HexStringArray(vec!["AA".to_string(), "BB".to_string()])
            ),
        ]
    );
}

#[test]
fn keys_are_classified() {
    let cases: [(&[u8], TrailerKey); 8] = [
        (b"Size 1", TrailerKey::Size),
        (b"Prev 1", TrailerKey::Prev),
        (b"Root 1", TrailerKey::Root),
        (b"Encrypt 1", TrailerKey::Encrypt),
        (b"Info 1", TrailerKey::Info),
        (b"ID 1", TrailerKey::ID),
        (b"Sizes 1", TrailerKey::Unknown),
        (b"Pref 1", TrailerKey::Unknown),
    ];
    for (bytes, expected) in cases {
        let (key, end) = take_trailer_kv_key(bytes, 0, bytes.len());
        assert_eq!(key, expected);
        assert_eq!(bytes[end], b' ');
    }
    let bytes = b"Size/x 1";
    assert_eq!(take_trailer_kv_key(bytes, 0, bytes.len()), (TrailerKey::Unknown, 6));
}

#[test]
fn value_runs_to_next_solidus() {
    let bytes = b" 12 0 R\n/Info";
    assert_eq!(take_trailer_kv_value(bytes, 0, bytes.len()), 8);
    assert_eq!(take_trailer_kv_value(bytes, 0, 5), 5);
}

#[test]
fn integers() {
    assert_eq!(parse_integer(b" 14 ", 0, 4), Some(TrailerValue::Integer(14)));
    assert_eq!(parse_integer(b"-7", 0, 2), Some(TrailerValue::Integer(-7)));
    assert_eq!(parse_integer(b"+7\n", 0, 3), Some(TrailerValue::Integer(7)));
    let max = b"9223372036854775807";
    assert_eq!(parse_integer(max, 0, max.len()), Some(TrailerValue::Integer(i64::MAX)));
    let min = b"-9223372036854775808";
    assert_eq!(parse_integer(min, 0, min.len()), Some(TrailerValue::Integer(i64::MIN)));
    let over = b"9223372036854775808";
    assert_eq!(parse_integer(over, 0, over.len()), None);
    assert_eq!(parse_integer(b"1 2", 0, 3), None);
    assert_eq!(parse_integer(b"-", 0, 1), None);
    assert_eq!(parse_integer(b"  ", 0, 2), None);
}

#[test]
fn indirect_objects() {
    let bytes = b" 3 1 obj ";
    assert_eq!(
        parse_object(bytes, 0, bytes.len()),
        Some(reference(3, 1, ObjectStatus::Definition))
    );
    let bytes = b"4 0 R";
    assert_eq!(
        parse_object(bytes, 0, bytes.len()),
        Some(reference(4, 0, ObjectStatus::Reference))
    );
    let bytes = b"4 0 X";
    assert_eq!(
        parse_object(bytes, 0, bytes.len()),
        Some(reference(4, 0, ObjectStatus::Unknown))
    );
    assert_eq!(parse_object(b"4 0", 0, 3), None);
    assert_eq!(parse_object(b"4 x R", 0, 5), None);
}

#[test]
fn hex_string_arrays() {
    let bytes = b"[<0a1B>\n<>]";
    assert_eq!(
        parse_array(bytes, 0, bytes.len()),
        Some(TrailerValue::HexStringArray(vec!["0a1B".to_string(), String::new()]))
    );
    assert_eq!(parse_array(b"[<AA>]", 0, 6), None);
    assert_eq!(parse_array(b"[<AA><BB><CC>]", 0, 14), None);
    assert_eq!(parse_array(b"[<AG><BB>]", 0, 10), None);
    assert_eq!(parse_array(b"<AA><BB>", 0, 8), None);
}

#[test]
fn unknown_values_are_kept() {
    assert_eq!(parse_unknown(b"xx<<1>>yy", 2, 7), TrailerValue::Opaque(b"<<1>>".to_vec()));
}

#[test]
fn whole_trailer() {
    let bytes = b"trailer\n<< /Size 6 /Root 1 0 R /Prev 1234 >>\nstartxref\n";
    let trailer = read_trailer(bytes, 0).unwrap();
    assert_eq!(
        trailer.entries,
        vec![
            (TrailerKey::Size, TrailerValue::Integer(6)),
            (TrailerKey::Root, reference(1, 0, ObjectStatus::Reference)),
            (TrailerKey::Prev, TrailerValue::Opaque(b" 1234 ".to_vec())),
        ]
    );
}

#[test]
fn nested_dictionary_is_skipped_whole() {
    let bytes = b"trailer\n<</Size 2/Encrypt <</V 1>> >>";
    let (start, end) = take_trailer_body(bytes, 0).unwrap();
    assert_eq!(&bytes[start..end], b"/Size 2/Encrypt <</V 1>> ");
}

#[test]
fn malformed_trailers() {
    assert_eq!(read_trailer(b"trailer\n/Size 1 >>", 0), Err(ParseError::MalformedTrailer));
    assert_eq!(read_trailer(b"trailer\n<< /Size 1", 0), Err(ParseError::MalformedTrailer));
    assert_eq!(read_trailer(b"trailer\n<</Root 1 0 R>>", 0), Err(ParseError::MalformedTrailer));
    assert_eq!(read_trailer(b"trailer\n<</Size x>>", 0), Err(ParseError::MalformedTrailer));
    assert_eq!(
        read_trailer(b"trailer\n<</Size 1/Size 2>>", 0),
        Err(ParseError::MalformedTrailer)
    );
    assert_eq!(read_trailer(b"trailer\n<<x/Size 1>>", 0), Err(ParseError::MalformedTrailer));
    assert_eq!(read_trailer(b"trailer\n<</Size 1/Root 7>>", 0), Err(ParseError::MalformedTrailer));
}

#[test]
fn trailer_without_root_is_accepted() {
    let trailer = read_trailer(b"trailer\n<</Size 1/Foo 2/Bar 3>>", 0).unwrap();
    assert_eq!(trailer.entries.len(), 3);
    assert_eq!(trailer.entries[1].0, TrailerKey::Unknown);
    assert_eq!(trailer.entries[2].0, TrailerKey::Unknown);
}

#[test]
fn unknown_key_with_unparsable_content_is_kept() {
    let bytes = b"/Size 3/Foo [<zz/Root 1 0 R";
    let pairs = take_trailer_kv_pair(bytes, 0, bytes.len()).unwrap();
    assert_eq!(
        pairs,
        vec![
            (TrailerKey::Size, TrailerValue::Integer(3)),
            (TrailerKey::Unknown, TrailerValue::Opaque(b" [<zz".to_vec())),
            (TrailerKey::Root, reference(1, 0, ObjectStatus::Reference)),
        ]
    );
}

#[test]
fn pairs_split_without_decoding() {
    let bytes = b"  /Size 3/Foo [<zz/Root 1 0 R";
    let ranges = take_trailer_kv_pairs(bytes, 0, bytes.len()).unwrap();
    assert_eq!(ranges, vec![(3, 7, 9), (10, 13, 18), (19, 23, 29)]);
    assert_eq!(&bytes[10..13], b"Foo");
    assert_eq!(&bytes[13..18], b" [<zz");
    assert_eq!(take_trailer_kv_pairs(b" \n", 0, 2), Ok(Vec::new()));
    assert_eq!(take_trailer_kv_pairs(b"x/Size 1", 0, 8), Err(ParseError::MalformedTrailer));
}
