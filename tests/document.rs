use pdf_structure::objects::get_objects;
use pdf_structure::read::{assemble_document, parse_document};
use pdf_structure::scanner::scan_keywords;
use pdf_structure::structure::{
    Keyword, KeywordMatch, ObjectSpan, ObjectStatus, ParseError, TrailerKey, TrailerValue,
};

fn position(haystack: &[u8], needle: &[u8], from: usize) -> usize {
    from + haystack[from..].windows(needle.len()).position(|w| w == needle).unwrap()
}

fn sample(objects: &str) -> Vec<u8> {
    let mut bytes = b"%PDF-1.7\n%\xE2\xE3\xCF\xD3\n".to_vec();
    bytes.extend_from_slice(objects.as_bytes());
    bytes.extend_from_slice(
        b"\nxref\n0 3\n0000000000 65535 f\r\n0000000015 00000 n\r\n0000000060 00000 n\r\n",
    );
    bytes.extend_from_slice(b"trailer\n<< /Size 3 /Root 1 0 R >>\nstartxref\n100\n%%EOF\n");
    bytes
}

const TWO_OBJECTS: &str = "1 0 obj\n<< /Type /Catalog >>\nendobj\n2 0 obj\n<< >>\nendobj\n";

#[test]
fn whole_document() {
    let bytes = sample(TWO_OBJECTS);
    let pdf = parse_document(&bytes).unwrap();
    assert_eq!(pdf.header.version, "1.7");
    assert!(pdf.header.has_binary_comment);
    let table = &pdf.cross_ref_table;
    assert_eq!(table.subsections.len(), 1);
    assert_eq!(table.subsections[0].entry_count, 3);
    assert_eq!(table.subsections[0].entries[2].byte_offset, 60);
    assert!(!table.subsections[0].entries[0].in_use);
    assert_eq!(
        pdf.trailer.entries,
        vec![
            (TrailerKey::Size, TrailerValue::Integer(3)),
            (
                TrailerKey::Root,
                TrailerValue::IndirectReference {
                    object_number: 1,
                    generation_number: 0,
                    kind: ObjectStatus::Reference,
                }
            ),
        ]
    );
    let first_start = position(&bytes, b" obj\n", 0);
    let first_end = position(&bytes, b"endobj\n", 0);
    let second_start = position(&bytes, b" obj\n", first_end);
    let second_end = position(&bytes, b"endobj\n", second_start);
    assert_eq!(
        pdf.objects,
        vec![
            ObjectSpan { start_offset: first_start, end_offset: first_end },
            ObjectSpan { start_offset: second_start, end_offset: second_end },
        ]
    );
}

#[test]
fn keyword_scan_reports_every_keyword_in_order() {
    let bytes = b"%PDF-1.0\n1 0 obj\nendobj\n\nxref\ntrailer\n";
    let matches = scan_keywords(bytes);
    assert_eq!(
        matches,
        vec![
            KeywordMatch { keyword: Keyword::Header, start: 0, end: 5 },
            KeywordMatch { keyword: Keyword::ObjectStart, start: 12, end: 17 },
            KeywordMatch { keyword: Keyword::ObjectEnd, start: 17, end: 24 },
            KeywordMatch { keyword: Keyword::CrossReference, start: 24, end: 30 },
            KeywordMatch { keyword: Keyword::Trailer, start: 30, end: 38 },
        ]
    );
}

#[test]
fn unbalanced_object_markers() {
    let bytes = sample("1 0 obj\n1\nendobj\n2 0 obj\n2\nendobj\n3 0 obj\n3\n");
    assert_eq!(parse_document(&bytes).err(), Some(ParseError::ObjectBoundaryMismatch));
}

#[test]
fn object_markers_paired_by_position() {
    let m = |keyword, start: usize, end: usize| KeywordMatch { keyword, start, end };
    let matches = [
        m(Keyword::Header, 0, 5),
        m(Keyword::ObjectStart, 10, 15),
        m(Keyword::ObjectEnd, 20, 27),
        m(Keyword::ObjectStart, 30, 35),
        m(Keyword::ObjectEnd, 40, 47),
    ];
    assert_eq!(
        get_objects(&matches).unwrap(),
        vec![
            ObjectSpan { start_offset: 10, end_offset: 20 },
            ObjectSpan { start_offset: 30, end_offset: 40 },
        ]
    );
    let three_two = [
        m(Keyword::ObjectStart, 10, 15),
        m(Keyword::ObjectEnd, 20, 27),
        m(Keyword::ObjectStart, 30, 35),
        m(Keyword::ObjectEnd, 40, 47),
        m(Keyword::ObjectStart, 50, 55),
    ];
    assert_eq!(get_objects(&three_two), Err(ParseError::ObjectBoundaryMismatch));
    let end_first = [m(Keyword::ObjectEnd, 10, 17), m(Keyword::ObjectStart, 20, 25)];
    assert_eq!(get_objects(&end_first), Err(ParseError::ObjectBoundaryMismatch));
    assert_eq!(get_objects(&[]), Ok(Vec::new()));
}

#[test]
fn missing_header_tag() {
    let bytes = sample(TWO_OBJECTS);
    let without_tag = bytes[5..].to_vec();
    assert_eq!(
        parse_document(&without_tag).err(),
        Some(ParseError::MissingStructuralKeyword(Keyword::Header))
    );
    assert_eq!(
        parse_document(b"").err(),
        Some(ParseError::MissingStructuralKeyword(Keyword::Header))
    );
}

#[test]
fn missing_xref_and_trailer_keywords() {
    let bytes = b"%PDF-1.7\n%\xE2\n1 0 obj\nendobj\ntrailer\n<</Size 1>>";
    assert_eq!(
        parse_document(bytes).err(),
        Some(ParseError::MissingStructuralKeyword(Keyword::CrossReference))
    );
    let bytes = b"%PDF-1.7\n%\xE2\n\nxref\n0 0\n";
    assert_eq!(
        parse_document(bytes).err(),
        Some(ParseError::MissingStructuralKeyword(Keyword::Trailer))
    );
}

#[test]
fn errors_follow_component_order() {
    let mut bytes = sample(TWO_OBJECTS);
    bytes[5] = b'\n';
    assert_eq!(parse_document(&bytes).err(), Some(ParseError::MalformedHeader));

    let bytes = sample(TWO_OBJECTS);
    let text = String::from_utf8_lossy(&bytes).into_owned();
    let broken = text.replace("0000000060 00000 n", "0000000060 00000 x").into_bytes();
    assert_eq!(
        parse_document(&broken).err(),
        Some(ParseError::MalformedCrossReferenceSection)
    );
    let broken = text.replace("/Size 3", "/Size three").into_bytes();
    assert_eq!(parse_document(&broken).err(), Some(ParseError::MalformedTrailer));
}

#[test]
fn assembling_from_given_matches() {
    let bytes = sample(TWO_OBJECTS);
    let matches = scan_keywords(&bytes);
    let pdf = assemble_document(&bytes, &matches).unwrap();
    assert_eq!(pdf, parse_document(&bytes).unwrap());
    let no_trailer: Vec<KeywordMatch> =
        matches.iter().copied().filter(|m| m.keyword != Keyword::Trailer).collect();
    assert_eq!(
        assemble_document(&bytes, &no_trailer).err(),
        Some(ParseError::MissingStructuralKeyword(Keyword::Trailer))
    );
}
