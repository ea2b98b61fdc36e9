use pdf_structure::cross_ref_table::{
    read_cross_ref_section, read_cross_ref_table, read_subsection, read_subsections,
};
use pdf_structure::structure::{ParseError, SubsectionEntry};

#[test]
fn section_of_two_entries() {
    let bytes = b"0 2\n0000000000 65535 f\r\n0000000017 00000 n\r\n";
    let (section, next) = read_cross_ref_section(bytes, 0).unwrap();
    assert_eq!(section.start_object_number, 0);
    assert_eq!(section.entry_count, 2);
    assert_eq!(section.entries.len(), 2);
    assert_eq!(
        section.entries[0],
        SubsectionEntry { byte_offset: 0, generation_number: 65535, in_use: false }
    );
    assert_eq!(
        section.entries[1],
        SubsectionEntry { byte_offset: 17, generation_number: 0, in_use: true }
    );
    assert_eq!(next, bytes.len());
}

#[test]
fn entry_line_ends() {
    let (entry, next) = read_subsection(b"0000001234 00007 n \n", 0).unwrap();
    assert_eq!(next, 20);
    assert_eq!(
        entry,
        SubsectionEntry { byte_offset: 1234, generation_number: 7, in_use: true }
    );
    assert!(read_subsection(b"0000001234 00007 n \r", 0).is_ok());
    assert!(read_subsection(b"0000001234 00007 n\r\n", 0).is_ok());
    assert_eq!(
        read_subsection(b"0000001234 00007 n\n\n", 0),
        Err(ParseError::MalformedCrossReferenceSection)
    );
}

#[test]
fn entry_with_bad_fields() {
    let bad = [
        &b"000000123x 00007 n\r\n"[..],
        &b"0000001234-00007 n\r\n"[..],
        &b"0000001234 0000a n\r\n"[..],
        &b"0000001234 00007 x\r\n"[..],
        &b"0000001234 00007 n\r"[..],
    ];
    for b in bad {
        assert_eq!(read_subsection(b, 0), Err(ParseError::MalformedCrossReferenceSection));
    }
}

#[test]
fn entry_round_trip() {
    let entries = [
        SubsectionEntry { byte_offset: 0, generation_number: 0, in_use: false },
        SubsectionEntry { byte_offset: 9999999999, generation_number: 99999, in_use: true },
        SubsectionEntry { byte_offset: 1234567890, generation_number: 65535, in_use: true },
        SubsectionEntry { byte_offset: 42, generation_number: 3, in_use: false },
    ];
    for e in entries {
        let bytes = e.to_bytes();
        assert_eq!(bytes.len(), 20);
        assert_eq!(read_subsection(&bytes, 0), Ok((e, 20)));
    }
    let bytes = SubsectionEntry { byte_offset: 17, generation_number: 2, in_use: true }.to_bytes();
    assert_eq!(bytes, b"0000000017 00002 n\r\n".to_vec());
}

#[test]
fn entry_of_nineteen_bytes_is_rejected() {
    let bytes = b"0 1\n0000000000 65535 f\ntrailer\n";
    assert_eq!(
        read_cross_ref_table(bytes, 0),
        Err(ParseError::MalformedCrossReferenceSection)
    );
}

#[test]
fn entry_of_twenty_one_bytes_is_rejected() {
    let bytes = b"0 1\n0000000000 65535 f \r\ntrailer\n";
    assert_eq!(
        read_cross_ref_table(bytes, 0),
        Err(ParseError::MalformedCrossReferenceSection)
    );
    let bytes = b"0 2\n0000000000 65535 f \r\n0000000017 00000 n\r\ntrailer\n";
    assert_eq!(
        read_cross_ref_table(bytes, 0),
        Err(ParseError::MalformedCrossReferenceSection)
    );
}

#[test]
fn table_of_several_subsections() {
    let bytes = b"0 1\n0000000000 65535 f\r\n3 2\n0000000025 00000 n\r\n0000000099 00001 n\r\ntrailer\n<<>>";
    let (table, stop) = read_cross_ref_table(bytes, 0).unwrap();
    assert_eq!(table.subsections.len(), 2);
    assert_eq!(table.subsections[0].start_object_number, 0);
    assert_eq!(table.subsections[0].entry_count, 1);
    assert_eq!(table.subsections[1].start_object_number, 3);
    assert_eq!(table.subsections[1].entry_count, 2);
    assert_eq!(table.subsections[1].entries[1].byte_offset, 99);
    assert_eq!(table.subsections[1].entries[1].generation_number, 1);
    assert_eq!(&bytes[stop..stop + 7], b"trailer");
}

#[test]
fn table_without_subsections() {
    assert_eq!(
        read_cross_ref_table(b"trailer\n", 0),
        Err(ParseError::MalformedCrossReferenceSection)
    );
    assert_eq!(read_cross_ref_table(b"", 0), Err(ParseError::MalformedCrossReferenceSection));
}

#[test]
fn table_ending_with_the_buffer() {
    let bytes = b"7 1\n0000000009 00000 n\r\n";
    let (table, stop) = read_cross_ref_table(bytes, 0).unwrap();
    assert_eq!(table.subsections.len(), 1);
    assert_eq!(table.subsections[0].start_object_number, 7);
    assert_eq!(stop, bytes.len());
}

#[test]
fn section_headers_that_are_not_digit_runs() {
    let bad = [&b"0x 1\n"[..], &b"0 1x\n"[..], &b"0  1\n"[..], &b"0 1 \n"[..], &b" 0 1\n"[..]];
    for b in bad {
        assert_eq!(
            read_cross_ref_section(b, 0).err(),
            Some(ParseError::MalformedCrossReferenceSection)
        );
    }
}

#[test]
fn too_few_entries() {
    let bytes = b"0 3\n0000000000 65535 f\r\n0000000017 00000 n\r\ntrailer\n";
    assert_eq!(
        read_cross_ref_table(bytes, 0),
        Err(ParseError::MalformedCrossReferenceSection)
    );
    assert_eq!(
        read_subsections(b"0000000000 65535 f\r\n", 0, 2),
        Err(ParseError::MalformedCrossReferenceSection)
    );
}

#[test]
fn section_header_with_crlf() {
    let bytes = b"5 1\r\n0000000100 00000 n\r\n";
    let (section, next) = read_cross_ref_section(bytes, 0).unwrap();
    assert_eq!(section.start_object_number, 5);
    assert_eq!(section.entries[0].byte_offset, 100);
    assert_eq!(next, bytes.len());
}
