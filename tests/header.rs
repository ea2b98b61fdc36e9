use pdf_structure::header::{read_header, take_first_row, take_second_row};
use pdf_structure::structure::ParseError;

#[test]
fn test_read_header() {
    let input = "%PDF-1.6\n%äüöß";
    let bytes = input.as_bytes();
    let header = read_header(bytes, 0).unwrap();
    assert_eq!(header.version, "1.6");
    assert!(header.has_binary_comment);
}

#[test]
fn test_first_row() {
    let input = "%PDF-1.6\nSECOND_ROW";
    let bytes = input.as_bytes();
    let (end, next) = take_first_row(bytes, 0);
    assert_eq!(&bytes[..end], b"%PDF-1.6");
    assert_eq!(&bytes[next..], b"SECOND_ROW");

    let input = "%PDF-1.6\r\n%SECOND_ROW";
    let bytes = input.as_bytes();
    let (end, next) = take_first_row(bytes, 0);
    assert_eq!(&bytes[..end], b"%PDF-1.6");
    assert_eq!(&bytes[next..], b"%SECOND_ROW");
}

#[test]
fn test_second_row() {
    let input = "\n%PDF-1.6\nSECOND_ROW";
    let bytes = input.as_bytes();
    assert_eq!(take_second_row(bytes, 0), (0, 1, false));
    let (end, next, binary) = take_second_row(bytes, 10);
    assert_eq!(&bytes[10..end], b"SECOND_ROW");
    assert_eq!(next, bytes.len());
    assert!(!binary);

    let input = "\r\n%PDF-1.6\r\nSECOND_ROW";
    let bytes = input.as_bytes();
    let (end, _, binary) = take_second_row(bytes, 12);
    assert_eq!(&bytes[12..end], b"SECOND_ROW");
    assert!(!binary);

    let input = "%PDF-1.6\nSECOND_ROW";
    let bytes = input.as_bytes();
    let (end, _, binary) = take_second_row(bytes, 9);
    assert_eq!(&bytes[9..end], b"SECOND_ROW");
    assert!(!binary);

    let input = "%PDF-1.6\n%\u{e4}\u{fc}\nTHIRD";
    let bytes = input.as_bytes();
    let (end, next, binary) = take_second_row(bytes, 9);
    assert_eq!(&bytes[9..end], "%\u{e4}\u{fc}".as_bytes());
    assert_eq!(&bytes[next..], b"THIRD");
    assert!(binary);
}

#[test]
fn test_first_two_rows() {
    let input = "\n%PDF-1.6\nSECOND_ROW";
    let bytes = input.as_bytes();
    let (end, next) = take_first_row(bytes, 0);
    assert_eq!((end, next), (0, 1));
    let (end, next) = take_first_row(bytes, next);
    assert_eq!(&bytes[1..end], b"%PDF-1.6");
    let (second_end, rest, binary) = take_second_row(bytes, next);
    assert_eq!(&bytes[next..second_end], b"SECOND_ROW");
    assert_eq!(rest, bytes.len());
    assert!(!binary);

    let input = "\r\n%PDF-1.6\nSECOND_ROW\nTHIRD ROW";
    let bytes = input.as_bytes();
    let (end, next) = take_first_row(bytes, 2);
    assert_eq!(&bytes[2..end], b"%PDF-1.6");
    let (second_end, rest, _) = take_second_row(bytes, next);
    assert_eq!(&bytes[next..second_end], b"SECOND_ROW");
    assert_eq!(&bytes[rest..], b"THIRD ROW");

    let input = "EXTRA\n%PDF-1.6\r\nSECOND_ROW";
    let bytes = input.as_bytes();
    let (end, next) = take_first_row(bytes, 0);
    assert_eq!(&bytes[..end], b"EXTRA");
    let (second_end, rest, _) = take_second_row(bytes, next);
    assert_eq!(&bytes[next..second_end], b"%PDF-1.6");
    assert_eq!(&bytes[rest..], b"SECOND_ROW");
    let header = read_header(bytes, next).unwrap();
    assert_eq!(header.version, "1.6");
    assert!(!header.has_binary_comment);
}

#[test]
fn header_with_binary_comment_line() {
    let bytes = b"%PDF-1.7\n%\xC3\xA2\xC3\xA3\n1 0 obj\n";
    let header = read_header(bytes, 0).unwrap();
    assert_eq!(header.version, "1.7");
    assert!(header.has_binary_comment);
}

#[test]
fn header_with_ascii_only_line() {
    let bytes = b"%PDF-1.4\nASCII_ONLY_LINE\nmore";
    let header = read_header(bytes, 0).unwrap();
    assert_eq!(header.version, "1.4");
    assert!(!header.has_binary_comment);
}

#[test]
fn header_reads_version_to_line_end() {
    let bytes = b"%PDF-10.12\r\n%\x80\x81\x82\x83\r\n";
    let header = read_header(bytes, 0).unwrap();
    assert_eq!(header.version, "10.12");
    assert!(header.has_binary_comment);
}

#[test]
fn header_without_second_line() {
    let header = read_header(b"%PDF-2.0", 0).unwrap();
    assert_eq!(header.version, "2.0");
    assert!(!header.has_binary_comment);
}

#[test]
fn malformed_headers() {
    assert_eq!(read_header(b"%PDX-1.7\n", 0), Err(ParseError::MalformedHeader));
    assert_eq!(read_header(b"%PDF-\n%abc\n", 0), Err(ParseError::MalformedHeader));
    assert_eq!(read_header(b"%PDF-1.\xFF\n", 0), Err(ParseError::MalformedHeader));
    assert_eq!(read_header(b"%PD", 0), Err(ParseError::MalformedHeader));
    assert_eq!(read_header(b"", 3), Err(ParseError::MalformedHeader));
}
