//! The record decoder and encoder: quoting rules, error cases, the
//! round trip on concrete values, and the derived record/field
//! cursors.

use sqlite_xsv::decode::{Record, RecordDecoder};
use sqlite_xsv::encode::encode_record;
use sqlite_xsv::error::{DecodeFault, XsvError};
use sqlite_xsv::fields::FieldsCursor;
use sqlite_xsv::records::RecordsCursor;
use sqlite_xsv::rowref::{field_at, FieldKey, RecordReferenceRegistry};
use sqlite_xsv::rows::{rows_column, RowsColumn, RowsCursor};

fn bv(s: &str) -> Vec<u8> {
    s.as_bytes().to_vec()
}

fn decode_all(text: &str, d: u8, q: u8) -> Vec<Vec<Vec<u8>>> {
    let mut dec = RecordDecoder::new(bv(text), d, q);
    let recs = dec.read_all().unwrap();
    recs.into_iter().map(|r| r.fields).collect()
}

#[test]
fn plain_records() {
    assert_eq!(
        decode_all("a,b\n1,2\n3,4\n", b',', b'"'),
        vec![
            vec![bv("a"), bv("b")],
            vec![bv("1"), bv("2")],
            vec![bv("3"), bv("4")],
        ]
    );
}

#[test]
fn quoting_rules() {
    // Embedded delimiter, doubled quote, embedded newline.
    assert_eq!(
        decode_all("\"a,b\",c\n", b',', b'"'),
        vec![vec![bv("a,b"), bv("c")]]
    );
    assert_eq!(
        decode_all("\"say \"\"hi\"\"\"\n", b',', b'"'),
        vec![vec![bv("say \"hi\"")]]
    );
    assert_eq!(
        decode_all("\"line1\nline2\",x\n", b',', b'"'),
        vec![vec![bv("line1\nline2"), bv("x")]]
    );
    // A quote inside an unquoted field is literal.
    assert_eq!(
        decode_all("a\"b,c\n", b',', b'"'),
        vec![vec![bv("a\"b"), bv("c")]]
    );
}

#[test]
fn terminators_and_blank_lines() {
    assert_eq!(
        decode_all("a,b\r\nc,d\r", b',', b'"'),
        vec![vec![bv("a"), bv("b")], vec![bv("c"), bv("d")]]
    );
    // Blank lines yield no record; a final record may lack its newline.
    assert_eq!(
        decode_all("a\n\n\nb", b',', b'"'),
        vec![vec![bv("a")], vec![bv("b")]]
    );
    // Empty fields survive.
    assert_eq!(
        decode_all(",x,\n", b',', b'"'),
        vec![vec![bv(""), bv("x"), bv("")]]
    );
}

#[test]
fn raw_mode_disables_quotes() {
    assert_eq!(
        decode_all("\"a,b\",c\n", b',', 0),
        vec![vec![bv("\"a"), bv("b\""), bv("c")]]
    );
}

#[test]
fn malformed_quoting() {
    let mut dec = RecordDecoder::new(bv("\"ab\"x,c\n"), b',', b'"');
    assert_eq!(dec.read_next().unwrap_err(), DecodeFault::Malformed);
    // A quoted field left open at end of input is malformed too.
    let mut dec = RecordDecoder::new(bv("\"never closed"), b',', b'"');
    assert_eq!(dec.read_next().unwrap_err(), DecodeFault::Malformed);
}

#[test]
fn invalid_utf8_field() {
    let mut data = bv("ok,");
    data.push(0xff);
    data.push(b'\n');
    let mut dec = RecordDecoder::new(data, b',', b'"');
    assert_eq!(dec.read_next().unwrap_err(), DecodeFault::Utf8);
    // Valid UTF-8 multibyte text decodes fine.
    assert_eq!(decode_all("héllo,wörld\n", b',', b'"'), vec![vec![
        bv("héllo"),
        bv("wörld")
    ]]);
}

#[test]
fn record_positions() {
    let mut dec = RecordDecoder::new(bv("a,b\n1,2\n\n3,4\n"), b',', b'"');
    let r1 = dec.read_next().unwrap().unwrap();
    assert_eq!((r1.line, r1.byte), (1, 0));
    let r2 = dec.read_next().unwrap().unwrap();
    assert_eq!((r2.line, r2.byte), (2, 4));
    let r3 = dec.read_next().unwrap().unwrap();
    // The blank line counts; the third record starts a line later.
    assert_eq!((r3.line, r3.byte), (4, 9));
    assert_eq!(dec.read_next().unwrap(), None);
}

#[test]
fn encode_decode_round_trip() {
    // Fields holding the delimiter, the quote and newlines reproduce
    // exactly: a concrete run of the proved round-trip law.
    let rows: Vec<Vec<Vec<u8>>> = vec![
        vec![bv("plain"), bv("with,comma"), bv("with\"quote")],
        vec![bv("line\nbreak"), bv(""), bv("\r")],
        vec![bv("")],
    ];
    let mut text: Vec<u8> = Vec::new();
    for row in &rows {
        text.extend_from_slice(&encode_record(row, b',', b'"'));
    }
    let mut dec = RecordDecoder::new(text, b',', b'"');
    let back: Vec<Vec<Vec<u8>>> = dec
        .read_all()
        .unwrap()
        .into_iter()
        .map(|r| r.fields)
        .collect();
    assert_eq!(back, rows);
}

#[test]
fn encode_quotes_only_when_needed() {
    assert_eq!(encode_record(&vec![bv("a"), bv("b")], b',', b'"'), bv("a,b\n"));
    assert_eq!(
        encode_record(&vec![bv("a,x"), bv("b")], b',', b'"'),
        bv("\"a,x\",b\n")
    );
    // A sole empty field is quoted so the line is not blank.
    assert_eq!(encode_record(&vec![bv("")], b',', b'"'), bv("\"\"\n"));
    // An empty field among others is not.
    assert_eq!(encode_record(&vec![bv(""), bv("")], b',', b'"'), bv(",\n"));
}

#[test]
fn records_cursor_reencodes() {
    let mut c = RecordsCursor::open(bv("a,b\n\"x,y\",z\n"), b',').unwrap();
    assert!(!c.eof());
    assert_eq!(c.rowid(), 0);
    assert_eq!(c.record_text().unwrap(), &bv("a,b\n"));
    c.next();
    assert_eq!(c.rowid(), 1);
    assert_eq!(c.record_text().unwrap(), &bv("\"x,y\",z\n"));
    c.next();
    assert!(c.eof());
    assert_eq!(c.record_text(), None);

    assert!(matches!(
        RecordsCursor::open(bv("\"open"), b','),
        Err(XsvError::Decode(DecodeFault::Malformed))
    ));
}

#[test]
fn fields_cursor_pivots() {
    let mut dec = RecordDecoder::new(bv("a,b,c\n"), b',', b'"');
    let rec = dec.read_next().unwrap().unwrap();
    let mut f = FieldsCursor::new(rec);
    assert!(!f.eof());
    assert_eq!(f.contents().unwrap(), bv("a"));
    assert_eq!(f.rowid(), 0);
    f.next();
    assert_eq!(f.contents().unwrap(), bv("b"));
    f.next();
    assert_eq!(f.contents().unwrap(), bv("c"));
    f.next();
    assert!(f.eof());
    assert_eq!(f.contents(), None);
}

#[test]
fn field_at_extracts() {
    assert_eq!(
        field_at(&bv("x|y|z"), b'|', b'"', 1).unwrap(),
        Some(bv("y"))
    );
    // Past the record's end: NULL, not an error.
    assert_eq!(field_at(&bv("x|y|z"), b'|', b'"', 9).unwrap(), None);
    // No record at all.
    assert_eq!(field_at(&bv(""), b'|', b'"', 0).unwrap_err(), XsvError::NoRecord);
    // Broken quoting.
    assert!(matches!(
        field_at(&bv("\"a\"x|b"), b'|', b'"', 0).unwrap_err(),
        XsvError::Decode(DecodeFault::Malformed)
    ));
}

#[test]
fn agrees_with_a_csv_library() {
    // Cross-check the verified decoder against an independent CSV
    // reader on a mixed input.
    let input = "a,b\n\"x,y\",\"q\"\"q\"\n1,2\r\nlast,\n\ncr\rend\n";
    let mut rdr = csv::ReaderBuilder::new()
        .has_headers(false)
        .flexible(true)
        .from_reader(input.as_bytes());
    let expected: Vec<Vec<Vec<u8>>> = rdr
        .records()
        .map(|r| r.unwrap().iter().map(|f| f.as_bytes().to_vec()).collect())
        .collect();
    assert_eq!(decode_all(input, b',', b'"'), expected);
}

#[test]
fn rows_cursor_serves_rows() {
    assert_eq!(rows_column(0), Some(RowsColumn::Row));
    assert_eq!(rows_column(4), Some(RowsColumn::Length));
    assert_eq!(rows_column(6), Some(RowsColumn::Delimiter));
    assert_eq!(rows_column(7), None);

    let mut c = RowsCursor::open(bv("name,age\nal,30\nbo,40,x\n"), b',').unwrap();
    let mut reg = RecordReferenceRegistry::new();
    assert!(!c.eof());
    assert_eq!(c.rowid(), 1);
    assert_eq!(c.number_column(RowsColumn::Line), Some(2));
    assert_eq!(c.number_column(RowsColumn::Byte), Some(9));
    assert_eq!(c.number_column(RowsColumn::Length), Some(2));
    assert_eq!(c.number_column(RowsColumn::Source), None);

    // The Row column: an opaque handle that a field accessor resolves
    // without re-parsing.
    let h = c.publish_row(&mut reg).unwrap();
    assert_eq!(reg.resolve(&h, &FieldKey::Name(bv("age"))).unwrap(), Some(bv("30")));

    c.next().unwrap();
    assert_eq!(c.number_column(RowsColumn::Length), Some(3));
    // The old handle went stale when the next row was published.
    let h2 = c.publish_row(&mut reg).unwrap();
    assert!(reg.resolve(&h, &FieldKey::Index(0)).is_err());
    assert_eq!(reg.resolve(&h2, &FieldKey::Index(0)).unwrap(), Some(bv("bo")));

    // The Headers column: the header record alone.
    let hh = c.publish_headers(&mut reg);
    assert_eq!(reg.resolve(&hh, &FieldKey::Index(1)).unwrap(), Some(bv("age")));

    c.next().unwrap();
    assert!(c.eof());
    assert_eq!(c.number_column(RowsColumn::Line), None);
}

#[test]
fn record_accessors() {
    let mut dec = RecordDecoder::new(bv("a,b\n"), b',', b'"');
    let rec: Record = dec.read_next().unwrap().unwrap();
    assert_eq!(rec.len(), 2);
    assert_eq!(rec.field(0).unwrap(), &bv("a"));
    assert_eq!(rec.field(2), None);
}
