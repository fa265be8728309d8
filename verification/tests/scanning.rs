//! The table cursor over one or many sources, schema resolution, and
//! compressed sources through the real decompression crates.

use std::io::Write;

use sqlite_xsv::cursor::{Advance, TableCursor};
use sqlite_xsv::decode::RecordDecoder;
use sqlite_xsv::error::XsvError;
use sqlite_xsv::schema::{create_sql_declared, create_sql_sniffed, resolve_schema, SchemaColumn};
use sqlite_xsv::source::{compression_for_path, decode_source, Compression};
use sqlite_xsv::value::{affinity_from_type, Affinity, Value};

fn bv(s: &str) -> Vec<u8> {
    s.as_bytes().to_vec()
}

fn sniff_schema(content: &str, header: bool) -> Vec<SchemaColumn> {
    let mut dec = RecordDecoder::new(bv(content), b',', b'"');
    let first = dec.read_next().unwrap();
    resolve_schema(&None, header, first.as_ref()).unwrap()
}

fn open_cursor(header: bool, affinities: Vec<Affinity>) -> TableCursor {
    TableCursor::new(b',', b'"', header, affinities)
}

#[test]
fn single_file_scan() {
    // One file, header on: schema [a,b]; rows (1,2),(3,4); rowids 1,2.
    let schema = sniff_schema("a,b\n1,2\n3,4\n", true);
    assert_eq!(schema.len(), 2);
    assert_eq!(schema[0].name, bv("a"));
    assert_eq!(schema[1].name, bv("b"));
    assert_eq!(schema[0].affinity, Affinity::Blob);

    let mut c = open_cursor(true, schema.iter().map(|s| s.affinity).collect());
    c.supply_source(bv("t.csv"), bv("a,b\n1,2\n3,4\n")).unwrap();
    assert_eq!(c.advance().unwrap(), Advance::Row);
    assert_eq!(c.rowid(), 1);
    assert_eq!(c.column(0), Value::Text(bv("1")));
    assert_eq!(c.column(1), Value::Text(bv("2")));
    assert_eq!(c.line_number(), 2);
    assert_eq!(c.advance().unwrap(), Advance::Row);
    assert_eq!(c.rowid(), 2);
    assert_eq!(c.column(0), Value::Text(bv("3")));
    assert_eq!(c.column(1), Value::Text(bv("4")));
    assert_eq!(c.advance().unwrap(), Advance::NeedSource);
    c.end_of_sources();
    assert_eq!(c.advance().unwrap(), Advance::Eof);
    assert!(c.eof());
    assert_eq!(c.rowid(), 2);
}

#[test]
fn rowid_runs_across_sources() {
    // Row ids grow by exactly one per row, starting at 1, across the
    // source boundary.
    let mut c = open_cursor(true, vec![Affinity::Blob, Affinity::Blob]);
    c.supply_source(bv("one.csv"), bv("a,b\n1,2\n3,4\n")).unwrap();
    let mut rowids: Vec<i64> = Vec::new();
    loop {
        match c.advance().unwrap() {
            Advance::Row => rowids.push(c.rowid()),
            Advance::NeedSource => break,
            Advance::Eof => unreachable!(),
        }
    }
    c.supply_source(bv("two.csv"), bv("h1,h2\n5,6\n")).unwrap();
    loop {
        match c.advance().unwrap() {
            Advance::Row => rowids.push(c.rowid()),
            Advance::NeedSource => break,
            Advance::Eof => unreachable!(),
        }
    }
    c.end_of_sources();
    assert_eq!(c.advance().unwrap(), Advance::Eof);
    assert_eq!(rowids, vec![1, 2, 3]);
}

#[test]
fn heterogeneous_widths_never_error() {
    // First file has two columns, second has three: the schema stays
    // two columns wide, the extra field is simply never read, and a
    // short record reads NULL for its missing trailing column.
    let schema = sniff_schema("a,b\n", true);
    assert_eq!(schema.len(), 2);
    let mut c = open_cursor(true, schema.iter().map(|s| s.affinity).collect());
    c.supply_source(bv("one.csv"), bv("a,b\n1,2\n")).unwrap();
    assert_eq!(c.advance().unwrap(), Advance::Row);
    assert_eq!(c.column(0), Value::Text(bv("1")));
    assert_eq!(c.advance().unwrap(), Advance::NeedSource);
    c.supply_source(bv("two.csv"), bv("x,y,z\n7,8,9\n4,\n")).unwrap();
    assert_eq!(c.advance().unwrap(), Advance::Row);
    assert_eq!(c.column(0), Value::Text(bv("7")));
    assert_eq!(c.column(1), Value::Text(bv("8")));
    assert_eq!(c.advance().unwrap(), Advance::Row);
    // The short record: its second column exists (empty), a third
    // does not and reads NULL.
    assert_eq!(c.column(0), Value::Text(bv("4")));
    assert_eq!(c.column(1), Value::Text(bv("")));
    assert_eq!(c.column(2), Value::Null);
    assert_eq!(c.advance().unwrap(), Advance::NeedSource);
    c.end_of_sources();
    assert_eq!(c.advance().unwrap(), Advance::Eof);
}

#[test]
fn short_record_reads_null() {
    let mut c = open_cursor(false, vec![Affinity::Blob, Affinity::Blob, Affinity::Blob]);
    c.supply_source(bv("t.csv"), bv("1,2,3\n4\n")).unwrap();
    assert_eq!(c.advance().unwrap(), Advance::Row);
    assert_eq!(c.column(2), Value::Text(bv("3")));
    assert_eq!(c.advance().unwrap(), Advance::Row);
    assert_eq!(c.column(0), Value::Text(bv("4")));
    assert_eq!(c.column(1), Value::Null);
    assert_eq!(c.column(2), Value::Null);
}

#[test]
fn integer_affinity_is_permissive() {
    // A declared-Integer column holding "abc" returns the text
    // unchanged — never NULL, never an error.
    let mut c = open_cursor(false, vec![Affinity::Integer, Affinity::Integer]);
    c.supply_source(bv("t.csv"), bv("42,abc\n-7,9223372036854775808\n")).unwrap();
    assert_eq!(c.advance().unwrap(), Advance::Row);
    assert_eq!(c.column(0), Value::Integer(42));
    assert_eq!(c.column(1), Value::Text(bv("abc")));
    assert_eq!(c.advance().unwrap(), Advance::Row);
    assert_eq!(c.column(0), Value::Integer(-7));
    // One past i64::MAX does not parse and degrades to text.
    assert_eq!(c.column(1), Value::Text(bv("9223372036854775808")));
}

#[test]
fn real_and_numeric_affinities() {
    let mut c = open_cursor(false, vec![Affinity::Real, Affinity::Numeric]);
    c.supply_source(bv("t.csv"), bv("1.5,99\n")).unwrap();
    assert_eq!(c.advance().unwrap(), Advance::Row);
    // Real carries the raw text out for the host's double conversion.
    assert_eq!(c.column(0), Value::Real(bv("1.5")));
    assert_eq!(c.column(1), Value::Text(bv("99")));
}

#[test]
fn header_skipped_per_source() {
    let mut c = open_cursor(true, vec![Affinity::Blob]);
    c.supply_source(bv("a.csv"), bv("hdr\nv1\n")).unwrap();
    assert_eq!(c.advance().unwrap(), Advance::Row);
    assert_eq!(c.column(0), Value::Text(bv("v1")));
    assert_eq!(c.advance().unwrap(), Advance::NeedSource);
    c.supply_source(bv("b.csv"), bv("hdr2\nv2\n")).unwrap();
    assert_eq!(c.advance().unwrap(), Advance::Row);
    assert_eq!(c.column(0), Value::Text(bv("v2")));
    assert_eq!(c.path(), &bv("b.csv"));
}

#[test]
fn decode_error_aborts_scan() {
    let mut c = open_cursor(false, vec![Affinity::Blob]);
    c.supply_source(bv("t.csv"), bv("good\n\"bad\"x\n")).unwrap();
    assert_eq!(c.advance().unwrap(), Advance::Row);
    assert_eq!(c.column(0), Value::Text(bv("good")));
    // The first error terminates the scan; the row already emitted
    // stayed valid above.
    assert!(matches!(c.advance().unwrap_err(), XsvError::Decode(_)));
}

#[test]
fn reader_strict_columns() {
    let mut c = open_cursor(false, vec![Affinity::Integer, Affinity::Text]);
    c.supply_source(bv("t.csv"), bv("1,x\n2\n")).unwrap();
    assert_eq!(c.advance().unwrap(), Advance::Row);
    assert_eq!(c.column_strict(0), Some(Value::Integer(1)));
    assert_eq!(c.column_strict(1), Some(Value::Text(bv("x"))));
    // Beyond the declared columns the reader flavour refuses.
    assert_eq!(c.column_strict(2), None);
    assert_eq!(c.advance().unwrap(), Advance::Row);
    // A short record's missing trailing column reads NULL.
    assert_eq!(c.column_strict(1), Some(Value::Null));
}

#[test]
fn declared_columns_fix_schema() {
    // Declared [("a","int"),("b","text")] yields [a:Integer, b:Text]
    // regardless of the header flag or any file content.
    let declared = Some(vec![
        sqlite_xsv::config::ColumnDeclaration {
            name: bv("a"),
            declared_type: Some(bv("int")),
            constraints: None,
        },
        sqlite_xsv::config::ColumnDeclaration {
            name: bv("b"),
            declared_type: Some(bv("text")),
            constraints: None,
        },
    ]);
    for header in [false, true] {
        let schema = resolve_schema(&declared, header, None).unwrap();
        assert_eq!(schema.len(), 2);
        assert_eq!(schema[0].name, bv("a"));
        assert_eq!(schema[0].affinity, Affinity::Integer);
        assert_eq!(schema[1].name, bv("b"));
        assert_eq!(schema[1].affinity, Affinity::Text);
    }
}

#[test]
fn sniffed_schema_names() {
    // Header on: names are exactly the first record's field texts.
    let schema = sniff_schema("alpha,beta\n1,2\n", true);
    assert_eq!(schema[0].name, bv("alpha"));
    assert_eq!(schema[1].name, bv("beta"));
    // Header off: positional names c1..cN.
    let schema = sniff_schema("q,r,s\n", false);
    assert_eq!(schema[0].name, bv("c1"));
    assert_eq!(schema[1].name, bv("c2"));
    assert_eq!(schema[2].name, bv("c3"));
    // Two-digit positional names come out in full.
    let schema = sniff_schema("a,b,c,d,e,f,g,h,i,j,k\n", false);
    assert_eq!(schema[10].name, bv("c11"));
}

#[test]
fn schema_error_without_source_or_columns() {
    assert_eq!(resolve_schema(&None, true, None).unwrap_err(), XsvError::Schema);
}

#[test]
fn create_statements() {
    let cols = vec![
        sqlite_xsv::config::ColumnDeclaration {
            name: bv("a"),
            declared_type: Some(bv("int")),
            constraints: None,
        },
        sqlite_xsv::config::ColumnDeclaration {
            name: bv("b"),
            declared_type: None,
            constraints: None,
        },
    ];
    assert_eq!(
        create_sql_declared(&cols),
        bv("create table x('a' int,'b' )")
    );
    let mut dec = RecordDecoder::new(bv("x,y\n"), b',', b'"');
    let first = dec.read_next().unwrap().unwrap();
    assert_eq!(
        create_sql_sniffed(&first, true),
        bv("create table x(\"x\",\"y\")")
    );
    assert_eq!(create_sql_sniffed(&first, false), bv("create table x(c1,c2)"));
}

#[test]
fn affinity_rules() {
    assert_eq!(affinity_from_type(&bv("INT")), Affinity::Integer);
    assert_eq!(affinity_from_type(&bv("BigInt")), Affinity::Integer);
    assert_eq!(affinity_from_type(&bv("VARCHAR(10)")), Affinity::Text);
    assert_eq!(affinity_from_type(&bv("clob")), Affinity::Text);
    assert_eq!(affinity_from_type(&bv("TEXT")), Affinity::Text);
    assert_eq!(affinity_from_type(&bv("blob")), Affinity::Blob);
    assert_eq!(affinity_from_type(&bv("")), Affinity::Blob);
    assert_eq!(affinity_from_type(&bv("REAL")), Affinity::Real);
    assert_eq!(affinity_from_type(&bv("float")), Affinity::Real);
    assert_eq!(affinity_from_type(&bv("DOUBLE")), Affinity::Real);
    assert_eq!(affinity_from_type(&bv("decimal")), Affinity::Numeric);
    // "int" wins over "text" by rule order: "POINTEXT" holds both.
    assert_eq!(affinity_from_type(&bv("POINTEXT")), Affinity::Integer);
}

#[test]
fn compression_by_suffix() {
    assert_eq!(compression_for_path(&bv("d.csv")), Compression::Plain);
    assert_eq!(compression_for_path(&bv("d.csv.gz")), Compression::Gzip);
    assert_eq!(compression_for_path(&bv("d.csv.zst")), Compression::Zstd);
    assert_eq!(compression_for_path(&bv("gz")), Compression::Plain);
}

#[test]
fn gzip_source_decodes() {
    let plain = bv("a,b\n1,2\n");
    let mut enc = flate2::write::GzEncoder::new(Vec::new(), flate2::Compression::default());
    enc.write_all(&plain).unwrap();
    let packed = enc.finish().unwrap();
    assert_ne!(packed, plain);
    assert_eq!(decode_source(&bv("t.csv.gz"), packed).unwrap(), plain);

    // Garbage refuses with an I/O error carrying the path.
    let e = decode_source(&bv("bad.gz"), bv("not gzip")).unwrap_err();
    assert_eq!(e, XsvError::Io(bv("bad.gz")));
}

#[test]
fn zstd_source_decodes() {
    let plain = bv("x;y\n3;4\n");
    let packed = zstd::encode_all(&plain[..], 0).unwrap();
    assert_ne!(packed, plain);
    assert_eq!(decode_source(&bv("t.csv.zst"), packed).unwrap(), plain);
    let e = decode_source(&bv("bad.zst"), bv("junk")).unwrap_err();
    assert_eq!(e, XsvError::Io(bv("bad.zst")));
}

#[test]
fn plain_source_passes_through() {
    let plain = bv("a,b\n");
    assert_eq!(decode_source(&bv("t.csv"), plain.clone()).unwrap(), plain);
}

#[test]
fn whole_scan_through_gzip() {
    // The cursor decompresses per source: one plain file, one gzipped.
    let mut c = open_cursor(true, vec![Affinity::Blob, Affinity::Blob]);
    c.supply_source(bv("a.csv"), bv("a,b\n1,2\n")).unwrap();
    assert_eq!(c.advance().unwrap(), Advance::Row);
    assert_eq!(c.advance().unwrap(), Advance::NeedSource);
    let mut enc = flate2::write::GzEncoder::new(Vec::new(), flate2::Compression::default());
    enc.write_all(&bv("h1,h2\n3,4\n")).unwrap();
    c.supply_source(bv("b.csv.gz"), enc.finish().unwrap()).unwrap();
    assert_eq!(c.advance().unwrap(), Advance::Row);
    assert_eq!(c.column(0), Value::Text(bv("3")));
    assert_eq!(c.rowid(), 2);
}
