//! Configuration-argument parsing and the value parsers' corners.

use sqlite_xsv::config::{
    parse_argument, parse_delimiter_config_value, parse_filename_config_value,
    parse_header_config_value, parse_quote_config_value, parse_reader_arguments,
    parse_xsv_arguments, Argument, ColumnDeclaration, ConfigOptionValue,
};
use sqlite_xsv::error::{ConfigFault, XsvError};

fn bv(s: &str) -> Vec<u8> {
    s.as_bytes().to_vec()
}

fn args(list: &[&str]) -> Vec<Vec<u8>> {
    list.iter().map(|s| bv(s)).collect()
}

#[test]
fn it_works() {
    let r = parse_xsv_arguments(&args(&["filename='a.csv'"]), Some(b','), &bv("table_name"), false)
        .unwrap();
    assert_eq!(r.filename, bv("a.csv"));
    assert_eq!(r.header, true);
    assert_eq!(r.delimiter, b',');
    assert_eq!(r.quote, b'"');
    assert_eq!(r.columns, None);
}

#[test]
fn test_delimiter() {
    let r = parse_xsv_arguments(&args(&["filename='a.csv'"]), Some(b','), &bv("table_name"), false)
        .unwrap();
    assert_eq!(r.filename, bv("a.csv"));
    assert_eq!(r.header, true);
    assert_eq!(r.delimiter, b',');
    assert_eq!(r.quote, b'"');
    assert_eq!(r.columns, None);

    let r = parse_xsv_arguments(
        &args(&["filename='a.csv'", "a int", "b text"]),
        Some(b','),
        &bv("table_name"),
        false,
    )
    .unwrap();
    assert_eq!(r.filename, bv("a.csv"));
    assert_eq!(r.header, true);
    assert_eq!(r.delimiter, b',');
    assert_eq!(r.quote, b'"');
    assert_eq!(
        r.columns,
        Some(vec![
            ColumnDeclaration {
                name: bv("a"),
                declared_type: Some(bv("int")),
                constraints: None
            },
            ColumnDeclaration {
                name: bv("b"),
                declared_type: Some(bv("text")),
                constraints: None
            },
        ])
    );

    let r = parse_xsv_arguments(
        &args(&["filename='a.csv'", "delimiter='|'", "quote='x'"]),
        None,
        &bv("table_name"),
        false,
    )
    .unwrap();
    assert_eq!(r.filename, bv("a.csv"));
    assert_eq!(r.header, true);
    assert_eq!(r.delimiter, b'|');
    assert_eq!(r.quote, b'x');
    assert_eq!(r.columns, None);

    let r = parse_xsv_arguments(
        &args(&["filename='a.csv'", "delimiter='|'", "quote='\0'"]),
        None,
        &bv("table_name"),
        false,
    )
    .unwrap();
    assert_eq!(r.filename, bv("a.csv"));
    assert_eq!(r.header, true);
    assert_eq!(r.delimiter, b'|');
    assert_eq!(r.quote, b'\0');
    assert_eq!(r.columns, None);

    let e = parse_xsv_arguments(
        &args(&["filename='a.csv'", "delimiter=''"]),
        None,
        &bv("table_name"),
        false,
    )
    .unwrap_err();
    assert_eq!(e.message(), "delimiter must have at least 1 character");

    let r = parse_xsv_arguments(
        &args(&["filename='a.csv'", "delimiter='\t'"]),
        None,
        &bv("table_name"),
        false,
    )
    .unwrap();
    assert_eq!(r.filename, bv("a.csv"));
    assert_eq!(r.header, true);
    assert_eq!(r.delimiter, b'\t');
    assert_eq!(r.quote, b'"');
    assert_eq!(r.columns, None);

    let e = parse_xsv_arguments(
        &args(&["filename='a.csv'", "delimiter='💖'"]),
        None,
        &bv("table_name"),
        false,
    )
    .unwrap_err();
    assert_eq!(e.message(), "delimiter can only be 1 character long");
}

#[test]
fn argument_classification() {
    match parse_argument(&bv("name text")).unwrap() {
        Argument::Column(c) => {
            assert_eq!(c.name, bv("name"));
            assert_eq!(c.declared_type, Some(bv("text")));
            assert_eq!(c.constraints, None);
        }
        _ => panic!("expected a column declaration"),
    }
    match parse_argument(&bv("name")).unwrap() {
        Argument::Column(c) => {
            assert_eq!(c.name, bv("name"));
            assert_eq!(c.declared_type, None);
        }
        _ => panic!("expected a column declaration"),
    }
    match parse_argument(&bv("option='quoted'")).unwrap() {
        Argument::Config(k, v) => {
            assert_eq!(k, bv("option"));
            assert_eq!(v, ConfigOptionValue::Quoted(bv("quoted")));
        }
        _ => panic!("expected a configuration option"),
    }
    match parse_argument(&bv("option=:param")).unwrap() {
        Argument::Config(k, v) => {
            assert_eq!(k, bv("option"));
            assert_eq!(v, ConfigOptionValue::SqliteParameter(bv(":param")));
        }
        _ => panic!("expected a configuration option"),
    }
    match parse_argument(&bv("option=bareword")).unwrap() {
        Argument::Config(k, v) => {
            assert_eq!(k, bv("option"));
            assert_eq!(v, ConfigOptionValue::Bareword(bv("bareword")));
        }
        _ => panic!("expected a configuration option"),
    }
    let e = parse_argument(&bv("   ")).unwrap_err();
    assert_eq!(e, XsvError::Config(ConfigFault::UnparsableArgument));
    let e = parse_argument(&bv("option=")).unwrap_err();
    assert_eq!(e, XsvError::Config(ConfigFault::EmptyOptionValue));
}

#[test]
fn delimiter_and_quote_escapes() {
    assert_eq!(
        parse_delimiter_config_value(&ConfigOptionValue::Quoted(bv("\\t"))).unwrap(),
        b'\t'
    );
    assert_eq!(
        parse_delimiter_config_value(&ConfigOptionValue::Quoted(bv("\\n"))).unwrap(),
        b'\n'
    );
    assert_eq!(
        parse_delimiter_config_value(&ConfigOptionValue::Quoted(bv("\\0"))).unwrap(),
        0u8
    );
    assert_eq!(
        parse_delimiter_config_value(&ConfigOptionValue::Quoted(bv("\\x"))).unwrap_err(),
        XsvError::Config(ConfigFault::UnrecognizedEscape)
    );
    assert_eq!(
        parse_delimiter_config_value(&ConfigOptionValue::Bareword(bv(","))).unwrap_err(),
        XsvError::Config(ConfigFault::ValueNotQuoted)
    );
    assert_eq!(
        parse_quote_config_value(&ConfigOptionValue::Quoted(bv(""))).unwrap_err(),
        XsvError::Config(ConfigFault::QuoteEmpty)
    );
    assert_eq!(
        parse_quote_config_value(&ConfigOptionValue::Quoted(bv("ab"))).unwrap_err(),
        XsvError::Config(ConfigFault::QuoteTooLong)
    );
    assert_eq!(
        parse_quote_config_value(&ConfigOptionValue::Quoted(bv("'"))).unwrap(),
        b'\''
    );
}

#[test]
fn header_tokens() {
    for t in ["yes", "y", "on", "true", "1", "YES", "On", "TRUE"] {
        assert_eq!(
            parse_header_config_value(&ConfigOptionValue::Bareword(bv(t))).unwrap(),
            true,
            "token {t}"
        );
    }
    for t in ["no", "n", "off", "false", "0", "NO", "Off", "FALSE"] {
        assert_eq!(
            parse_header_config_value(&ConfigOptionValue::Quoted(bv(t))).unwrap(),
            false,
            "token {t}"
        );
    }
    assert_eq!(
        parse_header_config_value(&ConfigOptionValue::Bareword(bv("maybe"))).unwrap_err(),
        XsvError::Config(ConfigFault::UnknownHeaderValue)
    );
}

#[test]
fn filename_value() {
    assert_eq!(
        parse_filename_config_value(ConfigOptionValue::Quoted(bv("p.csv"))).unwrap(),
        bv("p.csv")
    );
    assert_eq!(
        parse_filename_config_value(ConfigOptionValue::Bareword(bv("p.csv"))).unwrap_err(),
        XsvError::Config(ConfigFault::FilenameNotQuoted)
    );
}

#[test]
fn missing_filename_and_delimiter() {
    let e = parse_xsv_arguments(&args(&[]), Some(b','), &bv("t"), false).unwrap_err();
    assert_eq!(e, XsvError::Config(ConfigFault::NoFilename));

    // The table name stands in when it resolves to a file.
    let r = parse_xsv_arguments(&args(&[]), Some(b','), &bv("data.csv"), true).unwrap();
    assert_eq!(r.filename, bv("data.csv"));

    let e = parse_xsv_arguments(&args(&["filename='a.csv'"]), None, &bv("t"), false).unwrap_err();
    assert_eq!(e, XsvError::Config(ConfigFault::NoDelimiter));
}

#[test]
fn fixed_delimiter_is_exclusive() {
    let e = parse_xsv_arguments(
        &args(&["filename='a.csv'", "delimiter='|'"]),
        Some(b','),
        &bv("t"),
        false,
    )
    .unwrap_err();
    assert_eq!(e, XsvError::Config(ConfigFault::DelimiterFixed));
    assert_eq!(
        e.message(),
        "delimiter is fixed for this table and cannot be overridden"
    );
}

#[test]
fn reader_arguments() {
    let r = parse_reader_arguments(&args(&["a int", "b", "header=false"]), Some(b'\t')).unwrap();
    assert_eq!(r.header, false);
    assert_eq!(r.delimiter, b'\t');
    assert_eq!(r.quote, b'"');
    assert_eq!(r.columns.len(), 2);
    assert_eq!(r.columns[0].name, bv("a"));
    assert_eq!(r.columns[1].declared_type, None);

    // The reader flavour ignores a filename option.
    let r = parse_reader_arguments(&args(&["filename=bare"]), Some(b',')).unwrap();
    assert_eq!(r.columns.len(), 0);

    let e = parse_reader_arguments(&args(&["a int"]), None).unwrap_err();
    assert_eq!(e, XsvError::Config(ConfigFault::NoDelimiter));
}
