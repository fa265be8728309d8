//! The library's error taxonomy.
//!
//! Every failure of configuration parsing, schema resolution, source
//! opening, record decoding or plan negotiation surfaces as one
//! `XsvError` value to the immediate caller.  Two outcomes are results,
//! not errors, and never appear here: a field looked up under a name the
//! header lacks, and a column read past a short record's end; both read
//! as NULL.

use vstd::prelude::*;

verus! {

/// Why a configuration argument was rejected.
#[derive(Clone, Copy, Debug, PartialEq, Eq, Structural)]
pub enum ConfigFault {
    /// `delimiter=''`: the value holds no byte at all.
    DelimiterEmpty,
    /// The delimiter value holds more than one byte and is not a
    /// recognized escape.
    DelimiterTooLong,
    /// `quote=''`: the value holds no byte at all.
    QuoteEmpty,
    /// The quote value holds more than one byte and is not a recognized
    /// escape.
    QuoteTooLong,
    /// A backslash escape other than `\0`, `\t` or `\n`.
    UnrecognizedEscape,
    /// The delimiter or quote value was not a quoted string.
    ValueNotQuoted,
    /// The header value is none of yes/y/on/true/1/no/n/off/false/0.
    UnknownHeaderValue,
    /// The filename value was not a quoted string.
    FilenameNotQuoted,
    /// No filename argument was given and the table name names no file.
    NoFilename,
    /// No delimiter was fixed at registration and none was supplied.
    NoDelimiter,
    /// A delimiter was fixed at registration time and a `delimiter=`
    /// argument was supplied as well; the two are mutually exclusive.
    DelimiterFixed,
    /// An argument is neither a configuration option nor a column
    /// declaration.
    UnparsableArgument,
    /// A configuration option has an empty value after its `=`.
    EmptyOptionValue,
}

/// How a byte stream failed to decode into records.
#[derive(Clone, Copy, Debug, PartialEq, Eq, Structural)]
pub enum DecodeFault {
    /// A decoded field is not valid UTF-8.
    Utf8,
    /// Broken quoting: a closing quote followed by anything but a
    /// delimiter or record terminator, or a quoted field left open at
    /// end of input.
    Malformed,
}

/// The error taxonomy of the table provider.
#[derive(Clone, Debug, PartialEq, Eq)]
pub enum XsvError {
    /// Bad configuration arguments.
    Config(ConfigFault),
    /// The schema could not be determined: no declared columns and no
    /// concrete source to sniff a header from, or an undecodable header.
    Schema,
    /// A source could not be opened or decompressed; carries the path.
    Io(Vec<u8>),
    /// Bad bytes or broken quoting while decoding records.
    Decode(DecodeFault),
    /// The host engine cannot supply a binding the scan requires.
    Planning,
    /// A field was requested from text that holds no record at all.
    NoRecord,
    /// A record reference was used after its row was superseded.
    StaleReference,
}

impl XsvError {
    /// The path carried by an I/O error, if this is one.
    pub fn io_path(&self) -> (r: Option<&Vec<u8>>)
        ensures
            match self {
                XsvError::Io(p) => r == Some(p),
                _ => r is None,
            },
    {
        match self {
            XsvError::Io(p) => Some(p),
            _ => None,
        }
    }

    /// A human-readable description of the error, without the path.
    pub fn message(&self) -> (r: &'static str)
        ensures
            r@ == self.spec_message()@,
    {
        match self {
            XsvError::Config(f) => match f {
                ConfigFault::DelimiterEmpty => "delimiter must have at least 1 character",
                ConfigFault::DelimiterTooLong => "delimiter can only be 1 character long",
                ConfigFault::QuoteEmpty => "quote must have at least 1 character",
                ConfigFault::QuoteTooLong => "quote can only be 1 character long",
                ConfigFault::UnrecognizedEscape => "unrecognized slash value",
                ConfigFault::ValueNotQuoted => "value must be string, wrap in single or double quotes.",
                ConfigFault::UnknownHeaderValue => "unknown header value",
                ConfigFault::FilenameNotQuoted => "'filename' value must be string, wrap in single or double quotes.",
                ConfigFault::NoFilename => "no filename given. Specify a path to a CSV file to read from with 'filename=\"path.csv\"'",
                ConfigFault::NoDelimiter => "no delimiter given. Specify a delimiter to use with 'delimiter=\"\t\"'",
                ConfigFault::DelimiterFixed => "delimiter is fixed for this table and cannot be overridden",
                ConfigFault::UnparsableArgument => "argument is neither a configuration option or column declaration.",
                ConfigFault::EmptyOptionValue => "empty value for configuration key",
            },
            XsvError::Schema => "could not determine a schema",
            XsvError::Io(_) => "could not open source",
            XsvError::Decode(f) => match f {
                DecodeFault::Utf8 => "Error: UTF8 error while reading next row",
                DecodeFault::Malformed => "Error while reading next row: broken quoting",
            },
            XsvError::Planning => "a required binding was not supplied",
            XsvError::NoRecord => "No CSV record found.",
            XsvError::StaleReference => "record reference used after its row was superseded",
        }
    }

    /// What `message` returns, variant by variant.
    pub open spec fn spec_message(&self) -> &'static str {
        match self {
            XsvError::Config(f) => match f {
                ConfigFault::DelimiterEmpty => "delimiter must have at least 1 character",
                ConfigFault::DelimiterTooLong => "delimiter can only be 1 character long",
                ConfigFault::QuoteEmpty => "quote must have at least 1 character",
                ConfigFault::QuoteTooLong => "quote can only be 1 character long",
                ConfigFault::UnrecognizedEscape => "unrecognized slash value",
                ConfigFault::ValueNotQuoted => "value must be string, wrap in single or double quotes.",
                ConfigFault::UnknownHeaderValue => "unknown header value",
                ConfigFault::FilenameNotQuoted => "'filename' value must be string, wrap in single or double quotes.",
                ConfigFault::NoFilename => "no filename given. Specify a path to a CSV file to read from with 'filename=\"path.csv\"'",
                ConfigFault::NoDelimiter => "no delimiter given. Specify a delimiter to use with 'delimiter=\"\t\"'",
                ConfigFault::DelimiterFixed => "delimiter is fixed for this table and cannot be overridden",
                ConfigFault::UnparsableArgument => "argument is neither a configuration option or column declaration.",
                ConfigFault::EmptyOptionValue => "empty value for configuration key",
            },
            XsvError::Schema => "could not determine a schema",
            XsvError::Io(_) => "could not open source",
            XsvError::Decode(f) => match f {
                DecodeFault::Utf8 => "Error: UTF8 error while reading next row",
                DecodeFault::Malformed => "Error while reading next row: broken quoting",
            },
            XsvError::Planning => "a required binding was not supplied",
            XsvError::NoRecord => "No CSV record found.",
            XsvError::StaleReference => "record reference used after its row was superseded",
        }
    }
}

} // verus!
