//! Column values and affinity-driven coercion.
//!
//! A column's affinity is derived from its declared type by
//! case-insensitive substring match, first rule wins: `int` is
//! Integer; `char`, `clob` or `text` is Text; `blob` or an empty type
//! is Blob; `real`, `floa` or `doub` is Real; anything else is
//! Numeric.  Coercion is permissive: an Integer column parses its
//! text as a 64-bit integer and hands the raw text back unchanged
//! when the parse fails — never NULL, never an error.  A Real value
//! carries its raw text; the host glue converts it to a double (or
//! falls back to the text) at its own boundary, since floating point
//! stays outside the library.  Numeric has no defined coercion of its
//! own here and is handled like Text.

use vstd::prelude::*;

use crate::bytes::{
    contains_bytes, parse_i64, spec_contains, spec_lower, spec_parse_i64, spec_trim,
    to_ascii_lower, trim,
};

verus! {

/// A column's declared preferred value type.
#[derive(Clone, Copy, Debug, PartialEq, Eq, Structural)]
pub enum Affinity {
    /// `char`, `clob` or `text`.
    Text,
    /// `int`.
    Integer,
    /// `real`, `floa` or `doub`.
    Real,
    /// `blob`, or no declared type.
    Blob,
    /// Anything else.
    Numeric,
}

/// `int`
pub open spec fn lit_int() -> Seq<u8> {
    seq![0x69u8, 0x6e, 0x74]
}

/// `char`
pub open spec fn lit_char() -> Seq<u8> {
    seq![0x63u8, 0x68, 0x61, 0x72]
}

/// `clob`
pub open spec fn lit_clob() -> Seq<u8> {
    seq![0x63u8, 0x6c, 0x6f, 0x62]
}

/// `text`
pub open spec fn lit_text() -> Seq<u8> {
    seq![0x74u8, 0x65, 0x78, 0x74]
}

/// `blob`
pub open spec fn lit_blob() -> Seq<u8> {
    seq![0x62u8, 0x6c, 0x6f, 0x62]
}

/// `real`
pub open spec fn lit_real() -> Seq<u8> {
    seq![0x72u8, 0x65, 0x61, 0x6c]
}

/// `floa`
pub open spec fn lit_floa() -> Seq<u8> {
    seq![0x66u8, 0x6c, 0x6f, 0x61]
}

/// `doub`
pub open spec fn lit_doub() -> Seq<u8> {
    seq![0x64u8, 0x6f, 0x75, 0x62]
}

/// The affinity a declared type string names: trimmed, lowered, then
/// matched by substring, first rule to match wins.
pub open spec fn spec_affinity_from_type(t: Seq<u8>) -> Affinity {
    let l = spec_lower(spec_trim(t));
    if spec_contains(l, lit_int()) {
        Affinity::Integer
    } else if spec_contains(l, lit_char()) || spec_contains(l, lit_clob()) || spec_contains(
        l,
        lit_text(),
    ) {
        Affinity::Text
    } else if spec_contains(l, lit_blob()) || l.len() == 0 {
        Affinity::Blob
    } else if spec_contains(l, lit_real()) || spec_contains(l, lit_floa()) || spec_contains(
        l,
        lit_doub(),
    ) {
        Affinity::Real
    } else {
        Affinity::Numeric
    }
}

/// The affinity of an optional declared type: none means Blob.
pub open spec fn spec_affinity_of(t: Option<Seq<u8>>) -> Affinity {
    match t {
        Some(s) => spec_affinity_from_type(s),
        None => Affinity::Blob,
    }
}

/// Derive a column's affinity from its declared type string.
pub fn affinity_from_type(t: &Vec<u8>) -> (r: Affinity)
    ensures
        r == spec_affinity_from_type(t@),
{
    let l = to_ascii_lower(&trim(t));
    let li: Vec<u8> = vec![0x69u8, 0x6e, 0x74];
    let lc: Vec<u8> = vec![0x63u8, 0x68, 0x61, 0x72];
    let lcl: Vec<u8> = vec![0x63u8, 0x6c, 0x6f, 0x62];
    let lt: Vec<u8> = vec![0x74u8, 0x65, 0x78, 0x74];
    let lb: Vec<u8> = vec![0x62u8, 0x6c, 0x6f, 0x62];
    let lr: Vec<u8> = vec![0x72u8, 0x65, 0x61, 0x6c];
    let lf: Vec<u8> = vec![0x66u8, 0x6c, 0x6f, 0x61];
    let ld: Vec<u8> = vec![0x64u8, 0x6f, 0x75, 0x62];
    proof {
        assert(li@ =~= lit_int());
        assert(lc@ =~= lit_char());
        assert(lcl@ =~= lit_clob());
        assert(lt@ =~= lit_text());
        assert(lb@ =~= lit_blob());
        assert(lr@ =~= lit_real());
        assert(lf@ =~= lit_floa());
        assert(ld@ =~= lit_doub());
    }
    if contains_bytes(&l, li.as_slice()) {
        Affinity::Integer
    } else if contains_bytes(&l, lc.as_slice()) || contains_bytes(&l, lcl.as_slice())
        || contains_bytes(&l, lt.as_slice()) {
        Affinity::Text
    } else if contains_bytes(&l, lb.as_slice()) || l.len() == 0 {
        Affinity::Blob
    } else if contains_bytes(&l, lr.as_slice()) || contains_bytes(&l, lf.as_slice())
        || contains_bytes(&l, ld.as_slice()) {
        Affinity::Real
    } else {
        Affinity::Numeric
    }
}

/// Derive a column's affinity from its optional declared type.
pub fn affinity_of(t: &Option<Vec<u8>>) -> (r: Affinity)
    ensures
        r == spec_affinity_of(match t {
            Some(s) => Some(s@),
            None => None,
        }),
{
    match t {
        Some(s) => affinity_from_type(s),
        None => Affinity::Blob,
    }
}

/// One read column value.
#[derive(Debug, PartialEq, Eq)]
pub enum Value {
    /// A missing column: past a short record's end.
    Null,
    /// A parsed 64-bit integer.
    Integer(i64),
    /// Text destined for a double conversion at the host boundary;
    /// carries the raw field text.
    Real(Vec<u8>),
    /// Field text handed through unchanged.
    Text(Vec<u8>),
}

/// Spec model of a column value.
pub enum ValueSpec {
    /// A missing column.
    Null,
    /// A parsed integer.
    Integer(i64),
    /// Text for the host's double conversion.
    Real(Seq<u8>),
    /// Text unchanged.
    Text(Seq<u8>),
}

impl View for Value {
    type V = ValueSpec;

    open spec fn view(&self) -> ValueSpec {
        match self {
            Value::Null => ValueSpec::Null,
            Value::Integer(n) => ValueSpec::Integer(*n),
            Value::Real(t) => ValueSpec::Real(t@),
            Value::Text(t) => ValueSpec::Text(t@),
        }
    }
}

/// What coercion yields: Integer parses or degrades to the raw text;
/// Real defers the double conversion, carrying the raw text; Text,
/// Blob and Numeric hand the text through.
pub open spec fn spec_coerce(aff: Affinity, f: Seq<u8>) -> ValueSpec {
    match aff {
        Affinity::Integer => match spec_parse_i64(f) {
            Some(n) => ValueSpec::Integer(n),
            None => ValueSpec::Text(f),
        },
        Affinity::Real => ValueSpec::Real(f),
        _ => ValueSpec::Text(f),
    }
}

/// Coerce one field text under a column affinity.
pub fn coerce(aff: Affinity, f: Vec<u8>) -> (r: Value)
    ensures
        r@ == spec_coerce(aff, f@),
{
    match aff {
        Affinity::Integer => {
            match parse_i64(&f) {
                Some(n) => Value::Integer(n),
                None => Value::Text(f),
            }
        },
        Affinity::Real => Value::Real(f),
        _ => Value::Text(f),
    }
}

/// A declared-Integer column holding text that is not an integer
/// returns that text unchanged: never NULL, never an error.
pub proof fn lemma_integer_affinity_degrades_to_text(f: Seq<u8>)
    requires
        spec_parse_i64(f) is None,
    ensures
        spec_coerce(Affinity::Integer, f) == ValueSpec::Text(f),
{
}

} // verus!
