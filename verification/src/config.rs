//! The dialect-configuration resolver.
//!
//! A table is created with a list of textual arguments; each is either
//! a column declaration (`name [type ...]`) or a configuration option
//! (`key=value`).  The recognized keys are `filename`, `header`,
//! `delimiter` and `quote`; unknown keys are ignored.  A delimiter or
//! quote value must be a quoted, single-byte string, with the escapes
//! `\0`, `\t` and `\n` accepted.  A delimiter fixed at registration
//! time and an explicit `delimiter=` argument are mutually exclusive.

use vstd::prelude::*;

use crate::bytes::{
    eq_bytes, find_byte, find_byte_in, spec_lower, spec_trim, subvec, to_ascii_lower, trim,
};
use crate::error::{ConfigFault, XsvError};

verus! {

// ---------------------------------------------------------------
// The data: parsed arguments and their spec-level models.
// ---------------------------------------------------------------

/// The value of a `key=value` argument.
#[derive(Debug, PartialEq, Eq)]
pub enum ConfigOptionValue {
    /// A single- or double-quoted string, quotes stripped.
    Quoted(Vec<u8>),
    /// A `:name` or `@name` parameter reference.
    SqliteParameter(Vec<u8>),
    /// Any other word.
    Bareword(Vec<u8>),
}

/// Spec model of a configuration value.
pub enum ValueModel {
    /// A quoted string, quotes stripped.
    Quoted(Seq<u8>),
    /// A parameter reference.
    SqliteParameter(Seq<u8>),
    /// Any other word.
    Bareword(Seq<u8>),
}

impl View for ConfigOptionValue {
    type V = ValueModel;

    open spec fn view(&self) -> ValueModel {
        match self {
            ConfigOptionValue::Quoted(v) => ValueModel::Quoted(v@),
            ConfigOptionValue::SqliteParameter(v) => ValueModel::SqliteParameter(v@),
            ConfigOptionValue::Bareword(v) => ValueModel::Bareword(v@),
        }
    }
}

/// One declared column: a name, an optional declared type, and
/// (reserved) constraint text.
#[derive(Debug, PartialEq, Eq)]
pub struct ColumnDeclaration {
    /// The column's name.
    pub name: Vec<u8>,
    /// The declared type, if one followed the name.
    pub declared_type: Option<Vec<u8>>,
    /// Constraint text; never produced by this parser.
    pub constraints: Option<Vec<u8>>,
}

/// Spec model of a column declaration.
#[verifier::ext_equal]
pub struct ColumnModel {
    /// The column's name.
    pub name: Seq<u8>,
    /// The declared type, if any.
    pub declared_type: Option<Seq<u8>>,
    /// Constraint text, if any.
    pub constraints: Option<Seq<u8>>,
}

impl View for ColumnDeclaration {
    type V = ColumnModel;

    open spec fn view(&self) -> ColumnModel {
        ColumnModel {
            name: self.name@,
            declared_type: match &self.declared_type {
                Some(t) => Some(t@),
                None => None,
            },
            constraints: match &self.constraints {
                Some(c) => Some(c@),
                None => None,
            },
        }
    }
}

/// One parsed constructor argument.
#[derive(Debug, PartialEq, Eq)]
pub enum Argument {
    /// A column declaration.
    Column(ColumnDeclaration),
    /// A `key=value` option.
    Config(Vec<u8>, ConfigOptionValue),
}

/// Spec model of a parsed argument.
pub enum ArgumentModel {
    /// A column declaration.
    Column(ColumnModel),
    /// A `key=value` option: key, then value.
    Config(Seq<u8>, ValueModel),
}

impl View for Argument {
    type V = ArgumentModel;

    open spec fn view(&self) -> ArgumentModel {
        match self {
            Argument::Column(c) => ArgumentModel::Column(c@),
            Argument::Config(k, v) => ArgumentModel::Config(k@, v@),
        }
    }
}

// ---------------------------------------------------------------
// The recognized key and token spellings, as byte sequences.
// ---------------------------------------------------------------

/// `filename`
pub open spec fn lit_filename() -> Seq<u8> {
    seq![0x66u8, 0x69, 0x6c, 0x65, 0x6e, 0x61, 0x6d, 0x65]
}

/// `header`
pub open spec fn lit_header() -> Seq<u8> {
    seq![0x68u8, 0x65, 0x61, 0x64, 0x65, 0x72]
}

/// `delimiter`
pub open spec fn lit_delimiter() -> Seq<u8> {
    seq![0x64u8, 0x65, 0x6c, 0x69, 0x6d, 0x69, 0x74, 0x65, 0x72]
}

/// `quote`
pub open spec fn lit_quote() -> Seq<u8> {
    seq![0x71u8, 0x75, 0x6f, 0x74, 0x65]
}

/// The tokens meaning "header present": yes, y, on, true, 1.
pub open spec fn header_true_token(s: Seq<u8>) -> bool {
    ||| s =~= seq![0x79u8, 0x65, 0x73]
    ||| s =~= seq![0x79u8]
    ||| s =~= seq![0x6fu8, 0x6e]
    ||| s =~= seq![0x74u8, 0x72, 0x75, 0x65]
    ||| s =~= seq![0x31u8]
}

/// The tokens meaning "no header": no, n, off, false, 0.
pub open spec fn header_false_token(s: Seq<u8>) -> bool {
    ||| s =~= seq![0x6eu8, 0x6f]
    ||| s =~= seq![0x6eu8]
    ||| s =~= seq![0x6fu8, 0x66, 0x66]
    ||| s =~= seq![0x66u8, 0x61, 0x6c, 0x73, 0x65]
    ||| s =~= seq![0x30u8]
}

fn lit_filename_vec() -> (r: Vec<u8>)
    ensures
        r@ == lit_filename(),
{
    let r: Vec<u8> = vec![0x66u8, 0x69, 0x6c, 0x65, 0x6e, 0x61, 0x6d, 0x65];
    proof {
        assert(r@ =~= lit_filename());
    }
    r
}

fn lit_header_vec() -> (r: Vec<u8>)
    ensures
        r@ == lit_header(),
{
    let r: Vec<u8> = vec![0x68u8, 0x65, 0x61, 0x64, 0x65, 0x72];
    proof {
        assert(r@ =~= lit_header());
    }
    r
}

fn lit_delimiter_vec() -> (r: Vec<u8>)
    ensures
        r@ == lit_delimiter(),
{
    let r: Vec<u8> = vec![0x64u8, 0x65, 0x6c, 0x69, 0x6d, 0x69, 0x74, 0x65, 0x72];
    proof {
        assert(r@ =~= lit_delimiter());
    }
    r
}

fn lit_quote_vec() -> (r: Vec<u8>)
    ensures
        r@ == lit_quote(),
{
    let r: Vec<u8> = vec![0x71u8, 0x75, 0x6f, 0x74, 0x65];
    proof {
        assert(r@ =~= lit_quote());
    }
    r
}

// ---------------------------------------------------------------
// Parsing one argument.
// ---------------------------------------------------------------

/// What a `key=value` right-hand side means: trimmed, then classified
/// by its first byte; quotes are stripped from a quoted value.
pub open spec fn spec_parse_value(v: Seq<u8>) -> Result<ValueModel, ConfigFault> {
    let t = spec_trim(v);
    if t.len() == 0 {
        Err(ConfigFault::EmptyOptionValue)
    } else if t[0] == 0x27 || t[0] == 0x22 {
        if t.len() >= 2 {
            Ok(ValueModel::Quoted(t.subrange(1, t.len() - 1)))
        } else {
            Ok(ValueModel::Quoted(Seq::empty()))
        }
    } else if t[0] == 0x3a || t[0] == 0x40 {
        Ok(ValueModel::SqliteParameter(t))
    } else {
        Ok(ValueModel::Bareword(t))
    }
}

/// What one constructor argument means.  An argument holding `=` is a
/// configuration option: the key runs to the first `=`, the value
/// from there to the next `=` or the end.  Anything else that is not
/// blank is a column declaration: the name runs to the first space,
/// the declared type from there to the next space or the end.
pub open spec fn spec_parse_argument(s: Seq<u8>) -> Result<ArgumentModel, ConfigFault> {
    if find_byte(s, 0x3d) < s.len() {
        let k = s.take(find_byte(s, 0x3d));
        let rest = s.skip(find_byte(s, 0x3d) + 1);
        let v = rest.take(find_byte(rest, 0x3d));
        match spec_parse_value(v) {
            Ok(vm) => Ok(ArgumentModel::Config(k, vm)),
            Err(e) => Err(e),
        }
    } else if spec_trim(s).len() == 0 {
        Err(ConfigFault::UnparsableArgument)
    } else {
        let sp = find_byte(s, 0x20);
        if sp == s.len() {
            Ok(
                ArgumentModel::Column(
                    ColumnModel { name: s, declared_type: None, constraints: None },
                ),
            )
        } else {
            let rest = s.skip(sp + 1);
            Ok(
                ArgumentModel::Column(
                    ColumnModel {
                        name: s.take(sp),
                        declared_type: Some(rest.take(find_byte(rest, 0x20))),
                        constraints: None,
                    },
                ),
            )
        }
    }
}

/// Parse one constructor argument.
pub fn parse_argument(s: &Vec<u8>) -> (r: Result<Argument, XsvError>)
    ensures
        match r {
            Ok(a) => spec_parse_argument(s@) == Ok::<ArgumentModel, ConfigFault>(a@),
            Err(e) => (e matches XsvError::Config(f) && spec_parse_argument(s@) == Err::<
                ArgumentModel,
                ConfigFault,
            >(f)),
        },
{
    let eq_pos = find_byte_in(s, 0x3d);
    if eq_pos < s.len() {
        let k = subvec(s, 0, eq_pos);
        let rest = subvec(s, eq_pos + 1, s.len());
        proof {
            assert(rest@ =~= s@.skip(find_byte(s@, 0x3d) + 1));
        }
        let v_end = find_byte_in(&rest, 0x3d);
        let v = subvec(&rest, 0, v_end);
        let t = trim(&v);
        if t.len() == 0 {
            return Err(XsvError::Config(ConfigFault::EmptyOptionValue));
        }
        let b0 = t[0];
        if b0 == 0x27 || b0 == 0x22 {
            let inner = if t.len() >= 2 {
                subvec(&t, 1, t.len() - 1)
            } else {
                Vec::new()
            };
            proof {
                if t@.len() < 2 {
                    assert(inner@ =~= Seq::<u8>::empty());
                }
            }
            Ok(Argument::Config(k, ConfigOptionValue::Quoted(inner)))
        } else if b0 == 0x3a || b0 == 0x40 {
            Ok(Argument::Config(k, ConfigOptionValue::SqliteParameter(t)))
        } else {
            Ok(Argument::Config(k, ConfigOptionValue::Bareword(t)))
        }
    } else {
        let t = trim(s);
        if t.len() == 0 {
            return Err(XsvError::Config(ConfigFault::UnparsableArgument));
        }
        let sp = find_byte_in(s, 0x20);
        if sp == s.len() {
            let name = subvec(s, 0, s.len());
            proof {
                assert(name@ =~= s@);
            }
            Ok(
                Argument::Column(
                    ColumnDeclaration { name, declared_type: None, constraints: None },
                ),
            )
        } else {
            let name = subvec(s, 0, sp);
            let rest = subvec(s, sp + 1, s.len());
            proof {
                assert(rest@ =~= s@.skip(find_byte(s@, 0x20) + 1));
            }
            let t_end = find_byte_in(&rest, 0x20);
            let ty = subvec(&rest, 0, t_end);
            Ok(
                Argument::Column(
                    ColumnDeclaration { name, declared_type: Some(ty), constraints: None },
                ),
            )
        }
    }
}

// ---------------------------------------------------------------
// The four configuration-value parsers.
// ---------------------------------------------------------------

/// What a single-byte value (delimiter or quote) means: it must be
/// quoted; one byte stands for itself; `\0`, `\t` and `\n` escape;
/// anything longer is refused.
pub open spec fn spec_single_byte_value(
    v: ValueModel,
    empty_fault: ConfigFault,
    long_fault: ConfigFault,
) -> Result<u8, ConfigFault> {
    match v {
        ValueModel::Quoted(s) => {
            if s.len() == 0 {
                Err(empty_fault)
            } else if s.len() == 1 {
                Ok(s[0])
            } else if s[0] != 0x5c {
                Err(long_fault)
            } else if s[1] == 0x30 {
                Ok(0x00)
            } else if s[1] == 0x74 {
                Ok(0x09)
            } else if s[1] == 0x6e {
                Ok(0x0a)
            } else {
                Err(ConfigFault::UnrecognizedEscape)
            }
        },
        _ => Err(ConfigFault::ValueNotQuoted),
    }
}

fn single_byte_value(value: &ConfigOptionValue, empty_fault: ConfigFault, long_fault: ConfigFault) -> (r:
    Result<u8, XsvError>)
    ensures
        match r {
            Ok(b) => spec_single_byte_value(value@, empty_fault, long_fault) == Ok::<
                u8,
                ConfigFault,
            >(b),
            Err(e) => (e matches XsvError::Config(f) && spec_single_byte_value(
                value@,
                empty_fault,
                long_fault,
            ) == Err::<u8, ConfigFault>(f)),
        },
{
    match value {
        ConfigOptionValue::Quoted(s) => {
            if s.len() == 0 {
                Err(XsvError::Config(empty_fault))
            } else if s.len() == 1 {
                Ok(s[0])
            } else if s[0] != 0x5c {
                Err(XsvError::Config(long_fault))
            } else if s[1] == 0x30 {
                Ok(0x00)
            } else if s[1] == 0x74 {
                Ok(0x09)
            } else if s[1] == 0x6e {
                Ok(0x0a)
            } else {
                Err(XsvError::Config(ConfigFault::UnrecognizedEscape))
            }
        },
        _ => Err(XsvError::Config(ConfigFault::ValueNotQuoted)),
    }
}

/// What a `delimiter=` value means.
pub open spec fn spec_delimiter_value(v: ValueModel) -> Result<u8, ConfigFault> {
    spec_single_byte_value(v, ConfigFault::DelimiterEmpty, ConfigFault::DelimiterTooLong)
}

/// Parse the `delimiter=` configuration value: a quoted, single-byte
/// string, with `\0`, `\t` and `\n` escapes.
pub fn parse_delimiter_config_value(value: &ConfigOptionValue) -> (r: Result<u8, XsvError>)
    ensures
        match r {
            Ok(b) => spec_delimiter_value(value@) == Ok::<u8, ConfigFault>(b),
            Err(e) => (e matches XsvError::Config(f) && spec_delimiter_value(value@) == Err::<
                u8,
                ConfigFault,
            >(f)),
        },
{
    single_byte_value(value, ConfigFault::DelimiterEmpty, ConfigFault::DelimiterTooLong)
}

/// What a `quote=` value means.
pub open spec fn spec_quote_value(v: ValueModel) -> Result<u8, ConfigFault> {
    spec_single_byte_value(v, ConfigFault::QuoteEmpty, ConfigFault::QuoteTooLong)
}

/// Parse the `quote=` configuration value: a quoted, single-byte
/// string, with `\0`, `\t` and `\n` escapes.
pub fn parse_quote_config_value(value: &ConfigOptionValue) -> (r: Result<u8, XsvError>)
    ensures
        match r {
            Ok(b) => spec_quote_value(value@) == Ok::<u8, ConfigFault>(b),
            Err(e) => (e matches XsvError::Config(f) && spec_quote_value(value@) == Err::<
                u8,
                ConfigFault,
            >(f)),
        },
{
    single_byte_value(value, ConfigFault::QuoteEmpty, ConfigFault::QuoteTooLong)
}

/// What a `header=` value means: a case-insensitive yes/no token.
pub open spec fn spec_header_value(v: ValueModel) -> Result<bool, ConfigFault> {
    match v {
        ValueModel::Quoted(s) | ValueModel::Bareword(s) => {
            if header_true_token(spec_lower(s)) {
                Ok(true)
            } else if header_false_token(spec_lower(s)) {
                Ok(false)
            } else {
                Err(ConfigFault::UnknownHeaderValue)
            }
        },
        _ => Err(ConfigFault::UnknownHeaderValue),
    }
}

/// Parse the `header=` configuration value: yes/y/on/true/1 or
/// no/n/off/false/0, case-insensitively, quoted or bare.
pub fn parse_header_config_value(value: &ConfigOptionValue) -> (r: Result<bool, XsvError>)
    ensures
        match r {
            Ok(b) => spec_header_value(value@) == Ok::<bool, ConfigFault>(b),
            Err(e) => (e matches XsvError::Config(f) && spec_header_value(value@) == Err::<
                bool,
                ConfigFault,
            >(f)),
        },
{
    let s = match value {
        ConfigOptionValue::Quoted(s) => s,
        ConfigOptionValue::Bareword(s) => s,
        ConfigOptionValue::SqliteParameter(_) => {
            return Err(XsvError::Config(ConfigFault::UnknownHeaderValue));
        },
    };
    let l = to_ascii_lower(s);
    let yes: Vec<u8> = vec![0x79u8, 0x65, 0x73];
    let y: Vec<u8> = vec![0x79u8];
    let on: Vec<u8> = vec![0x6fu8, 0x6e];
    let tr: Vec<u8> = vec![0x74u8, 0x72, 0x75, 0x65];
    let one: Vec<u8> = vec![0x31u8];
    proof {
        assert(yes@ =~= seq![0x79u8, 0x65, 0x73]);
        assert(y@ =~= seq![0x79u8]);
        assert(on@ =~= seq![0x6fu8, 0x6e]);
        assert(tr@ =~= seq![0x74u8, 0x72, 0x75, 0x65]);
        assert(one@ =~= seq![0x31u8]);
    }
    if eq_bytes(&l, &yes) || eq_bytes(&l, &y) || eq_bytes(&l, &on) || eq_bytes(&l, &tr)
        || eq_bytes(&l, &one) {
        proof {
            assert(header_true_token(spec_lower(s@)));
        }
        return Ok(true);
    }
    let no: Vec<u8> = vec![0x6eu8, 0x6f];
    let n: Vec<u8> = vec![0x6eu8];
    let off: Vec<u8> = vec![0x6fu8, 0x66, 0x66];
    let fa: Vec<u8> = vec![0x66u8, 0x61, 0x6c, 0x73, 0x65];
    let zero: Vec<u8> = vec![0x30u8];
    proof {
        assert(no@ =~= seq![0x6eu8, 0x6f]);
        assert(n@ =~= seq![0x6eu8]);
        assert(off@ =~= seq![0x6fu8, 0x66, 0x66]);
        assert(fa@ =~= seq![0x66u8, 0x61, 0x6c, 0x73, 0x65]);
        assert(zero@ =~= seq![0x30u8]);
    }
    if eq_bytes(&l, &no) || eq_bytes(&l, &n) || eq_bytes(&l, &off) || eq_bytes(&l, &fa)
        || eq_bytes(&l, &zero) {
        proof {
            assert(header_false_token(spec_lower(s@)));
            assert(!header_true_token(spec_lower(s@)));
        }
        return Ok(false);
    }
    proof {
        assert(!header_true_token(spec_lower(s@)));
        assert(!header_false_token(spec_lower(s@)));
    }
    Err(XsvError::Config(ConfigFault::UnknownHeaderValue))
}

/// What a `filename=` value means: the quoted text itself.
pub open spec fn spec_filename_value(v: ValueModel) -> Result<Seq<u8>, ConfigFault> {
    match v {
        ValueModel::Quoted(s) => Ok(s),
        _ => Err(ConfigFault::FilenameNotQuoted),
    }
}

/// Parse the `filename=` configuration value: a quoted string.
pub fn parse_filename_config_value(value: ConfigOptionValue) -> (r: Result<Vec<u8>, XsvError>)
    ensures
        match r {
            Ok(f) => spec_filename_value(value@) == Ok::<Seq<u8>, ConfigFault>(f@),
            Err(e) => (e matches XsvError::Config(f) && spec_filename_value(value@) == Err::<
                Seq<u8>,
                ConfigFault,
            >(f)),
        },
{
    match value {
        ConfigOptionValue::Quoted(s) => Ok(s),
        _ => Err(XsvError::Config(ConfigFault::FilenameNotQuoted)),
    }
}

// ---------------------------------------------------------------
// Folding a whole argument list into a dialect configuration.
// ---------------------------------------------------------------

/// The rolling state while arguments are applied in order.
pub struct ArgFold {
    /// The `filename=` value, once seen.
    pub filename: Option<Seq<u8>>,
    /// Header presence; defaults to true.
    pub header: bool,
    /// The delimiter, from registration or from `delimiter=`.
    pub delimiter: Option<u8>,
    /// Whether the delimiter was fixed at registration time.
    pub fixed: bool,
    /// The quote byte; defaults to `"`.
    pub quote: u8,
    /// Declared columns, in order.
    pub columns: Seq<ColumnModel>,
}

/// The state before any argument.
pub open spec fn arg_fold_init(initial_delimiter: Option<u8>) -> ArgFold {
    ArgFold {
        filename: None,
        header: true,
        delimiter: initial_delimiter,
        fixed: initial_delimiter is Some,
        quote: 0x22,
        columns: Seq::empty(),
    }
}

/// One argument applied to the rolling state.  `with_filename` says
/// whether the `filename` key is recognized (the reader flavour
/// ignores it).
pub open spec fn arg_fold_step(st: ArgFold, a: Seq<u8>, with_filename: bool) -> Result<
    ArgFold,
    ConfigFault,
> {
    match spec_parse_argument(a) {
        Err(e) => Err(e),
        Ok(ArgumentModel::Column(c)) => Ok(ArgFold { columns: st.columns.push(c), ..st }),
        Ok(ArgumentModel::Config(k, v)) => {
            if with_filename && k == lit_filename() {
                match spec_filename_value(v) {
                    Err(e) => Err(e),
                    Ok(f) => Ok(ArgFold { filename: Some(f), ..st }),
                }
            } else if k == lit_header() {
                match spec_header_value(v) {
                    Err(e) => Err(e),
                    Ok(h) => Ok(ArgFold { header: h, ..st }),
                }
            } else if k == lit_delimiter() {
                if st.fixed {
                    Err(ConfigFault::DelimiterFixed)
                } else {
                    match spec_delimiter_value(v) {
                        Err(e) => Err(e),
                        Ok(b) => Ok(ArgFold { delimiter: Some(b), ..st }),
                    }
                }
            } else if k == lit_quote() {
                match spec_quote_value(v) {
                    Err(e) => Err(e),
                    Ok(b) => Ok(ArgFold { quote: b, ..st }),
                }
            } else {
                Ok(st)
            }
        },
    }
}

/// The state after the first `i` arguments.
pub open spec fn arg_fold_to(
    args: Seq<Seq<u8>>,
    initial_delimiter: Option<u8>,
    with_filename: bool,
    i: int,
) -> Result<ArgFold, ConfigFault>
    decreases i,
{
    if i <= 0 {
        Ok(arg_fold_init(initial_delimiter))
    } else {
        match arg_fold_to(args, initial_delimiter, with_filename, i - 1) {
            Err(e) => Err(e),
            Ok(st) => arg_fold_step(st, args[i - 1], with_filename),
        }
    }
}

proof fn lemma_fold_err_sticky(
    args: Seq<Seq<u8>>,
    initial_delimiter: Option<u8>,
    with_filename: bool,
    i: int,
    j: int,
)
    requires
        0 <= i <= j,
        arg_fold_to(args, initial_delimiter, with_filename, i) is Err,
    ensures
        arg_fold_to(args, initial_delimiter, with_filename, j) == arg_fold_to(
            args,
            initial_delimiter,
            with_filename,
            i,
        ),
    decreases j - i,
{
    if j > i {
        lemma_fold_err_sticky(args, initial_delimiter, with_filename, i, j - 1);
    }
}

/// The fully parsed table arguments.
#[derive(Debug, PartialEq, Eq)]
pub struct XsvArguments {
    /// The file path or glob pattern to scan.
    pub filename: Vec<u8>,
    /// Whether the first record of each source is a header.
    pub header: bool,
    /// The field delimiter.
    pub delimiter: u8,
    /// The quote byte; zero disables quoting.
    pub quote: u8,
    /// Declared columns, if any were given.
    pub columns: Option<Vec<ColumnDeclaration>>,
}

/// Spec model of parsed table arguments.
#[verifier::ext_equal]
pub struct XsvArgsModel {
    /// The file path or glob pattern to scan.
    pub filename: Seq<u8>,
    /// Whether the first record of each source is a header.
    pub header: bool,
    /// The field delimiter.
    pub delimiter: u8,
    /// The quote byte; zero disables quoting.
    pub quote: u8,
    /// Declared columns, if any were given.
    pub columns: Option<Seq<ColumnModel>>,
}

impl View for XsvArguments {
    type V = XsvArgsModel;

    open spec fn view(&self) -> XsvArgsModel {
        XsvArgsModel {
            filename: self.filename@,
            header: self.header,
            delimiter: self.delimiter,
            quote: self.quote,
            columns: match &self.columns {
                Some(cs) => Some(cs@.map_values(|c: ColumnDeclaration| c@)),
                None => None,
            },
        }
    }
}

/// What a full argument list means for the main table flavour.  The
/// table name stands in for a missing `filename=` when it names an
/// existing file (`table_name_matches`).
pub open spec fn spec_parse_xsv_arguments(
    args: Seq<Seq<u8>>,
    initial_delimiter: Option<u8>,
    table_name: Seq<u8>,
    table_name_matches: bool,
) -> Result<XsvArgsModel, ConfigFault> {
    match arg_fold_to(args, initial_delimiter, true, args.len() as int) {
        Err(e) => Err(e),
        Ok(st) => {
            if st.filename is None && !table_name_matches {
                Err(ConfigFault::NoFilename)
            } else if st.delimiter is None {
                Err(ConfigFault::NoDelimiter)
            } else {
                Ok(
                    XsvArgsModel {
                        filename: match st.filename {
                            Some(f) => f,
                            None => table_name,
                        },
                        header: st.header,
                        delimiter: st.delimiter.unwrap(),
                        quote: st.quote,
                        columns: if st.columns.len() == 0 {
                            None
                        } else {
                            Some(st.columns)
                        },
                    },
                )
            }
        },
    }
}

/// Parse the constructor arguments of the main table flavour.
///
/// `table_name_matches` reports whether the table's own name resolves
/// to at least one existing file; the caller determines that, since
/// only it can consult the file system.
pub fn parse_xsv_arguments(
    arguments: &Vec<Vec<u8>>,
    initial_delimiter: Option<u8>,
    table_name: &Vec<u8>,
    table_name_matches: bool,
) -> (r: Result<XsvArguments, XsvError>)
    ensures
        match r {
            Ok(a) => spec_parse_xsv_arguments(
                arguments.deep_view(),
                initial_delimiter,
                table_name@,
                table_name_matches,
            ) == Ok::<XsvArgsModel, ConfigFault>(a@),
            Err(e) => (e matches XsvError::Config(f) && spec_parse_xsv_arguments(
                arguments.deep_view(),
                initial_delimiter,
                table_name@,
                table_name_matches,
            ) == Err::<XsvArgsModel, ConfigFault>(f)),
        },
{
    let ghost argsv = arguments.deep_view();
    let mut filename: Option<Vec<u8>> = None;
    let mut header: bool = true;
    let mut delimiter: Option<u8> = initial_delimiter;
    let fixed: bool = initial_delimiter.is_some();
    let mut quote: u8 = 0x22;
    let mut columns: Vec<ColumnDeclaration> = Vec::new();
    let mut i: usize = 0;
    proof {
        assert(columns@.map_values(|c: ColumnDeclaration| c@) =~= Seq::<ColumnModel>::empty());
    }
    while i < arguments.len()
        invariant
            i <= arguments@.len(),
            argsv == arguments.deep_view(),
            argsv.len() == arguments@.len(),
            arg_fold_to(argsv, initial_delimiter, true, i as int) == Ok::<ArgFold, ConfigFault>(
                ArgFold {
                    filename: match filename {
                        Some(f) => Some(f@),
                        None => None,
                    },
                    header: header,
                    delimiter: delimiter,
                    fixed: fixed,
                    quote: quote,
                    columns: columns@.map_values(|c: ColumnDeclaration| c@),
                },
            ),
        decreases arguments.len() - i,
    {
        let ghost pre = arg_fold_to(argsv, initial_delimiter, true, i as int).unwrap();
        proof {
            assert(argsv[i as int] == arguments@[i as int]@);
        }
        let arg = match parse_argument(&arguments[i]) {
            Ok(a) => a,
            Err(e) => {
                proof {
                    lemma_fold_err_sticky(argsv, initial_delimiter, true, i + 1, argsv.len() as int);
                }
                return Err(e);
            },
        };
        match arg {
            Argument::Column(c) => {
                let ghost cm = c@;
                columns.push(c);
                proof {
                    assert(columns@.map_values(|c: ColumnDeclaration| c@) =~= pre.columns.push(
                        cm,
                    ));
                }
            },
            Argument::Config(k, v) => {
                if eq_bytes(&k, &lit_filename_vec()) {
                    match parse_filename_config_value(v) {
                        Ok(f) => {
                            filename = Some(f);
                        },
                        Err(e) => {
                            proof {
                                lemma_fold_err_sticky(
                                    argsv,
                                    initial_delimiter,
                                    true,
                                    i + 1,
                                    argsv.len() as int,
                                );
                            }
                            return Err(e);
                        },
                    }
                } else if eq_bytes(&k, &lit_header_vec()) {
                    match parse_header_config_value(&v) {
                        Ok(h) => {
                            header = h;
                        },
                        Err(e) => {
                            proof {
                                lemma_fold_err_sticky(
                                    argsv,
                                    initial_delimiter,
                                    true,
                                    i + 1,
                                    argsv.len() as int,
                                );
                            }
                            return Err(e);
                        },
                    }
                } else if eq_bytes(&k, &lit_delimiter_vec()) {
                    if fixed {
                        proof {
                            lemma_fold_err_sticky(
                                argsv,
                                initial_delimiter,
                                true,
                                i + 1,
                                argsv.len() as int,
                            );
                        }
                        return Err(XsvError::Config(ConfigFault::DelimiterFixed));
                    }
                    match parse_delimiter_config_value(&v) {
                        Ok(b) => {
                            delimiter = Some(b);
                        },
                        Err(e) => {
                            proof {
                                lemma_fold_err_sticky(
                                    argsv,
                                    initial_delimiter,
                                    true,
                                    i + 1,
                                    argsv.len() as int,
                                );
                            }
                            return Err(e);
                        },
                    }
                } else if eq_bytes(&k, &lit_quote_vec()) {
                    match parse_quote_config_value(&v) {
                        Ok(b) => {
                            quote = b;
                        },
                        Err(e) => {
                            proof {
                                lemma_fold_err_sticky(
                                    argsv,
                                    initial_delimiter,
                                    true,
                                    i + 1,
                                    argsv.len() as int,
                                );
                            }
                            return Err(e);
                        },
                    }
                }
            },
        }
        i = i + 1;
    }
    let filename = match filename {
        Some(f) => f,
        None => {
            if table_name_matches {
                let mut t: Vec<u8> = Vec::new();
                let mut j: usize = 0;
                while j < table_name.len()
                    invariant
                        j <= table_name@.len(),
                        t@ =~= table_name@.take(j as int),
                    decreases table_name.len() - j,
                {
                    t.push(table_name[j]);
                    assert(t@ =~= table_name@.take(j + 1 as int));
                    j = j + 1;
                }
                assert(t@ =~= table_name@);
                t
            } else {
                return Err(XsvError::Config(ConfigFault::NoFilename));
            }
        },
    };
    let delimiter = match delimiter {
        Some(d) => d,
        None => {
            return Err(XsvError::Config(ConfigFault::NoDelimiter));
        },
    };
    let columns = if columns.len() == 0 {
        None
    } else {
        Some(columns)
    };
    Ok(XsvArguments { filename, header, delimiter, quote, columns })
}

/// The fully parsed reader-table arguments: no filename here, the
/// source path arrives per scan.
#[derive(Debug, PartialEq, Eq)]
pub struct ReaderArguments {
    /// Declared columns, in order.
    pub columns: Vec<ColumnDeclaration>,
    /// Whether the first record of each source is a header.
    pub header: bool,
    /// The field delimiter.
    pub delimiter: u8,
    /// The quote byte; zero disables quoting.
    pub quote: u8,
}

/// Spec model of parsed reader-table arguments.
#[verifier::ext_equal]
pub struct ReaderArgsModel {
    /// Declared columns, in order.
    pub columns: Seq<ColumnModel>,
    /// Whether the first record of each source is a header.
    pub header: bool,
    /// The field delimiter.
    pub delimiter: u8,
    /// The quote byte; zero disables quoting.
    pub quote: u8,
}

impl View for ReaderArguments {
    type V = ReaderArgsModel;

    open spec fn view(&self) -> ReaderArgsModel {
        ReaderArgsModel {
            columns: self.columns@.map_values(|c: ColumnDeclaration| c@),
            header: self.header,
            delimiter: self.delimiter,
            quote: self.quote,
        }
    }
}

/// What a full argument list means for the reader flavour, which
/// ignores the `filename` key and takes its source per scan.
pub open spec fn spec_parse_reader_arguments(
    args: Seq<Seq<u8>>,
    initial_delimiter: Option<u8>,
) -> Result<ReaderArgsModel, ConfigFault> {
    match arg_fold_to(args, initial_delimiter, false, args.len() as int) {
        Err(e) => Err(e),
        Ok(st) => {
            if st.delimiter is None {
                Err(ConfigFault::NoDelimiter)
            } else {
                Ok(
                    ReaderArgsModel {
                        columns: st.columns,
                        header: st.header,
                        delimiter: st.delimiter.unwrap(),
                        quote: st.quote,
                    },
                )
            }
        },
    }
}

/// Parse the constructor arguments of the reader table flavour.
pub fn parse_reader_arguments(
    arguments: &Vec<Vec<u8>>,
    initial_delimiter: Option<u8>,
) -> (r: Result<ReaderArguments, XsvError>)
    ensures
        match r {
            Ok(a) => spec_parse_reader_arguments(arguments.deep_view(), initial_delimiter)
                == Ok::<ReaderArgsModel, ConfigFault>(a@),
            Err(e) => (e matches XsvError::Config(f) && spec_parse_reader_arguments(
                arguments.deep_view(),
                initial_delimiter,
            ) == Err::<ReaderArgsModel, ConfigFault>(f)),
        },
{
    let ghost argsv = arguments.deep_view();
    let mut header: bool = true;
    let mut delimiter: Option<u8> = initial_delimiter;
    let fixed: bool = initial_delimiter.is_some();
    let mut quote: u8 = 0x22;
    let mut columns: Vec<ColumnDeclaration> = Vec::new();
    let mut i: usize = 0;
    proof {
        assert(columns@.map_values(|c: ColumnDeclaration| c@) =~= Seq::<ColumnModel>::empty());
    }
    while i < arguments.len()
        invariant
            i <= arguments@.len(),
            argsv == arguments.deep_view(),
            argsv.len() == arguments@.len(),
            arg_fold_to(argsv, initial_delimiter, false, i as int) == Ok::<ArgFold, ConfigFault>(
                ArgFold {
                    filename: None,
                    header: header,
                    delimiter: delimiter,
                    fixed: fixed,
                    quote: quote,
                    columns: columns@.map_values(|c: ColumnDeclaration| c@),
                },
            ),
        decreases arguments.len() - i,
    {
        let ghost pre = arg_fold_to(argsv, initial_delimiter, false, i as int).unwrap();
        proof {
            assert(argsv[i as int] == arguments@[i as int]@);
        }
        let arg = match parse_argument(&arguments[i]) {
            Ok(a) => a,
            Err(e) => {
                proof {
                    lemma_fold_err_sticky(
                        argsv,
                        initial_delimiter,
                        false,
                        i + 1,
                        argsv.len() as int,
                    );
                }
                return Err(e);
            },
        };
        match arg {
            Argument::Column(c) => {
                let ghost cm = c@;
                columns.push(c);
                proof {
                    assert(columns@.map_values(|c: ColumnDeclaration| c@) =~= pre.columns.push(
                        cm,
                    ));
                }
            },
            Argument::Config(k, v) => {
                if eq_bytes(&k, &lit_header_vec()) {
                    match parse_header_config_value(&v) {
                        Ok(h) => {
                            header = h;
                        },
                        Err(e) => {
                            proof {
                                lemma_fold_err_sticky(
                                    argsv,
                                    initial_delimiter,
                                    false,
                                    i + 1,
                                    argsv.len() as int,
                                );
                            }
                            return Err(e);
                        },
                    }
                } else if eq_bytes(&k, &lit_delimiter_vec()) {
                    if fixed {
                        proof {
                            lemma_fold_err_sticky(
                                argsv,
                                initial_delimiter,
                                false,
                                i + 1,
                                argsv.len() as int,
                            );
                        }
                        return Err(XsvError::Config(ConfigFault::DelimiterFixed));
                    }
                    match parse_delimiter_config_value(&v) {
                        Ok(b) => {
                            delimiter = Some(b);
                        },
                        Err(e) => {
                            proof {
                                lemma_fold_err_sticky(
                                    argsv,
                                    initial_delimiter,
                                    false,
                                    i + 1,
                                    argsv.len() as int,
                                );
                            }
                            return Err(e);
                        },
                    }
                } else if eq_bytes(&k, &lit_quote_vec()) {
                    match parse_quote_config_value(&v) {
                        Ok(b) => {
                            quote = b;
                        },
                        Err(e) => {
                            proof {
                                lemma_fold_err_sticky(
                                    argsv,
                                    initial_delimiter,
                                    false,
                                    i + 1,
                                    argsv.len() as int,
                                );
                            }
                            return Err(e);
                        },
                    }
                }
            },
        }
        i = i + 1;
    }
    let delimiter = match delimiter {
        Some(d) => d,
        None => {
            return Err(XsvError::Config(ConfigFault::NoDelimiter));
        },
    };
    Ok(ReaderArguments { columns, header, delimiter, quote })
}

} // verus!
