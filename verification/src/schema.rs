//! Schema resolution, fixed once at table-open time.
//!
//! Declared columns fully determine the schema — neither the header
//! flag nor any file content is consulted, and no source need exist.
//! Otherwise the first decoded record of the first source supplies
//! the column names (or positional names `c1`..`cN` when the header
//! is disabled), every column untyped; with no source and no declared
//! columns the schema is undeterminable.

use vstd::prelude::*;

use crate::bytes::{dec_digits, subvec, u64_to_dec};
use crate::config::{ColumnDeclaration, ColumnModel};
use crate::decode::Record;
use crate::error::XsvError;
use crate::value::{affinity_of, spec_affinity_of, Affinity};

verus! {

/// One resolved schema column.
#[derive(Debug, PartialEq, Eq)]
pub struct SchemaColumn {
    /// The column's name.
    pub name: Vec<u8>,
    /// The declared type it came with, if any.
    pub declared_type: Option<Vec<u8>>,
    /// The affinity derived from the declared type.
    pub affinity: Affinity,
}

/// Spec model of a resolved schema column.
#[verifier::ext_equal]
pub struct SchemaColModel {
    /// The column's name.
    pub name: Seq<u8>,
    /// The declared type it came with, if any.
    pub declared_type: Option<Seq<u8>>,
    /// The affinity derived from the declared type.
    pub affinity: Affinity,
}

impl View for SchemaColumn {
    type V = SchemaColModel;

    open spec fn view(&self) -> SchemaColModel {
        SchemaColModel {
            name: self.name@,
            declared_type: match &self.declared_type {
                Some(t) => Some(t@),
                None => None,
            },
            affinity: self.affinity,
        }
    }
}

/// The synthesized positional name of column `i`: `c1`..`cN`.
pub open spec fn synth_name(i: int) -> Seq<u8> {
    seq![0x63u8] + dec_digits((i + 1) as nat)
}

/// The schema a table resolves to: declared columns verbatim with
/// their affinities, else the first record's fields as names (or
/// positional names without a header), untyped; `None` when neither
/// is available.
pub open spec fn spec_resolve_schema(
    declared: Option<Seq<ColumnModel>>,
    header: bool,
    first: Option<Seq<Seq<u8>>>,
) -> Option<Seq<SchemaColModel>> {
    match declared {
        Some(cols) => Some(
            cols.map_values(
                |c: ColumnModel|
                    SchemaColModel {
                        name: c.name,
                        declared_type: c.declared_type,
                        affinity: spec_affinity_of(c.declared_type),
                    },
            ),
        ),
        None => match first {
            Some(fields) => Some(
                Seq::new(
                    fields.len(),
                    |i: int|
                        SchemaColModel {
                            name: if header {
                                fields[i]
                            } else {
                                synth_name(i)
                            },
                            declared_type: None,
                            affinity: Affinity::Blob,
                        },
                ),
            ),
            None => None,
        },
    }
}

/// Copy a byte vector.
fn copy_bytes(v: &Vec<u8>) -> (r: Vec<u8>)
    ensures
        r@ == v@,
{
    let r = subvec(v, 0, v.len());
    proof {
        assert(r@ =~= v@);
    }
    r
}

/// Resolve the schema from declared columns, or from the first
/// decoded record of the first source.
///
/// Declared columns win outright: the header flag and the record are
/// not consulted.  Without them, the record's field texts name the
/// columns when the header flag is set, and `c1`..`cN` name them
/// positionally when it is not.  With neither, the schema cannot be
/// determined.
pub fn resolve_schema(
    declared: &Option<Vec<ColumnDeclaration>>,
    header: bool,
    first: Option<&Record>,
) -> (r: Result<Vec<SchemaColumn>, XsvError>)
    ensures
        match r {
            Ok(cols) => spec_resolve_schema(
                match declared {
                    Some(ds) => Some(ds@.map_values(|c: ColumnDeclaration| c@)),
                    None => None,
                },
                header,
                match first {
                    Some(rec) => Some(rec@.fields),
                    None => None,
                },
            ) == Some(cols@.map_values(|c: SchemaColumn| c@)),
            Err(e) => {
                &&& e == XsvError::Schema
                &&& declared is None
                &&& first is None
            },
        },
{
    match declared {
        Some(ds) => {
            let ghost dm = ds@.map_values(|c: ColumnDeclaration| c@);
            let mut cols: Vec<SchemaColumn> = Vec::new();
            let mut i: usize = 0;
            while i < ds.len()
                invariant
                    i <= ds@.len(),
                    dm == ds@.map_values(|c: ColumnDeclaration| c@),
                    cols@.len() == i,
                    forall|k: int|
                        0 <= k < i ==> #[trigger] cols@[k]@ =~~= (SchemaColModel {
                            name: dm[k].name,
                            declared_type: dm[k].declared_type,
                            affinity: spec_affinity_of(dm[k].declared_type),
                        }),
                decreases ds.len() - i,
            {
                let d = &ds[i];
                let name = copy_bytes(&d.name);
                let declared_type = match &d.declared_type {
                    Some(t) => Some(copy_bytes(t)),
                    None => None,
                };
                let affinity = affinity_of(&declared_type);
                proof {
                    assert(dm[i as int] == ds@[i as int]@);
                }
                cols.push(SchemaColumn { name, declared_type, affinity });
                i = i + 1;
            }
            proof {
                assert(cols@.map_values(|c: SchemaColumn| c@) =~~= dm.map_values(
                    |c: ColumnModel|
                        SchemaColModel {
                            name: c.name,
                            declared_type: c.declared_type,
                            affinity: spec_affinity_of(c.declared_type),
                        },
                ));
            }
            Ok(cols)
        },
        None => {
            match first {
                Some(rec) => {
                    let n = rec.len();
                    let mut cols: Vec<SchemaColumn> = Vec::new();
                    let mut i: usize = 0;
                    while i < n
                        invariant
                            i <= n,
                            n == rec@.fields.len(),
                            cols@.len() == i,
                            forall|k: int|
                                0 <= k < i ==> #[trigger] cols@[k]@ =~~= (SchemaColModel {
                                    name: if header {
                                        rec@.fields[k]
                                    } else {
                                        synth_name(k)
                                    },
                                    declared_type: None,
                                    affinity: Affinity::Blob,
                                }),
                        decreases n - i,
                    {
                        let name = if header {
                            match rec.field(i) {
                                Some(f) => copy_bytes(f),
                                None => Vec::new(),
                            }
                        } else {
                            let mut nm: Vec<u8> = Vec::new();
                            nm.push(0x63);
                            let mut digits = u64_to_dec((i as u64) + 1);
                            let mut j: usize = 0;
                            let ghost dg = digits@;
                            while j < digits.len()
                                invariant
                                    j <= digits@.len(),
                                    dg == digits@,
                                    nm@ =~= seq![0x63u8] + dg.take(j as int),
                                decreases digits.len() - j,
                            {
                                nm.push(digits[j]);
                                assert(nm@ =~= seq![0x63u8] + dg.take(j + 1 as int));
                                j = j + 1;
                            }
                            proof {
                                assert(dg.take(dg.len() as int) =~= dg);
                                assert(nm@ =~= synth_name(i as int));
                            }
                            nm
                        };
                        cols.push(SchemaColumn { name, declared_type: None, affinity: Affinity::Blob });
                        i = i + 1;
                    }
                    proof {
                        assert(cols@.map_values(|c: SchemaColumn| c@) =~~= Seq::new(
                            rec@.fields.len(),
                            |j: int|
                                SchemaColModel {
                                    name: if header {
                                        rec@.fields[j]
                                    } else {
                                        synth_name(j)
                                    },
                                    declared_type: None,
                                    affinity: Affinity::Blob,
                                },
                        ));
                    }
                    Ok(cols)
                },
                None => Err(XsvError::Schema),
            }
        },
    }
}

/// Declared columns fix the schema outright: whatever the header flag
/// says and whatever any file holds, the resolved schema is the same.
pub proof fn lemma_declared_columns_fix_schema(
    cols: Seq<ColumnModel>,
    h1: bool,
    h2: bool,
    f1: Option<Seq<Seq<u8>>>,
    f2: Option<Seq<Seq<u8>>>,
)
    ensures
        spec_resolve_schema(Some(cols), h1, f1) == spec_resolve_schema(Some(cols), h2, f2),
        spec_resolve_schema(Some(cols), h1, f1) is Some,
{
}

// ---------------------------------------------------------------
// The CREATE statement handed to the host engine.
// ---------------------------------------------------------------

/// `create table x(`
pub open spec fn lit_create_prefix() -> Seq<u8> {
    seq![
        0x63u8,
        0x72,
        0x65,
        0x61,
        0x74,
        0x65,
        0x20,
        0x74,
        0x61,
        0x62,
        0x6c,
        0x65,
        0x20,
        0x78,
        0x28,
    ]
}

/// One declared column as the CREATE statement spells it: the name in
/// single quotes, a space, then the declared type (or nothing).
pub open spec fn spec_vtab_decl(c: ColumnModel) -> Seq<u8> {
    seq![0x27u8] + c.name + seq![0x27u8, 0x20u8] + (match c.declared_type {
        Some(t) => t,
        None => Seq::empty(),
    })
}

/// The first `i` declared columns joined with commas.
pub open spec fn spec_sql_cols_declared(cols: Seq<ColumnModel>, i: int) -> Seq<u8>
    decreases i,
{
    if i <= 0 {
        Seq::empty()
    } else if i == 1 {
        spec_vtab_decl(cols[0])
    } else {
        spec_sql_cols_declared(cols, i - 1) + seq![0x2cu8] + spec_vtab_decl(cols[i - 1])
    }
}

/// The CREATE statement for declared columns.
pub open spec fn spec_create_sql_declared(cols: Seq<ColumnModel>) -> Seq<u8> {
    lit_create_prefix() + spec_sql_cols_declared(cols, cols.len() as int) + seq![0x29u8]
}

/// One sniffed column as the CREATE statement spells it: the header
/// text in double quotes, or the bare positional name.
pub open spec fn spec_sniffed_col(fields: Seq<Seq<u8>>, header: bool, i: int) -> Seq<u8> {
    if header {
        seq![0x22u8] + fields[i] + seq![0x22u8]
    } else {
        synth_name(i)
    }
}

/// The first `i` sniffed columns joined with commas.
pub open spec fn spec_sql_cols_sniffed(fields: Seq<Seq<u8>>, header: bool, i: int) -> Seq<u8>
    decreases i,
{
    if i <= 0 {
        Seq::empty()
    } else if i == 1 {
        spec_sniffed_col(fields, header, 0)
    } else {
        spec_sql_cols_sniffed(fields, header, i - 1) + seq![0x2cu8] + spec_sniffed_col(
            fields,
            header,
            i - 1,
        )
    }
}

/// The CREATE statement for a sniffed schema.
pub open spec fn spec_create_sql_sniffed(fields: Seq<Seq<u8>>, header: bool) -> Seq<u8> {
    lit_create_prefix() + spec_sql_cols_sniffed(fields, header, fields.len() as int) + seq![
        0x29u8,
    ]
}

fn push_create_prefix() -> (r: Vec<u8>)
    ensures
        r@ == lit_create_prefix(),
{
    let r: Vec<u8> = vec![
        0x63u8,
        0x72,
        0x65,
        0x61,
        0x74,
        0x65,
        0x20,
        0x74,
        0x61,
        0x62,
        0x6c,
        0x65,
        0x20,
        0x78,
        0x28,
    ];
    proof {
        assert(r@ =~= lit_create_prefix());
    }
    r
}

fn append_bytes(dst: &mut Vec<u8>, src: &Vec<u8>)
    ensures
        final(dst)@ == old(dst)@ + src@,
{
    let mut j: usize = 0;
    while j < src.len()
        invariant
            j <= src@.len(),
            dst@ =~= old(dst)@ + src@.take(j as int),
        decreases src.len() - j,
    {
        dst.push(src[j]);
        assert(dst@ =~= old(dst)@ + src@.take(j + 1 as int));
        j = j + 1;
    }
    proof {
        assert(src@.take(src@.len() as int) =~= src@);
    }
}

/// The CREATE statement for declared columns, as the host engine
/// expects it.
pub fn create_sql_declared(cols: &Vec<ColumnDeclaration>) -> (r: Vec<u8>)
    ensures
        r@ == spec_create_sql_declared(cols@.map_values(|c: ColumnDeclaration| c@)),
{
    let ghost cm = cols@.map_values(|c: ColumnDeclaration| c@);
    let mut r = push_create_prefix();
    let mut i: usize = 0;
    while i < cols.len()
        invariant
            i <= cols@.len(),
            cm == cols@.map_values(|c: ColumnDeclaration| c@),
            r@ =~= lit_create_prefix() + spec_sql_cols_declared(cm, i as int),
        decreases cols.len() - i,
    {
        if i > 0 {
            r.push(0x2c);
        }
        let ghost before = r@;
        r.push(0x27);
        append_bytes(&mut r, &cols[i].name);
        r.push(0x27);
        r.push(0x20);
        match &cols[i].declared_type {
            Some(t) => {
                append_bytes(&mut r, t);
            },
            None => {
            },
        }
        proof {
            assert(cm[i as int] == cols@[i as int]@);
            assert(r@ =~= before + spec_vtab_decl(cm[i as int]));
            assert(r@ =~= lit_create_prefix() + spec_sql_cols_declared(cm, i + 1 as int));
        }
        i = i + 1;
    }
    r.push(0x29);
    proof {
        assert(r@ =~= spec_create_sql_declared(cm));
    }
    r
}

/// The CREATE statement for a sniffed schema, from the first decoded
/// record.
pub fn create_sql_sniffed(rec: &Record, header: bool) -> (r: Vec<u8>)
    ensures
        r@ == spec_create_sql_sniffed(rec@.fields, header),
{
    let ghost fs = rec@.fields;
    let mut r = push_create_prefix();
    let n = rec.len();
    let mut i: usize = 0;
    while i < n
        invariant
            i <= n,
            n == fs.len(),
            fs == rec@.fields,
            r@ =~= lit_create_prefix() + spec_sql_cols_sniffed(fs, header, i as int),
        decreases n - i,
    {
        if i > 0 {
            r.push(0x2c);
        }
        let ghost before = r@;
        if header {
            r.push(0x22);
            match rec.field(i) {
                Some(f) => {
                    append_bytes(&mut r, f);
                },
                None => {
                },
            }
            r.push(0x22);
        } else {
            r.push(0x63);
            let digits = u64_to_dec((i as u64) + 1);
            append_bytes(&mut r, &digits);
        }
        proof {
            assert(r@ =~= before + spec_sniffed_col(fs, header, i as int));
            assert(r@ =~= lit_create_prefix() + spec_sql_cols_sniffed(fs, header, i + 1 as int));
        }
        i = i + 1;
    }
    r.push(0x29);
    proof {
        assert(r@ =~= spec_create_sql_sniffed(fs, header));
    }
    r
}

} // verus!
