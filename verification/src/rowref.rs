//! Row-lifetime-bound record references and field access.
//!
//! A downstream operator may receive, instead of decoded text, an
//! opaque handle to the current record and its header.  The handle is
//! only good for the row that produced it: the registry stamps every
//! handle with a generation, and a handle whose generation has been
//! superseded is rejected mechanically rather than read.  Field
//! resolution is by integer position, or by linear scan of the header
//! for the first matching name; a name the header lacks, or a
//! position past the record's end, reads as NULL — a result, not an
//! error.

use vstd::prelude::*;

use crate::bytes::{eq_bytes, subvec};
use crate::decode::{row_utf8, Record, RecordDecoder, RowModel, spec_decode};
use crate::error::{DecodeFault, XsvError};

verus! {

/// A field lookup key: a position or a header name.
pub enum FieldKey {
    /// A 0-based position; negative positions read as NULL.
    Index(i64),
    /// A header name, matched against header fields in order.
    Name(Vec<u8>),
}

/// Spec model of a field lookup key.
pub enum KeyModel {
    /// A 0-based position.
    Index(int),
    /// A header name.
    Name(Seq<u8>),
}

impl View for FieldKey {
    type V = KeyModel;

    open spec fn view(&self) -> KeyModel {
        match self {
            FieldKey::Index(i) => KeyModel::Index(*i as int),
            FieldKey::Name(n) => KeyModel::Name(n@),
        }
    }
}

/// The index of the first field of `h` equal to `n`, or `h.len()`.
pub open spec fn find_field(h: Seq<Seq<u8>>, n: Seq<u8>) -> int
    decreases h.len(),
{
    if h.len() == 0 {
        0
    } else if h[0] == n {
        0
    } else {
        1 + find_field(h.drop_first(), n)
    }
}

proof fn lemma_find_field_at(h: Seq<Seq<u8>>, n: Seq<u8>, i: int)
    requires
        0 <= i <= h.len(),
        forall|j: int| 0 <= j < i ==> h[j] != n,
        i < h.len() ==> h[i] == n,
    ensures
        find_field(h, n) == i,
    decreases i,
{
    if h.len() == 0 {
    } else if i == 0 {
    } else {
        assert(h[0] != n);
        assert(forall|j: int| 0 <= j < i - 1 ==> h.drop_first()[j] == h[j + 1]);
        lemma_find_field_at(h.drop_first(), n, i - 1);
    }
}

/// What field resolution yields: the addressed field's text, or
/// nothing (NULL) for a position outside the record, a name the
/// header lacks, a matched column the record does not reach, or a
/// name lookup without a header.
pub open spec fn spec_resolve(rec: RowModel, hdr: Option<RowModel>, key: KeyModel) -> Option<
    Seq<u8>,
> {
    match key {
        KeyModel::Index(i) => {
            if 0 <= i < rec.fields.len() {
                Some(rec.fields[i])
            } else {
                None
            }
        },
        KeyModel::Name(n) => match hdr {
            None => None,
            Some(h) => {
                let j = find_field(h.fields, n);
                if j == h.fields.len() {
                    None
                } else if j < rec.fields.len() {
                    Some(rec.fields[j])
                } else {
                    None
                }
            },
        },
    }
}

/// An opaque, generation-stamped handle to one published row.
pub struct RecordReference {
    generation: u64,
}

impl RecordReference {
    /// The generation this handle was stamped with.
    pub closed spec fn gen_of(self) -> u64 {
        self.generation
    }
}

/// The registry holding the one live row and its header.
pub struct RecordReferenceRegistry {
    generation: u64,
    record: Record,
    header: Option<Record>,
    live: bool,
}

impl RecordReferenceRegistry {
    /// The current generation.
    pub closed spec fn gen_now(self) -> u64 {
        self.generation
    }

    /// Whether a published row is live.
    pub closed spec fn is_live(self) -> bool {
        self.live
    }

    /// The live row.
    pub closed spec fn row(self) -> RowModel {
        self.record@
    }

    /// The live header, if one was published.
    pub closed spec fn hdr(self) -> Option<RowModel> {
        match self.header {
            Some(h) => Some(h@),
            None => None,
        }
    }

    /// An empty registry: nothing published yet.
    pub fn new() -> (r: RecordReferenceRegistry)
        ensures
            !r.is_live(),
            r.gen_now() == 0,
    {
        RecordReferenceRegistry {
            generation: 0,
            record: Record::empty(),
            header: None,
            live: false,
        }
    }

    /// Publish the row that just became current, superseding every
    /// handle issued before: the returned handle is the only one the
    /// registry will now honour.
    pub fn publish(&mut self, record: Record, header: Option<Record>) -> (r: RecordReference)
        requires
            old(self).gen_now() < u64::MAX,
        ensures
            final(self).is_live(),
            final(self).gen_now() == old(self).gen_now() + 1,
            final(self).row() == record@,
            final(self).hdr() == (match header {
                Some(h) => Some(h@),
                None => None::<RowModel>,
            }),
            r.gen_of() == final(self).gen_now(),
    {
        self.generation = self.generation + 1;
        self.record = record;
        self.header = header;
        self.live = true;
        RecordReference { generation: self.generation }
    }

    /// Withdraw the live row (say, at end of scan): every handle is
    /// now stale.
    pub fn retire(&mut self)
        ensures
            !final(self).is_live(),
            final(self).gen_now() == old(self).gen_now(),
    {
        self.live = false;
    }

    /// Resolve a field of the row a handle points at.  A handle whose
    /// row has been superseded or withdrawn is refused; a position or
    /// name the row cannot answer reads as NULL, never as an error.
    pub fn resolve(&self, r: &RecordReference, key: &FieldKey) -> (v: Result<
        Option<Vec<u8>>,
        XsvError,
    >)
        ensures
            match v {
                Ok(f) => {
                    &&& self.is_live() && r.gen_of() == self.gen_now()
                    &&& (match f {
                        Some(t) => spec_resolve(self.row(), self.hdr(), key@) == Some(t@),
                        None => spec_resolve(self.row(), self.hdr(), key@) is None,
                    })
                },
                Err(e) => {
                    &&& e == XsvError::StaleReference
                    &&& (!self.is_live() || r.gen_of() != self.gen_now())
                },
            },
    {
        if !self.live || r.generation != self.generation {
            return Err(XsvError::StaleReference);
        }
        match key {
            FieldKey::Index(i) => {
                if *i < 0 {
                    return Ok(None);
                }
                let len = self.record.len();
                if (*i as u64) >= (len as u64) {
                    return Ok(None);
                }
                let idx = *i as usize;
                match self.record.field(idx) {
                    Some(f) => {
                        let out = subvec(f, 0, f.len());
                        proof {
                            assert(out@ =~= f@);
                        }
                        Ok(Some(out))
                    },
                    None => Ok(None),
                }
            },
            FieldKey::Name(n) => {
                let h = match &self.header {
                    Some(h) => h,
                    None => {
                        return Ok(None);
                    },
                };
                let count = h.len();
                let mut j: usize = 0;
                while j < count
                    invariant
                        j <= count,
                        count == h@.fields.len(),
                        self.hdr() == Some(h@),
                        self.is_live(),
                        r.gen_of() == self.gen_now(),
                        key@ == KeyModel::Name(n@),
                        forall|k: int| 0 <= k < j ==> h@.fields[k] != n@,
                    decreases count - j,
                {
                    let hf = match h.field(j) {
                        Some(f) => f,
                        None => {
                            return Err(XsvError::StaleReference);
                        },
                    };
                    if eq_bytes(hf, n) {
                        proof {
                            lemma_find_field_at(h@.fields, n@, j as int);
                        }
                        match self.record.field(j) {
                            Some(f) => {
                                let out = subvec(f, 0, f.len());
                                proof {
                                    assert(out@ =~= f@);
                                }
                                return Ok(Some(out));
                            },
                            None => {
                                return Ok(None);
                            },
                        }
                    }
                    j = j + 1;
                }
                proof {
                    lemma_find_field_at(h@.fields, n@, count as int);
                }
                Ok(None)
            },
        }
    }
}

/// Extract field `index` of the first record of `text`, decoding it
/// under `delimiter` and `quote`.  The text must hold at least one
/// record; a position past that record's end reads as NULL.
///
/// The contract pins the result against the text's full decoding
/// wherever that decoding exists; only the first record is actually
/// pulled, so text whose later records are broken still answers.
pub fn field_at(text: &Vec<u8>, delimiter: u8, quote: u8, index: usize) -> (r: Result<
    Option<Vec<u8>>,
    XsvError,
>)
    requires
        text@.len() < usize::MAX,
    ensures
        match r {
            Ok(f) => (spec_decode(text@, delimiter, quote) matches Some(rows) ==> rows.len() > 0
                && (match f {
                Some(t) => index < rows[0].fields.len() && t@ == rows[0].fields[index as int],
                None => index >= rows[0].fields.len(),
            })),
            Err(XsvError::NoRecord) => spec_decode(text@, delimiter, quote) == Some(
                Seq::<RowModel>::empty(),
            ),
            Err(XsvError::Decode(DecodeFault::Malformed)) => spec_decode(
                text@,
                delimiter,
                quote,
            ) is None,
            Err(XsvError::Decode(DecodeFault::Utf8)) => (spec_decode(text@, delimiter, quote)
                matches Some(rows) ==> rows.len() > 0 && !(row_utf8(rows[0]))),
            Err(e) => false,
        },
{
    let data = subvec(text, 0, text.len());
    proof {
        assert(data@ =~= text@);
    }
    let mut dec = RecordDecoder::new(data, delimiter, quote);
    match dec.read_next() {
        Ok(Some(rec)) => {
            match rec.field(index) {
                Some(f) => {
                    let out = subvec(f, 0, f.len());
                    proof {
                        assert(out@ =~= f@);
                    }
                    Ok(Some(out))
                },
                None => Ok(None),
            }
        },
        Ok(None) => Err(XsvError::NoRecord),
        Err(f) => Err(XsvError::Decode(f)),
    }
}

} // verus!
