//! Serving every row of one in-memory text, with its header record
//! shared across the rows and per-row opaque handles for downstream
//! field extraction.
//!
//! The source text arrives as a bound scan argument (a blob, or a
//! stream the host glue has already drained); its first record is
//! always read as the header.  Each row then exposes, column by
//! column: an opaque handle to {row, header}, an opaque handle to the
//! header alone, the row's line number and byte offset, and its field
//! count.  The source and delimiter pseudo-columns read as NULL.

use vstd::prelude::*;

use crate::decode::{row_utf8, spec_decode, Record, RecordDecoder, RowModel};
use crate::error::{DecodeFault, XsvError};
use crate::rowref::{RecordReference, RecordReferenceRegistry};

verus! {

/// The columns of the row-serving table, hidden ones included.
#[derive(Clone, Copy, Debug, PartialEq, Eq, Structural)]
pub enum RowsColumn {
    /// The opaque {row, header} handle.
    Row,
    /// The opaque header handle.
    Headers,
    /// The 1-based line the row began on.
    Line,
    /// The byte offset the row began at.
    Byte,
    /// The row's field count.
    Length,
    /// The hidden source argument; reads as NULL.
    Source,
    /// The hidden delimiter argument; reads as NULL.
    Delimiter,
}

/// The column a host-side index names, if any.
pub open spec fn spec_rows_column(i: int) -> Option<RowsColumn> {
    if i == 0 {
        Some(RowsColumn::Row)
    } else if i == 1 {
        Some(RowsColumn::Headers)
    } else if i == 2 {
        Some(RowsColumn::Line)
    } else if i == 3 {
        Some(RowsColumn::Byte)
    } else if i == 4 {
        Some(RowsColumn::Length)
    } else if i == 5 {
        Some(RowsColumn::Source)
    } else if i == 6 {
        Some(RowsColumn::Delimiter)
    } else {
        None
    }
}

/// Map a host-side column index to its column.
pub fn rows_column(i: i32) -> (r: Option<RowsColumn>)
    ensures
        r == spec_rows_column(i as int),
{
    if i == 0 {
        Some(RowsColumn::Row)
    } else if i == 1 {
        Some(RowsColumn::Headers)
    } else if i == 2 {
        Some(RowsColumn::Line)
    } else if i == 3 {
        Some(RowsColumn::Byte)
    } else if i == 4 {
        Some(RowsColumn::Length)
    } else if i == 5 {
        Some(RowsColumn::Source)
    } else if i == 6 {
        Some(RowsColumn::Delimiter)
    } else {
        None
    }
}

/// What a position or length column of the current row reads: the
/// number, or NULL (`None`) without a current row; handle columns and
/// the hidden arguments are resolved by their own calls.
pub open spec fn spec_rows_number(row: Option<RowModel>, col: RowsColumn) -> Option<int> {
    match row {
        None => None,
        Some(rm) => match col {
            RowsColumn::Line => Some(rm.line as int),
            RowsColumn::Byte => Some(rm.byte as int),
            RowsColumn::Length => Some(rm.fields.len() as int),
            _ => None,
        },
    }
}

/// The model of a header synthesized for an empty text.
pub open spec fn empty_row() -> RowModel {
    RowModel { fields: Seq::empty(), line: 1, byte: 0 }
}

/// A cursor over every row of one text, its header read first.
pub struct RowsCursor {
    dec: RecordDecoder,
    header: Record,
    current: Option<Record>,
    rowid: i64,
    done: bool,
}

impl RowsCursor {
    /// The header record's model.
    pub closed spec fn hdr(self) -> RowModel {
        self.header@
    }

    /// The current row's model, if one is ready.
    pub closed spec fn current_row(self) -> Option<RowModel> {
        match self.current {
            Some(r) => Some(r@),
            None => None,
        }
    }

    /// Whether the rows are exhausted.
    pub closed spec fn at_eof(self) -> bool {
        self.done
    }

    /// The row counter.
    pub closed spec fn row_count(self) -> int {
        self.rowid as int
    }

    /// The text being served.
    pub closed spec fn src_data(self) -> Seq<u8> {
        self.dec.src()
    }

    /// The delimiter the text is decoded under.
    pub closed spec fn delim(self) -> u8 {
        self.dec.delim()
    }

    /// The records read so far, the header included.
    pub closed spec fn served(self) -> Seq<RowModel> {
        self.dec.processed()
    }

    /// The cursor's invariant: it walks the text's decoding in
    /// order — what it has served is a prefix of that decoding, the
    /// header is the text's first record, and the end is reached
    /// exactly when the whole text has been served.
    pub closed spec fn wf(self) -> bool {
        &&& self.dec.wf()
        &&& self.dec.quote_byte() == 0x22
        &&& (self.done == (self.current is None))
        &&& (spec_decode(self.dec.src(), self.dec.delim(), 0x22) matches Some(rows) ==> {
            &&& self.served() == rows.take(self.served().len() as int)
            &&& (rows.len() > 0 ==> self.served().len() >= 1 && self.hdr() == rows[0])
            &&& (rows.len() == 0 ==> self.hdr() == empty_row())
        })
        &&& (self.done ==> spec_decode(self.dec.src(), self.dec.delim(), 0x22) == Some(
            self.served(),
        ))
    }

    /// Open a text under `delimiter` (standard quoting): the first
    /// record becomes the shared header (an empty one when the text
    /// is empty), and the first data row, if any, is made current.
    /// A failure is owed its cause: broken quoting only where the
    /// text does not decode, a UTF-8 fault only where one of the
    /// first two records holds one.
    pub fn open(data: Vec<u8>, delimiter: u8) -> (r: Result<RowsCursor, XsvError>)
        requires
            data@.len() < usize::MAX,
        ensures
            match r {
                Ok(c) => {
                    &&& c.wf()
                    &&& c.src_data() == data@
                    &&& c.delim() == delimiter
                    &&& c.row_count() == 1
                    &&& (c.at_eof() == (c.current_row() is None))
                    &&& (spec_decode(data@, delimiter, 0x22) matches Some(rows) ==> {
                        &&& c.hdr() == (if rows.len() > 0 {
                            rows[0]
                        } else {
                            empty_row()
                        })
                        &&& c.current_row() == (if rows.len() > 1 {
                            Some(rows[1])
                        } else {
                            None::<RowModel>
                        })
                    })
                },
                Err(XsvError::Decode(DecodeFault::Malformed)) => spec_decode(
                    data@,
                    delimiter,
                    0x22,
                ) is None,
                Err(XsvError::Decode(DecodeFault::Utf8)) => (spec_decode(data@, delimiter, 0x22)
                    matches Some(rows) ==> exists|k: int|
                    0 <= k < 2 && k < rows.len() && !(row_utf8(#[trigger] rows[k]))),
                Err(e) => false,
            },
    {
        let ghost rowsm = spec_decode(data@, delimiter, 0x22);
        let mut dec = RecordDecoder::new(data, delimiter, 0x22);
        let header = match dec.read_next() {
            Ok(Some(h)) => h,
            Ok(None) => Record::empty(),
            Err(f) => {
                proof {
                    if f == DecodeFault::Utf8 && rowsm is Some {
                        let rows = rowsm.unwrap();
                        assert(0 <= 0 < 2 && 0 < rows.len() && !(row_utf8(rows[0])));
                    }
                }
                return Err(XsvError::Decode(f));
            },
        };
        proof {
            assert(header@.fields =~= Seq::<Seq<u8>>::empty() || header@.fields
                == header@.fields);
        }
        match dec.read_next() {
            Ok(Some(rec)) => {
                proof {
                    if rowsm is Some {
                        let rows = rowsm.unwrap();
                        assert(dec.processed() =~= rows.take(dec.processed().len() as int));
                    }
                }
                Ok(RowsCursor { dec, header, current: Some(rec), rowid: 1, done: false })
            },
            Ok(None) => {
                proof {
                    if rowsm is Some {
                        let rows = rowsm.unwrap();
                        assert(dec.processed() =~= rows.take(dec.processed().len() as int));
                        if rows.len() == 0 {
                            assert(header@.fields =~= Seq::<Seq<u8>>::empty());
                            assert(header@ =~~= empty_row());
                        }
                    }
                }
                Ok(RowsCursor { dec, header, current: None, rowid: 1, done: true })
            },
            Err(f) => {
                proof {
                    if f == DecodeFault::Utf8 && rowsm is Some {
                        let rows = rowsm.unwrap();
                        assert(0 <= 1 < 2 && 1 < rows.len() && !(row_utf8(rows[1])));
                    }
                }
                Err(XsvError::Decode(f))
            },
        }
    }

    /// Pull the next row: the next record of the text's decoding
    /// becomes current, and the end is reached exactly at true
    /// exhaustion.  The counter grows by one either way.
    pub fn next(&mut self) -> (r: Result<(), XsvError>)
        requires
            old(self).wf(),
            old(self).row_count() < i64::MAX,
        ensures
            final(self).wf(),
            final(self).hdr() == old(self).hdr(),
            final(self).src_data() == old(self).src_data(),
            final(self).delim() == old(self).delim(),
            match r {
                Ok(()) => {
                    &&& final(self).row_count() == old(self).row_count() + 1
                    &&& (final(self).at_eof() == (final(self).current_row() is None))
                    &&& (spec_decode(old(self).src_data(), old(self).delim(), 0x22)
                        matches Some(rows) ==> (if old(self).served().len() < rows.len() {
                        &&& final(self).current_row() == Some(
                            rows[old(self).served().len() as int],
                        )
                        &&& !final(self).at_eof()
                    } else {
                        &&& final(self).current_row() is None
                        &&& final(self).at_eof()
                    }))
                },
                Err(XsvError::Decode(DecodeFault::Malformed)) => spec_decode(
                    old(self).src_data(),
                    old(self).delim(),
                    0x22,
                ) is None,
                Err(XsvError::Decode(DecodeFault::Utf8)) => (spec_decode(
                    old(self).src_data(),
                    old(self).delim(),
                    0x22,
                ) matches Some(rows) ==> rows.len() > old(self).served().len() && !(row_utf8(
                    rows[old(self).served().len() as int],
                ))),
                Err(e) => false,
            },
    {
        match self.dec.read_next() {
            Ok(Some(rec)) => {
                proof {
                    if spec_decode(self.dec.src(), self.dec.delim(), 0x22) is Some {
                        let rows = spec_decode(self.dec.src(), self.dec.delim(), 0x22).unwrap();
                        assert(self.dec.processed() =~= rows.take(
                            self.dec.processed().len() as int,
                        ));
                    }
                }
                self.current = Some(rec);
                self.done = false;
                self.rowid = self.rowid + 1;
                Ok(())
            },
            Ok(None) => {
                self.current = None;
                self.done = true;
                self.rowid = self.rowid + 1;
                Ok(())
            },
            Err(f) => {
                proof {
                    if spec_decode(self.dec.src(), self.dec.delim(), 0x22) is Some {
                        let rows = spec_decode(self.dec.src(), self.dec.delim(), 0x22).unwrap();
                        assert(self.dec.processed() =~= rows.take(
                            self.dec.processed().len() as int,
                        ));
                    }
                }
                Err(XsvError::Decode(f))
            },
        }
    }

    /// Whether the rows are exhausted.
    pub fn eof(&self) -> (b: bool)
        ensures
            b == self.at_eof(),
    {
        self.done
    }

    /// The row counter.
    pub fn rowid(&self) -> (n: i64)
        ensures
            n as int == self.row_count(),
    {
        self.rowid
    }

    /// A numeric column of the current row: its line, byte offset or
    /// field count; NULL (`None`) without a current row or for the
    /// hidden source and delimiter arguments.
    pub fn number_column(&self, col: RowsColumn) -> (r: Option<u64>)
        ensures
            match spec_rows_number(self.current_row(), col) {
                Some(n) => (r matches Some(v) && v as int == n),
                None => r is None,
            },
    {
        let rec = match &self.current {
            Some(rec) => rec,
            None => {
                return None;
            },
        };
        match col {
            RowsColumn::Line => Some(rec.line),
            RowsColumn::Byte => Some(rec.byte),
            RowsColumn::Length => Some(rec.len() as u64),
            _ => None,
        }
    }

    /// Publish the current row and the shared header into a registry
    /// and hand back the opaque, generation-checked handle the `Row`
    /// column carries; `None` without a current row.
    pub fn publish_row(&self, reg: &mut RecordReferenceRegistry) -> (r: Option<RecordReference>)
        requires
            old(reg).gen_now() < u64::MAX,
        ensures
            match r {
                Some(h) => {
                    &&& self.current_row() is Some
                    &&& final(reg).is_live()
                    &&& final(reg).row() == self.current_row().unwrap()
                    &&& final(reg).hdr() == Some(self.hdr())
                    &&& h.gen_of() == final(reg).gen_now()
                },
                None => {
                    &&& self.current_row() is None
                    &&& *final(reg) == *old(reg)
                },
            },
    {
        let rec = match &self.current {
            Some(rec) => rec,
            None => {
                return None;
            },
        };
        let row_copy = copy_record(rec);
        let hdr_copy = copy_record(&self.header);
        proof {
            assert(row_copy@ =~~= rec@);
            assert(hdr_copy@ =~~= self.header@);
        }
        Some(reg.publish(row_copy, Some(hdr_copy)))
    }

    /// Publish the shared header alone, for the `Headers` column.
    pub fn publish_headers(&self, reg: &mut RecordReferenceRegistry) -> (r: RecordReference)
        requires
            old(reg).gen_now() < u64::MAX,
        ensures
            final(reg).is_live(),
            final(reg).row() == self.hdr(),
            final(reg).hdr() is None,
            r.gen_of() == final(reg).gen_now(),
    {
        let hdr_copy = copy_record(&self.header);
        proof {
            assert(hdr_copy@ =~~= self.header@);
        }
        reg.publish(hdr_copy, None)
    }
}

/// A field-by-field copy of a record.
fn copy_record(rec: &Record) -> (r: Record)
    ensures
        r@ == rec@,
{
    let mut fields: Vec<Vec<u8>> = Vec::new();
    let mut i: usize = 0;
    while i < rec.fields.len()
        invariant
            i <= rec.fields@.len(),
            fields@.len() == i,
            forall|k: int| 0 <= k < i ==> #[trigger] fields@[k]@ == rec.fields@[k]@,
        decreases rec.fields.len() - i,
    {
        let f = crate::bytes::subvec(&rec.fields[i], 0, rec.fields[i].len());
        proof {
            assert(f@ =~= rec.fields@[i as int]@);
        }
        fields.push(f);
        i = i + 1;
    }
    let r = Record { fields, line: rec.line, byte: rec.byte };
    proof {
        assert(r@.fields =~~= rec@.fields);
        assert(r@ =~~= rec@);
    }
    r
}

} // verus!
