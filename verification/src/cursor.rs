//! The table cursor: one scan over one or many sources.
//!
//! The cursor owns at most one decoder at a time and is driven
//! pull-fashion.  `advance` yields the next row of the open source;
//! when the source is exhausted it asks for the next one
//! (`Advance::NeedSource`), which the caller supplies as a path and
//! that path's raw bytes — the path sequence itself (say, a glob
//! expansion) is the caller's business.  When the caller reports the
//! sequence exhausted, the cursor reaches its terminal end state.
//! The row id grows by exactly one per emitted row, starting at 1,
//! across source boundaries.  The first record of every source is
//! consumed as a header when the dialect says so.
//!
//! The current source's path and the current row's line number are
//! plain fields of the cursor, read through accessors: one cursor
//! per scan, no state shared between scans.

use vstd::prelude::*;

use crate::decode::{spec_decode, Record, RecordDecoder, RowModel, row_utf8};
use crate::error::{DecodeFault, XsvError};
use crate::source::{decode_source, spec_source_content, spec_source_ok};
use crate::value::{coerce, spec_coerce, Affinity, Value, ValueSpec};

verus! {

/// What one `advance` call produced.
#[derive(Clone, Copy, Debug, PartialEq, Eq, Structural)]
pub enum Advance {
    /// A row is ready to read.
    Row,
    /// The current source is exhausted; supply the next one or report
    /// the end of the sequence.
    NeedSource,
    /// The scan is over.
    Eof,
}

/// What a column read yields: the coerced field, or NULL past a
/// short record's end; columns beyond the schema read as plain text.
pub open spec fn spec_column_value(row: Option<RowModel>, affs: Seq<Affinity>, i: int) -> ValueSpec {
    match row {
        None => ValueSpec::Null,
        Some(rm) => {
            if i >= rm.fields.len() {
                ValueSpec::Null
            } else {
                spec_coerce(
                    if i < affs.len() {
                        affs[i]
                    } else {
                        Affinity::Blob
                    },
                    rm.fields[i],
                )
            }
        },
    }
}

/// A record shorter than the requested column reads NULL, never an
/// error — missing trailing columns are a result; and any record,
/// however wide, answers every column index with some value.
pub proof fn lemma_short_record_reads_null(rm: RowModel, affs: Seq<Affinity>, i: int)
    requires
        i >= rm.fields.len(),
    ensures
        spec_column_value(Some(rm), affs, i) == ValueSpec::Null,
{
}

/// The streaming cursor over a sequence of sources.
pub struct TableCursor {
    delimiter: u8,
    quote: u8,
    header: bool,
    affinities: Vec<Affinity>,
    dec: RecordDecoder,
    has_src: bool,
    current: Option<Record>,
    rowid: i64,
    finished: bool,
    current_path: Vec<u8>,
    emitted: Ghost<Seq<RowModel>>,
}

impl TableCursor {
    /// The rows handed out so far, in order.
    pub closed spec fn rows_emitted(self) -> Seq<RowModel> {
        self.emitted@
    }

    /// How many rows have been handed out.
    pub closed spec fn row_count(self) -> int {
        self.rowid as int
    }

    /// Whether a row is ready to read.
    pub closed spec fn has_row(self) -> bool {
        self.current is Some
    }

    /// The row ready to read, if any.
    pub closed spec fn current_row(self) -> Option<RowModel> {
        match self.current {
            Some(r) => Some(r@),
            None => None,
        }
    }

    /// Whether a source is open.
    pub closed spec fn has_source(self) -> bool {
        self.has_src
    }

    /// The decoded byte stream of the open source.
    pub closed spec fn src_data(self) -> Seq<u8> {
        self.dec.src()
    }

    /// The records pulled from the open source so far, the header
    /// included when the dialect has one.
    pub closed spec fn src_processed(self) -> Seq<RowModel> {
        self.dec.processed()
    }

    /// Whether the scan has reached its terminal state.
    pub closed spec fn at_eof(self) -> bool {
        self.finished
    }

    /// The field delimiter.
    pub closed spec fn delim(self) -> u8 {
        self.delimiter
    }

    /// The quote byte; zero disables quoting.
    pub closed spec fn quote_byte(self) -> u8 {
        self.quote
    }

    /// Whether each source's first record is a header.
    pub closed spec fn header_flag(self) -> bool {
        self.header
    }

    /// The column affinities the cursor coerces with.
    pub closed spec fn affs(self) -> Seq<Affinity> {
        self.affinities@
    }

    /// The path of the most recently supplied source.
    pub closed spec fn path_view(self) -> Seq<u8> {
        self.current_path@
    }

    /// The cursor's invariant.
    pub closed spec fn wf(self) -> bool {
        &&& self.rowid as int == self.emitted@.len()
        &&& self.dec.wf()
        &&& self.dec.delim() == self.delimiter
        &&& self.dec.quote_byte() == self.quote
        &&& (self.finished ==> !self.has_src)
        &&& (self.current is Some ==> self.emitted@.len() > 0 && self.current.unwrap()@
            == self.emitted@.last())
    }

    /// A cursor over the given dialect and schema affinities, before
    /// any source: no row, row id zero, not yet at the end.
    pub fn new(delimiter: u8, quote: u8, header: bool, affinities: Vec<Affinity>) -> (r:
        TableCursor)
        ensures
            r.wf(),
            !r.has_source(),
            !r.at_eof(),
            !r.has_row(),
            r.row_count() == 0,
            r.rows_emitted() == Seq::<RowModel>::empty(),
            r.delim() == delimiter,
            r.quote_byte() == quote,
            r.header_flag() == header,
            r.affs() == affinities@,
    {
        TableCursor {
            delimiter,
            quote,
            header,
            affinities,
            dec: RecordDecoder::new(Vec::new(), delimiter, quote),
            has_src: false,
            current: None,
            rowid: 0,
            finished: false,
            current_path: Vec::new(),
            emitted: Ghost(Seq::empty()),
        }
    }

    /// Open the next source: raw bytes are decompressed by the path's
    /// suffix, a fresh decoder starts over them, and the dialect's
    /// header record, if any, is consumed and discarded.
    ///
    /// On success the open source's stream is exactly the decoded
    /// content of this path, no rows have been handed out from it
    /// yet, and at most the header record has been pulled.  Failures
    /// are the path's (I/O) or the header record's (decode); the
    /// cursor then stands unchanged but for scratch state, still
    /// without a source.
    pub fn supply_source(&mut self, path: Vec<u8>, raw: Vec<u8>) -> (r: Result<(), XsvError>)
        requires
            old(self).wf(),
            !old(self).at_eof(),
            !old(self).has_source(),
        ensures
            final(self).wf(),
            final(self).rows_emitted() == old(self).rows_emitted(),
            final(self).row_count() == old(self).row_count(),
            final(self).delim() == old(self).delim(),
            final(self).quote_byte() == old(self).quote_byte(),
            final(self).header_flag() == old(self).header_flag(),
            final(self).affs() == old(self).affs(),
            final(self).at_eof() == old(self).at_eof(),
            final(self).current_row() == old(self).current_row(),
            match r {
                Ok(()) => {
                    &&& final(self).has_source()
                    &&& final(self).src_data() == spec_source_content(path@, raw@)
                    &&& final(self).path_view() == path@
                    &&& (!old(self).header_flag() ==> final(self).src_processed() == Seq::<
                        RowModel,
                    >::empty())
                    &&& final(self).src_processed().len() <= 1
                    &&& (spec_decode(final(self).src_data(), final(self).delim(), final(self).quote_byte())
                        matches Some(rows) ==> final(self).src_processed() == (if old(self).header_flag()
                        && rows.len() > 0 {
                        seq![rows[0]]
                    } else {
                        Seq::<RowModel>::empty()
                    }))
                },
                Err(e) => {
                    &&& !final(self).has_source()
                    &&& match e {
                        XsvError::Io(p) => p@ == path@ && (!spec_source_ok(path@, raw@)
                            || spec_source_content(path@, raw@).len() >= usize::MAX),
                        XsvError::Decode(f) => {
                            &&& old(self).header_flag()
                            &&& spec_source_ok(path@, raw@)
                            &&& spec_source_content(path@, raw@).len() < usize::MAX
                            &&& (f == DecodeFault::Malformed ==> spec_decode(
                                spec_source_content(path@, raw@),
                                old(self).delim(),
                                old(self).quote_byte(),
                            ) is None)
                            &&& (f == DecodeFault::Utf8 ==> (spec_decode(
                                spec_source_content(path@, raw@),
                                old(self).delim(),
                                old(self).quote_byte(),
                            ) matches Some(rows) ==> rows.len() > 0 && !(row_utf8(rows[0]))))
                        },
                        _ => false,
                    }
                },
            },
    {
        let content = match decode_source(&path, raw) {
            Ok(c) => c,
            Err(e) => {
                return Err(e);
            },
        };
        if content.len() == usize::MAX {
            return Err(XsvError::Io(path));
        }
        let mut dec = RecordDecoder::new(content, self.delimiter, self.quote);
        if self.header {
            match dec.read_next() {
                Ok(_) => {
                },
                Err(f) => {
                    return Err(XsvError::Decode(f));
                },
            }
        }
        self.dec = dec;
        self.has_src = true;
        self.current_path = path;
        Ok(())
    }

    /// Report the source sequence exhausted: the scan reaches its
    /// terminal state.
    pub fn end_of_sources(&mut self)
        requires
            old(self).wf(),
            !old(self).has_source(),
        ensures
            final(self).wf(),
            final(self).at_eof(),
            final(self).rows_emitted() == old(self).rows_emitted(),
            final(self).row_count() == old(self).row_count(),
            final(self).delim() == old(self).delim(),
            final(self).quote_byte() == old(self).quote_byte(),
            final(self).header_flag() == old(self).header_flag(),
            final(self).affs() == old(self).affs(),
    {
        self.finished = true;
    }

    /// Pull the next row.
    ///
    /// `Row` hands out exactly the next record of the open source:
    /// the row id grows by one and the record joins the emitted rows.
    /// `NeedSource` says the open source (if any) decoded completely
    /// to what was pulled from it; supply the next source or report
    /// the end.  `Eof` is terminal.  A decode failure aborts the scan
    /// with the fault; rows already emitted remain valid.
    pub fn advance(&mut self) -> (r: Result<Advance, XsvError>)
        requires
            old(self).wf(),
            old(self).row_count() < i64::MAX,
        ensures
            final(self).wf(),
            final(self).delim() == old(self).delim(),
            final(self).quote_byte() == old(self).quote_byte(),
            final(self).header_flag() == old(self).header_flag(),
            final(self).affs() == old(self).affs(),
            final(self).path_view() == old(self).path_view(),
            old(self).at_eof() ==> (r == Ok::<Advance, XsvError>(Advance::Eof) && *final(self)
                == *old(self)),
            match r {
                Ok(Advance::Row) => {
                    &&& final(self).has_row()
                    &&& final(self).rows_emitted() == old(self).rows_emitted().push(
                        final(self).current_row().unwrap(),
                    )
                    &&& final(self).row_count() == old(self).row_count() + 1
                    &&& final(self).has_source() && old(self).has_source()
                    &&& final(self).src_processed() == old(self).src_processed().push(
                        final(self).current_row().unwrap(),
                    )
                    &&& row_utf8(final(self).current_row().unwrap())
                    &&& (spec_decode(old(self).src_data(), old(self).delim(), old(self).quote_byte())
                        matches Some(rows) ==> rows.len() > old(self).src_processed().len()
                        && rows[old(self).src_processed().len() as int]
                        == final(self).current_row().unwrap())
                },
                Ok(Advance::NeedSource) => {
                    &&& !final(self).has_source()
                    &&& !final(self).at_eof()
                    &&& final(self).rows_emitted() == old(self).rows_emitted()
                    &&& final(self).row_count() == old(self).row_count()
                    &&& (old(self).has_source() ==> spec_decode(
                        old(self).src_data(),
                        old(self).delim(),
                        old(self).quote_byte(),
                    ) == Some(old(self).src_processed()))
                },
                Ok(Advance::Eof) => {
                    &&& final(self).at_eof()
                    &&& final(self).rows_emitted() == old(self).rows_emitted()
                    &&& final(self).row_count() == old(self).row_count()
                },
                Err(e) => {
                    &&& !old(self).at_eof()
                    &&& old(self).has_source()
                    &&& final(self).rows_emitted() == old(self).rows_emitted()
                    &&& final(self).row_count() == old(self).row_count()
                    &&& (e matches XsvError::Decode(f) && {
                        &&& (f == DecodeFault::Malformed ==> spec_decode(
                            old(self).src_data(),
                            old(self).delim(),
                            old(self).quote_byte(),
                        ) is None)
                        &&& (f == DecodeFault::Utf8 ==> (spec_decode(
                            old(self).src_data(),
                            old(self).delim(),
                            old(self).quote_byte(),
                        ) matches Some(rows) ==> rows.len() > old(self).src_processed().len()
                            && !(row_utf8(rows[old(self).src_processed().len() as int]))))
                    })
                },
            },
    {
        if self.finished {
            return Ok(Advance::Eof);
        }
        if !self.has_src {
            return Ok(Advance::NeedSource);
        }
        match self.dec.read_next() {
            Ok(Some(rec)) => {
                self.rowid = self.rowid + 1;
                proof {
                    self.emitted@ = self.emitted@.push(rec@);
                }
                self.current = Some(rec);
                Ok(Advance::Row)
            },
            Ok(None) => {
                self.has_src = false;
                Ok(Advance::NeedSource)
            },
            Err(f) => Err(XsvError::Decode(f)),
        }
    }

    /// The value of column `i` of the current row: coerced by the
    /// column's affinity; NULL when the record is shorter than the
    /// schema; plain text beyond the schema's width.
    pub fn column(&self, i: usize) -> (r: Value)
        ensures
            r@ == spec_column_value(self.current_row(), self.affs(), i as int),
    {
        let rec = match &self.current {
            Some(rec) => rec,
            None => {
                return Value::Null;
            },
        };
        let f = match rec.field(i) {
            Some(f) => f,
            None => {
                return Value::Null;
            },
        };
        let text = crate::bytes::subvec(f, 0, f.len());
        proof {
            assert(text@ =~= rec@.fields[i as int]);
        }
        let aff = if i < self.affinities.len() {
            self.affinities[i]
        } else {
            Affinity::Blob
        };
        coerce(aff, text)
    }

    /// The value of column `i` under the reader flavour, which owes
    /// every declared column: a record shorter than the schema reads
    /// NULL for its missing trailing columns; only a read past the
    /// declared columns, or without a current row, is refused.
    pub fn column_strict(&self, i: usize) -> (r: Option<Value>)
        ensures
            match r {
                Some(v) => {
                    &&& i < self.affs().len()
                    &&& self.current_row() matches Some(rm) && v@ == (if i < rm.fields.len() {
                        spec_coerce(self.affs()[i as int], rm.fields[i as int])
                    } else {
                        ValueSpec::Null
                    })
                },
                None => self.current_row() is None || i >= self.affs().len(),
            },
    {
        if i >= self.affinities.len() {
            return None;
        }
        let rec = match &self.current {
            Some(rec) => rec,
            None => {
                return None;
            },
        };
        let f = match rec.field(i) {
            Some(f) => f,
            None => {
                return Some(Value::Null);
            },
        };
        let text = crate::bytes::subvec(f, 0, f.len());
        proof {
            assert(text@ =~= rec@.fields[i as int]);
        }
        Some(coerce(self.affinities[i], text))
    }

    /// The row id counts the emitted rows exactly: it starts at zero
    /// before any row, and `advance` grows both together, one per
    /// emitted row, whatever the source boundaries — so the first row
    /// reads 1, the next 2, and so on.
    pub proof fn lemma_rowid_counts_rows(self)
        requires
            self.wf(),
        ensures
            self.row_count() == self.rows_emitted().len(),
    {
    }

    /// The monotonically increasing per-scan row counter.
    pub fn rowid(&self) -> (n: i64)
        ensures
            n as int == self.row_count(),
    {
        self.rowid
    }

    /// Whether the scan is over.
    pub fn eof(&self) -> (b: bool)
        ensures
            b == self.at_eof(),
    {
        self.finished
    }

    /// The path of the most recently supplied source.
    pub fn path(&self) -> (p: &Vec<u8>)
        ensures
            p@ == self.path_view(),
    {
        &self.current_path
    }

    /// The line the current row began on; zero when no row is
    /// current.
    pub fn line_number(&self) -> (n: u64)
        requires
            self.wf(),
        ensures
            self.current_row() matches Some(rm) ==> n as nat == rm.line,
            self.current_row() is None ==> n == 0,
    {
        match &self.current {
            Some(rec) => rec.line,
            None => 0,
        }
    }
}

} // verus!
