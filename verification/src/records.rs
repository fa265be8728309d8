//! Serving each record of a text as one re-encoded line.
//!
//! The whole text is decoded up front under the given delimiter (the
//! quote byte is the standard `"`), and every record is written back
//! out as a one-record document: quoted and escaped as needed, ending
//! in `\n`.  The cursor then serves those lines in order.

use vstd::prelude::*;

use crate::decode::{lemma_decoded_rows_nonempty, row_utf8, spec_decode, Record, RecordDecoder, RowModel};
use crate::encode::{encode_record, spec_encode_record};
use crate::error::{DecodeFault, XsvError};

verus! {

/// The standard quote byte `"`.
pub open spec fn default_quote() -> u8 {
    0x22
}

/// A cursor over the re-encoded records of one text.
pub struct RecordsCursor {
    records: Vec<Vec<u8>>,
    current: usize,
}

impl RecordsCursor {
    /// The re-encoded record lines, in order.
    pub closed spec fn lines(self) -> Seq<Seq<u8>> {
        self.records.deep_view()
    }

    /// The current position.
    pub closed spec fn pos(self) -> int {
        self.current as int
    }

    /// Decode `data` under `delimiter` and re-encode each record as
    /// its own line.  The lines are exactly the records of the text's
    /// full decoding, each encoded back; a failure is owed its cause:
    /// broken quoting only where the text does not decode, a UTF-8
    /// fault only where a decoded record holds one — so decodable
    /// text is always served.
    pub fn open(data: Vec<u8>, delimiter: u8) -> (r: Result<RecordsCursor, XsvError>)
        requires
            data@.len() < usize::MAX,
        ensures
            match r {
                Ok(c) => {
                    &&& c.pos() == 0
                    &&& spec_decode(data@, delimiter, default_quote()) matches Some(rows)
                        && c.lines() == rows.map_values(
                        |rm: RowModel| spec_encode_record(rm.fields, delimiter, default_quote()),
                    )
                },
                Err(XsvError::Decode(DecodeFault::Malformed)) => spec_decode(
                    data@,
                    delimiter,
                    default_quote(),
                ) is None,
                Err(XsvError::Decode(DecodeFault::Utf8)) => (spec_decode(
                    data@,
                    delimiter,
                    default_quote(),
                ) matches Some(rows) ==> exists|k: int|
                    0 <= k < rows.len() && !(row_utf8(#[trigger] rows[k]))),
                Err(e) => false,
            },
    {
        let mut dec = RecordDecoder::new(data, delimiter, 0x22);
        let recs = match dec.read_all() {
            Ok(v) => v,
            Err(f) => {
                return Err(XsvError::Decode(f));
            },
        };
        let ghost rows = recs@.map_values(|rec: Record| rec@);
        proof {
            lemma_decoded_rows_nonempty(dec.src(), delimiter, default_quote());
            assert(spec_decode(dec.src(), delimiter, default_quote()) == Some(rows));
            let rows2 = spec_decode(dec.src(), delimiter, default_quote()).unwrap();
            assert(rows2 == rows);
            assert(forall|k: int| 0 <= k < rows2.len() ==> #[trigger] rows2[k].fields.len() >= 1);
        }
        let mut records: Vec<Vec<u8>> = Vec::new();
        let mut i: usize = 0;
        while i < recs.len()
            invariant
                i <= recs@.len(),
                rows == recs@.map_values(|rec: Record| rec@),
                spec_decode(dec.src(), delimiter, default_quote()) == Some(rows),
                forall|k: int| 0 <= k < rows.len() ==> #[trigger] rows[k].fields.len() >= 1,
                records@.len() == i,
                forall|k: int|
                    0 <= k < i ==> #[trigger] records@[k]@ == spec_encode_record(
                        rows[k].fields,
                        delimiter,
                        default_quote(),
                    ),
            decreases recs.len() - i,
        {
            let rec = &recs[i];
            proof {
                assert(rows[i as int] == recs@[i as int]@);
                assert(rows[i as int].fields.len() >= 1);
                assert(rec.fields.deep_view() == rows[i as int].fields);
                assert(rec.fields@.len() >= 1);
            }
            let line = encode_record(&rec.fields, delimiter, 0x22);
            records.push(line);
            i = i + 1;
        }
        proof {
            assert(records.deep_view() =~~= rows.map_values(
                |rm: RowModel| spec_encode_record(rm.fields, delimiter, default_quote()),
            ));
        }
        Ok(RecordsCursor { records, current: 0 })
    }

    /// Move to the next record line.
    pub fn next(&mut self)
        requires
            old(self).pos() < usize::MAX,
        ensures
            final(self).lines() == old(self).lines(),
            final(self).pos() == old(self).pos() + 1,
    {
        self.current = self.current + 1;
    }

    /// Whether the record lines are exhausted.
    pub fn eof(&self) -> (b: bool)
        ensures
            b == (self.pos() >= self.lines().len()),
    {
        self.current >= self.records.len()
    }

    /// The current re-encoded record line, or `None` past the end.
    pub fn record_text(&self) -> (r: Option<&Vec<u8>>)
        ensures
            match r {
                Some(t) => self.pos() < self.lines().len() && t@ == self.lines()[self.pos()],
                None => self.pos() >= self.lines().len(),
            },
    {
        if self.current < self.records.len() {
            let t = &self.records[self.current];
            proof {
                assert(t@ == self.lines()[self.pos()]);
            }
            Some(t)
        } else {
            None
        }
    }

    /// The row id: the current position.
    pub fn rowid(&self) -> (n: i64)
        requires
            self.pos() <= i64::MAX,
        ensures
            n as int == self.pos(),
    {
        self.current as i64
    }
}

} // verus!
