//! Pivoting one record into a field-per-row projection.
//!
//! Given a record (or a header), the cursor serves its fields one per
//! row, in order; a read past the last field is NULL, and the row id
//! counts from zero over the fields.

use vstd::prelude::*;

use crate::bytes::subvec;
use crate::decode::{Record, RowModel};

verus! {

/// A cursor over the fields of one record.
pub struct FieldsCursor {
    record: Record,
    rowid: i64,
}

impl FieldsCursor {
    /// The record being pivoted.
    pub closed spec fn rec(self) -> RowModel {
        self.record@
    }

    /// The current position among the fields.
    pub closed spec fn pos(self) -> int {
        self.rowid as int
    }

    /// Pivot one record: position zero, on its first field.
    pub fn new(record: Record) -> (r: FieldsCursor)
        ensures
            r.rec() == record@,
            r.pos() == 0,
    {
        FieldsCursor { record, rowid: 0 }
    }

    /// Move to the next field.
    pub fn next(&mut self)
        requires
            old(self).pos() < i64::MAX,
        ensures
            final(self).rec() == old(self).rec(),
            final(self).pos() == old(self).pos() + 1,
    {
        self.rowid = self.rowid + 1;
    }

    /// Whether the fields are exhausted.
    pub fn eof(&self) -> (b: bool)
        requires
            self.pos() >= 0,
        ensures
            b == (self.pos() >= self.rec().fields.len()),
    {
        let len = self.record.len();
        (self.rowid as u64) >= (len as u64)
    }

    /// The current field's text, or `None` past the record's end.
    pub fn contents(&self) -> (r: Option<Vec<u8>>)
        requires
            self.pos() >= 0,
        ensures
            match r {
                Some(t) => self.pos() < self.rec().fields.len() && t@ == self.rec().fields[
                    self.pos()
                ],
                None => self.pos() >= self.rec().fields.len(),
            },
    {
        let len = self.record.len();
        if (self.rowid as u64) >= (len as u64) {
            return None;
        }
        let idx = self.rowid as usize;
        match self.record.field(idx) {
            Some(f) => {
                let out = subvec(f, 0, f.len());
                proof {
                    assert(out@ =~= f@);
                }
                Some(out)
            },
            None => None,
        }
    }

    /// The row id: the current field's position.
    pub fn rowid(&self) -> (n: i64)
        ensures
            n as int == self.pos(),
    {
        self.rowid
    }
}

} // verus!
