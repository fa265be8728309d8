//! The record decoder: a byte stream plus a dialect becomes a lazy,
//! forward-only sequence of records.
//!
//! The meaning of decoding is given by a small-step machine
//! ([`step`]): one byte at a time, tracking the quoting mode, the
//! fields of the record under construction, and the position (line and
//! byte offset) where that record began.  Standard quoting rules hold:
//! a field that begins with the quote byte runs to the matching close
//! quote, a doubled quote inside it is a literal quote, and delimiters
//! and record terminators inside it are ordinary bytes.  Setting the
//! quote byte to zero disables quote interpretation entirely.  Records
//! end at `\n`, `\r` or `\r\n`; entirely empty lines yield no record.
//! A close quote followed by anything but a delimiter, a terminator or
//! end of input is malformed, as is a quoted field left open at end of
//! input.  Field counts may vary record to record; reconciling them
//! against a schema is the caller's business, not the decoder's.
//!
//! The executable [`RecordDecoder`] is proved to walk this machine
//! exactly; each decoded field is additionally required to be valid
//! UTF-8, anything else being a decode failure rather than a record.

use vstd::prelude::*;
use vstd::utf8::valid_utf8;

use crate::error::DecodeFault;

verus! {

/// The quoting mode of the decoding machine.
#[derive(Clone, Copy, Debug, PartialEq, Eq, Structural)]
pub enum Mode {
    /// At the start of a line, outside any record.
    StartRecord,
    /// Just after a record-terminating `\r`; a following `\n` belongs
    /// to the same terminator.
    AfterCr,
    /// Inside a record, at the start of a field.
    FieldStart,
    /// Inside an unquoted field.
    Unquoted,
    /// Inside a quoted field.
    InQuote,
    /// Just after a quote inside a quoted field: either the close
    /// quote or the first half of a doubled literal quote.
    AfterQuote,
}

/// One decoded record: its fields, and the line and byte offset at
/// which it began.
#[verifier::ext_equal]
pub struct RowModel {
    /// The field texts, in order.
    pub fields: Seq<Seq<u8>>,
    /// The 1-based line the record began on; record terminators
    /// outside quotes end lines.
    pub line: nat,
    /// The byte offset of the record's first byte.
    pub byte: nat,
}

/// The full state of the decoding machine.
#[verifier::ext_equal]
pub struct MachineState {
    /// Records emitted so far.
    pub rows: Seq<RowModel>,
    /// Completed fields of the record under construction.
    pub acc: Seq<Seq<u8>>,
    /// Bytes of the field under construction.
    pub cur: Seq<u8>,
    /// The quoting mode.
    pub mode: Mode,
    /// The current 1-based line number.
    pub line: nat,
    /// How many bytes have been consumed.
    pub consumed: nat,
    /// The line on which the current record began; at a record
    /// boundary, the current line.
    pub rec_line: nat,
    /// The byte offset at which the current record began; at a record
    /// boundary, the next unconsumed offset.
    pub rec_byte: nat,
}

/// Whether the machine stands inside a record.
pub open spec fn in_record(m: Mode) -> bool {
    m == Mode::FieldStart || m == Mode::Unquoted || m == Mode::InQuote || m == Mode::AfterQuote
}

/// The machine before any byte.
pub open spec fn init_state() -> MachineState {
    MachineState {
        rows: Seq::empty(),
        acc: Seq::empty(),
        cur: Seq::empty(),
        mode: Mode::StartRecord,
        line: 1,
        consumed: 0,
        rec_line: 1,
        rec_byte: 0,
    }
}

/// The rows of `st` extended with the record under construction.
pub open spec fn emit(st: MachineState) -> Seq<RowModel> {
    st.rows.push(
        RowModel { fields: st.acc.push(st.cur), line: st.rec_line, byte: st.rec_byte },
    )
}

/// One byte of decoding under delimiter `d` and quote `q` (`q == 0`
/// disables quoting).  `None` is broken quoting.
pub open spec fn step(st: MachineState, b: u8, d: u8, q: u8) -> Option<MachineState> {
    match st.mode {
        Mode::StartRecord | Mode::AfterCr => {
            if b == 0x0a {
                // An empty line yields no record; after a `\r` this is
                // the second half of one terminator.
                let nl = if st.mode == Mode::StartRecord {
                    (st.line + 1) as nat
                } else {
                    st.line
                };
                Some(
                    MachineState {
                        mode: Mode::StartRecord,
                        line: nl,
                        consumed: (st.consumed + 1) as nat,
                        rec_line: nl,
                        rec_byte: (st.consumed + 1) as nat,
                        ..st
                    },
                )
            } else if b == 0x0d {
                Some(
                    MachineState {
                        mode: Mode::AfterCr,
                        line: (st.line + 1) as nat,
                        consumed: (st.consumed + 1) as nat,
                        rec_line: (st.line + 1) as nat,
                        rec_byte: (st.consumed + 1) as nat,
                        ..st
                    },
                )
            } else {
                // A record begins at this byte.
                let st0 = MachineState {
                    rec_line: st.line,
                    rec_byte: st.consumed,
                    consumed: (st.consumed + 1) as nat,
                    ..st
                };
                if b == d {
                    Some(
                        MachineState {
                            acc: seq![Seq::empty()],
                            cur: Seq::empty(),
                            mode: Mode::FieldStart,
                            ..st0
                        },
                    )
                } else if q != 0 && b == q {
                    Some(
                        MachineState {
                            acc: Seq::empty(),
                            cur: Seq::empty(),
                            mode: Mode::InQuote,
                            ..st0
                        },
                    )
                } else {
                    Some(
                        MachineState {
                            acc: Seq::empty(),
                            cur: seq![b],
                            mode: Mode::Unquoted,
                            ..st0
                        },
                    )
                }
            }
        },
        Mode::FieldStart | Mode::Unquoted => {
            if b == 0x0a {
                Some(
                    MachineState {
                        rows: emit(st),
                        acc: Seq::empty(),
                        cur: Seq::empty(),
                        mode: Mode::StartRecord,
                        line: (st.line + 1) as nat,
                        consumed: (st.consumed + 1) as nat,
                        rec_line: (st.line + 1) as nat,
                        rec_byte: (st.consumed + 1) as nat,
                    },
                )
            } else if b == 0x0d {
                Some(
                    MachineState {
                        rows: emit(st),
                        acc: Seq::empty(),
                        cur: Seq::empty(),
                        mode: Mode::AfterCr,
                        line: (st.line + 1) as nat,
                        consumed: (st.consumed + 1) as nat,
                        rec_line: (st.line + 1) as nat,
                        rec_byte: (st.consumed + 1) as nat,
                    },
                )
            } else if b == d {
                Some(
                    MachineState {
                        acc: st.acc.push(st.cur),
                        cur: Seq::empty(),
                        mode: Mode::FieldStart,
                        consumed: (st.consumed + 1) as nat,
                        ..st
                    },
                )
            } else if st.mode == Mode::FieldStart && q != 0 && b == q {
                Some(
                    MachineState {
                        mode: Mode::InQuote,
                        consumed: (st.consumed + 1) as nat,
                        ..st
                    },
                )
            } else {
                Some(
                    MachineState {
                        cur: st.cur.push(b),
                        mode: Mode::Unquoted,
                        consumed: (st.consumed + 1) as nat,
                        ..st
                    },
                )
            }
        },
        Mode::InQuote => {
            if q != 0 && b == q {
                Some(
                    MachineState {
                        mode: Mode::AfterQuote,
                        consumed: (st.consumed + 1) as nat,
                        ..st
                    },
                )
            } else {
                Some(
                    MachineState { cur: st.cur.push(b), consumed: (st.consumed + 1) as nat, ..st },
                )
            }
        },
        Mode::AfterQuote => {
            if q != 0 && b == q {
                Some(
                    MachineState {
                        cur: st.cur.push(q),
                        mode: Mode::InQuote,
                        consumed: (st.consumed + 1) as nat,
                        ..st
                    },
                )
            } else if b == 0x0a {
                Some(
                    MachineState {
                        rows: emit(st),
                        acc: Seq::empty(),
                        cur: Seq::empty(),
                        mode: Mode::StartRecord,
                        line: (st.line + 1) as nat,
                        consumed: (st.consumed + 1) as nat,
                        rec_line: (st.line + 1) as nat,
                        rec_byte: (st.consumed + 1) as nat,
                    },
                )
            } else if b == 0x0d {
                Some(
                    MachineState {
                        rows: emit(st),
                        acc: Seq::empty(),
                        cur: Seq::empty(),
                        mode: Mode::AfterCr,
                        line: (st.line + 1) as nat,
                        consumed: (st.consumed + 1) as nat,
                        rec_line: (st.line + 1) as nat,
                        rec_byte: (st.consumed + 1) as nat,
                    },
                )
            } else if b == d {
                Some(
                    MachineState {
                        acc: st.acc.push(st.cur),
                        cur: Seq::empty(),
                        mode: Mode::FieldStart,
                        consumed: (st.consumed + 1) as nat,
                        ..st
                    },
                )
            } else {
                None
            }
        },
    }
}

/// The machine run over `s` from state `st`.
pub open spec fn run_from(st: MachineState, s: Seq<u8>, d: u8, q: u8) -> Option<MachineState>
    decreases s.len(),
{
    if s.len() == 0 {
        Some(st)
    } else {
        match step(st, s[0], d, q) {
            Some(m) => run_from(m, s.drop_first(), d, q),
            None => None,
        }
    }
}

/// What end of input yields from state `st`: the emitted rows, with a
/// final record closed off if one was under construction.  `None` is
/// an unterminated quoted field.
pub open spec fn finalize(st: MachineState) -> Option<Seq<RowModel>> {
    match st.mode {
        Mode::StartRecord | Mode::AfterCr => Some(st.rows),
        Mode::FieldStart | Mode::Unquoted | Mode::AfterQuote => Some(emit(st)),
        Mode::InQuote => None,
    }
}

/// The records of `s` under delimiter `d` and quote `q`; `None` is
/// broken quoting.
pub open spec fn spec_decode(s: Seq<u8>, d: u8, q: u8) -> Option<Seq<RowModel>> {
    match run_from(init_state(), s, d, q) {
        Some(st) => finalize(st),
        None => None,
    }
}

/// The field texts of decoded rows, positions dropped.
pub open spec fn rows_fields(rows: Seq<RowModel>) -> Seq<Seq<Seq<u8>>> {
    rows.map_values(|r: RowModel| r.fields)
}

/// Running over `a + b` is running over `a`, then over `b`.
pub proof fn lemma_run_concat(st: MachineState, a: Seq<u8>, b: Seq<u8>, d: u8, q: u8)
    ensures
        run_from(st, a + b, d, q) == (match run_from(st, a, d, q) {
            Some(m) => run_from(m, b, d, q),
            None => None::<MachineState>,
        }),
    decreases a.len(),
{
    if a.len() == 0 {
        assert(a + b =~= b);
    } else {
        assert((a + b)[0] == a[0]);
        assert((a + b).drop_first() =~= a.drop_first() + b);
        match step(st, a[0], d, q) {
            Some(m) => {
                lemma_run_concat(m, a.drop_first(), b, d, q);
            },
            None => {
            },
        }
    }
}

/// Running one more byte is one more step.
pub proof fn lemma_run_snoc(st: MachineState, s: Seq<u8>, b: u8, d: u8, q: u8)
    ensures
        run_from(st, s.push(b), d, q) == (match run_from(st, s, d, q) {
            Some(m) => step(m, b, d, q),
            None => None::<MachineState>,
        }),
{
    assert(s.push(b) =~= s + seq![b]);
    lemma_run_concat(st, s, seq![b], d, q);
    match run_from(st, s, d, q) {
        Some(m) => {
            assert(run_from(m, seq![b], d, q) == (match step(m, b, d, q) {
                Some(m2) => run_from(m2, seq![b].drop_first(), d, q),
                None => None::<MachineState>,
            }));
            match step(m, b, d, q) {
                Some(m2) => {
                    assert(seq![b].drop_first() =~= Seq::<u8>::empty());
                },
                None => {
                },
            }
        },
        None => {
        },
    }
}

proof fn lemma_run_rows_prefix(st: MachineState, t: Seq<u8>, d: u8, q: u8)
    ensures
        run_from(st, t, d, q) matches Some(st2) ==> st2.rows.len() >= st.rows.len()
            && st2.rows.take(st.rows.len() as int) == st.rows,
    decreases t.len(),
{
    if t.len() == 0 {
        assert(st.rows.take(st.rows.len() as int) =~= st.rows);
    } else {
        match step(st, t[0], d, q) {
            Some(m) => {
                assert(m.rows == st.rows || m.rows == emit(st));
                lemma_run_rows_prefix(m, t.drop_first(), d, q);
                match run_from(m, t.drop_first(), d, q) {
                    Some(st2) => {
                        assert(st2.rows.take(st.rows.len() as int) =~= st.rows) by {
                            assert(m.rows.take(st.rows.len() as int) =~= st.rows);
                            assert(forall|k: int|
                                0 <= k < m.rows.len() ==> st2.rows[k] == m.rows[k]) by {
                                assert(st2.rows.take(m.rows.len() as int) == m.rows);
                                assert(forall|k: int|
                                    0 <= k < m.rows.len() ==> st2.rows.take(
                                        m.rows.len() as int,
                                    )[k] == st2.rows[k]);
                            }
                        }
                    },
                    None => {
                    },
                }
            },
            None => {
            },
        }
    }
}

/// Whatever the machine has emitted over a prefix stands, in place,
/// at the front of the whole input's decoding.
pub proof fn lemma_decode_extends(s: Seq<u8>, d: u8, q: u8, p: int, stp: MachineState)
    requires
        0 <= p <= s.len(),
        run_from(init_state(), s.take(p), d, q) == Some(stp),
        spec_decode(s, d, q) is Some,
    ensures
        spec_decode(s, d, q).unwrap().len() >= stp.rows.len(),
        spec_decode(s, d, q).unwrap().take(stp.rows.len() as int) == stp.rows,
{
    assert(s =~= s.take(p) + s.skip(p));
    lemma_run_concat(init_state(), s.take(p), s.skip(p), d, q);
    let stf = run_from(init_state(), s, d, q).unwrap();
    assert(run_from(stp, s.skip(p), d, q) == Some(stf));
    lemma_run_rows_prefix(stp, s.skip(p), d, q);
    let rows = spec_decode(s, d, q).unwrap();
    assert(rows == stf.rows || rows == emit(stf));
    assert(rows.take(stp.rows.len() as int) =~= stp.rows) by {
        assert(stf.rows.take(stp.rows.len() as int) == stp.rows);
        assert(forall|k: int|
            0 <= k < stp.rows.len() ==> stf.rows.take(stp.rows.len() as int)[k] == stf.rows[k]);
        if rows == emit(stf) {
            assert(forall|k: int| 0 <= k < stf.rows.len() ==> rows[k] == stf.rows[k]);
        }
    }
}

proof fn lemma_run_rows_nonempty(st: MachineState, t: Seq<u8>, d: u8, q: u8)
    requires
        forall|i: int| 0 <= i < st.rows.len() ==> #[trigger] st.rows[i].fields.len() >= 1,
    ensures
        run_from(st, t, d, q) matches Some(st2) ==> forall|i: int|
            0 <= i < st2.rows.len() ==> #[trigger] st2.rows[i].fields.len() >= 1,
    decreases t.len(),
{
    if t.len() > 0 {
        match step(st, t[0], d, q) {
            Some(m) => {
                assert(forall|i: int|
                    0 <= i < m.rows.len() ==> #[trigger] m.rows[i].fields.len() >= 1) by {
                    assert(m.rows == st.rows || m.rows == emit(st));
                }
                lemma_run_rows_nonempty(m, t.drop_first(), d, q);
            },
            None => {
            },
        }
    }
}

/// Every decoded record holds at least one field: the machine closes
/// a record only around a pending field.
pub proof fn lemma_decoded_rows_nonempty(s: Seq<u8>, d: u8, q: u8)
    ensures
        spec_decode(s, d, q) matches Some(rows) ==> forall|i: int|
            0 <= i < rows.len() ==> #[trigger] rows[i].fields.len() >= 1,
{
    lemma_run_rows_nonempty(init_state(), s, d, q);
    match run_from(init_state(), s, d, q) {
        Some(stf) => {
            match finalize(stf) {
                Some(rows) => {
                    assert(rows == stf.rows || rows == emit(stf));
                },
                None => {
                },
            }
        },
        None => {
        },
    }
}

/// Once the machine has refused a prefix, it refuses the whole input.
pub proof fn lemma_run_stuck(s: Seq<u8>, i: int, d: u8, q: u8)
    requires
        0 <= i <= s.len(),
        run_from(init_state(), s.take(i), d, q) is None,
    ensures
        run_from(init_state(), s, d, q) is None,
{
    assert(s =~= s.take(i) + s.skip(i));
    lemma_run_concat(init_state(), s.take(i), s.skip(i), d, q);
}

/// Relies on `core::str::from_utf8`: it returns `Ok` exactly when the
/// bytes are valid UTF-8.
#[verifier::external_body]
fn utf8_check(b: &Vec<u8>) -> (r: bool)
    ensures
        r == valid_utf8(b@),
{
    core::str::from_utf8(b.as_slice()).is_ok()
}

/// Whether every field of a row is valid UTF-8.
pub open spec fn row_utf8(r: RowModel) -> bool {
    forall|j: int| 0 <= j < r.fields.len() ==> valid_utf8(#[trigger] r.fields[j])
}

/// One decoded record: fields plus the position it was read from.
#[derive(Debug, PartialEq, Eq)]
pub struct Record {
    /// The field texts, in order.
    pub fields: Vec<Vec<u8>>,
    /// The 1-based line the record began on.
    pub line: u64,
    /// The byte offset of the record's first byte in its source.
    pub byte: u64,
}

impl View for Record {
    type V = RowModel;

    open spec fn view(&self) -> RowModel {
        RowModel { fields: self.fields.deep_view(), line: self.line as nat, byte: self.byte as nat }
    }
}

impl Record {
    /// A record with no fields, at the origin position.
    pub fn empty() -> (r: Record)
        ensures
            r@.fields.len() == 0,
            r@.line == 1,
            r@.byte == 0,
    {
        let r = Record { fields: Vec::new(), line: 1, byte: 0 };
        assert(r.fields.deep_view() =~= Seq::<Seq<u8>>::empty());
        r
    }

    /// Field `i`, or `None` past the record's end.
    pub fn field(&self, i: usize) -> (r: Option<&Vec<u8>>)
        ensures
            i < self@.fields.len() ==> (r matches Some(f) && f@ == self@.fields[i as int]),
            i >= self@.fields.len() ==> r is None,
    {
        if i < self.fields.len() {
            let f = &self.fields[i];
            assert(f@ == self@.fields[i as int]);
            Some(f)
        } else {
            None
        }
    }

    /// How many fields the record holds.
    pub fn len(&self) -> (n: usize)
        ensures
            n == self@.fields.len(),
    {
        self.fields.len()
    }
}

/// Whether every field of `rec` is valid UTF-8.
fn record_utf8(rec: &Record) -> (r: bool)
    ensures
        r == row_utf8(rec@),
{
    let mut j: usize = 0;
    while j < rec.fields.len()
        invariant
            j <= rec.fields.len(),
            rec@.fields.len() == rec.fields@.len(),
            forall|k: int| 0 <= k < j ==> valid_utf8(#[trigger] rec@.fields[k]),
        decreases rec.fields.len() - j,
    {
        assert(rec@.fields[j as int] == rec.fields@[j as int]@);
        if !utf8_check(&rec.fields[j]) {
            assert(!valid_utf8(rec@.fields[j as int]));
            return false;
        }
        j = j + 1;
    }
    true
}

/// A pull decoder over one in-memory source.
pub struct RecordDecoder {
    data: Vec<u8>,
    pos: usize,
    delimiter: u8,
    quote: u8,
    after_cr: bool,
    drained: bool,
    line: u64,
    gstate: Ghost<MachineState>,
}

impl RecordDecoder {
    /// The bytes being decoded.
    pub closed spec fn src(self) -> Seq<u8> {
        self.data@
    }

    /// The delimiter byte.
    pub closed spec fn delim(self) -> u8 {
        self.delimiter
    }

    /// The quote byte; zero disables quoting.
    pub closed spec fn quote_byte(self) -> u8 {
        self.quote
    }

    /// The rows the machine has emitted so far.
    pub closed spec fn processed(self) -> Seq<RowModel> {
        if self.drained {
            emit(self.gstate@)
        } else {
            self.gstate@.rows
        }
    }

    /// How many bytes remain to be consumed.
    pub closed spec fn remaining(self) -> nat {
        (self.data@.len() - self.pos) as nat
    }

    /// The decoder walks the machine: its state is the machine run
    /// over the consumed prefix, standing at a record boundary (or
    /// fully drained with one last record closed off).
    pub closed spec fn wf(self) -> bool {
        &&& self.pos <= self.data@.len()
        &&& self.data@.len() < usize::MAX
        &&& run_from(init_state(), self.data@.take(self.pos as int), self.delimiter, self.quote)
            == Some(self.gstate@)
        &&& self.gstate@.consumed == self.pos
        &&& self.gstate@.line == self.line as nat
        &&& self.gstate@.line <= self.gstate@.consumed + 1
        &&& if self.drained {
            &&& self.pos == self.data@.len()
            &&& in_record(self.gstate@.mode)
            &&& self.gstate@.mode != Mode::InQuote
        } else {
            &&& self.gstate@.mode == (if self.after_cr {
                Mode::AfterCr
            } else {
                Mode::StartRecord
            })
            &&& self.gstate@.acc == Seq::<Seq<u8>>::empty()
            &&& self.gstate@.cur == Seq::<u8>::empty()
            &&& self.gstate@.rec_byte == self.pos as nat
            &&& self.gstate@.rec_line == self.line as nat
        }
    }

    /// A decoder over `data` with delimiter `d` and quote `q`.
    pub fn new(data: Vec<u8>, d: u8, q: u8) -> (r: RecordDecoder)
        requires
            data@.len() < usize::MAX,
        ensures
            r.wf(),
            r.src() == data@,
            r.delim() == d,
            r.quote_byte() == q,
            r.processed() == Seq::<RowModel>::empty(),
            r.remaining() == data@.len(),
    {
        let r = RecordDecoder {
            data,
            pos: 0,
            delimiter: d,
            quote: q,
            after_cr: false,
            drained: false,
            line: 1,
            gstate: Ghost(init_state()),
        };
        proof {
            assert(r.data@.take(0) =~= Seq::<u8>::empty());
        }
        r
    }

    /// Decode every record left in the source.  `Ok` says the whole
    /// source decodes to exactly the processed rows, every field
    /// valid UTF-8; the faults are as in `read_next`.
    pub fn read_all(&mut self) -> (r: Result<Vec<Record>, DecodeFault>)
        requires
            old(self).wf(),
            old(self).processed() == Seq::<RowModel>::empty(),
        ensures
            final(self).wf(),
            final(self).src() == old(self).src(),
            final(self).delim() == old(self).delim(),
            final(self).quote_byte() == old(self).quote_byte(),
            match r {
                Ok(v) => {
                    &&& spec_decode(final(self).src(), final(self).delim(), final(self).quote_byte())
                        == Some(v@.map_values(|rec: Record| rec@))
                    &&& forall|i: int| 0 <= i < v@.len() ==> row_utf8(#[trigger] v@[i]@)
                },
                Err(DecodeFault::Malformed) => spec_decode(
                    final(self).src(),
                    final(self).delim(),
                    final(self).quote_byte(),
                ) is None,
                Err(DecodeFault::Utf8) => {
                    &&& !row_utf8(final(self).processed().last())
                    &&& (spec_decode(final(self).src(), final(self).delim(), final(self).quote_byte())
                        matches Some(rows) ==> exists|k: int|
                        0 <= k < rows.len() && !(row_utf8(#[trigger] rows[k])))
                },
            },
    {
        let mut out: Vec<Record> = Vec::new();
        proof {
            assert(out@.map_values(|rec: Record| rec@) =~= Seq::<RowModel>::empty());
        }
        loop
            invariant
                self.wf(),
                self.src() == old(self).src(),
                self.delim() == old(self).delim(),
                self.quote_byte() == old(self).quote_byte(),
                self.processed() == out@.map_values(|rec: Record| rec@),
                forall|i: int| 0 <= i < out@.len() ==> row_utf8(#[trigger] out@[i]@),
            decreases self.remaining(),
        {
            match self.read_next() {
                Ok(Some(rec)) => {
                    let ghost rm = rec@;
                    out.push(rec);
                    proof {
                        assert(out@.map_values(|rec: Record| rec@) =~= self.processed());
                    }
                },
                Ok(None) => {
                    return Ok(out);
                },
                Err(f) => {
                    return Err(f);
                },
            }
        }
    }

    /// The current 1-based line number, as a spec value.
    pub closed spec fn current_line(self) -> nat {
        self.gstate@.line
    }

    /// The current 1-based line number.
    pub fn line_number(&self) -> (n: u64)
        requires
            self.wf(),
        ensures
            n as nat == self.current_line(),
    {
        self.line
    }

    /// Pull the next record.
    ///
    /// `Ok(Some(r))` appends exactly `r` to the processed rows and all
    /// its fields are valid UTF-8.  `Ok(None)` says the whole source
    /// decodes to exactly the processed rows.  `Err(Malformed)` says
    /// the whole source does not decode at all; `Err(Utf8)` says the
    /// machine's next record carries a field that is not UTF-8.
    pub fn read_next(&mut self) -> (r: Result<Option<Record>, DecodeFault>)
        requires
            old(self).wf(),
        ensures
            final(self).wf(),
            final(self).src() == old(self).src(),
            final(self).delim() == old(self).delim(),
            final(self).quote_byte() == old(self).quote_byte(),
            match r {
                Ok(Some(rec)) => {
                    &&& final(self).processed() == old(self).processed().push(rec@)
                    &&& row_utf8(rec@)
                    &&& final(self).remaining() < old(self).remaining()
                    &&& (spec_decode(final(self).src(), final(self).delim(), final(self).quote_byte())
                        matches Some(rows) ==> rows.len() > old(self).processed().len()
                        && rows[old(self).processed().len() as int] == rec@)
                },
                Ok(None) => {
                    &&& final(self).processed() == old(self).processed()
                    &&& spec_decode(final(self).src(), final(self).delim(), final(self).quote_byte()) == Some(
                        final(self).processed(),
                    )
                    &&& final(self).remaining() == 0
                },
                Err(DecodeFault::Malformed) => spec_decode(
                    final(self).src(),
                    final(self).delim(),
                    final(self).quote_byte(),
                ) is None,
                Err(DecodeFault::Utf8) => {
                    &&& final(self).processed().len() == old(self).processed().len() + 1
                    &&& final(self).processed() == old(self).processed().push(final(self).processed().last())
                    &&& !row_utf8(final(self).processed().last())
                    &&& (spec_decode(final(self).src(), final(self).delim(), final(self).quote_byte())
                        matches Some(rows) ==> rows.len() > old(self).processed().len()
                        && rows[old(self).processed().len() as int]
                        == final(self).processed().last())
                },
            },
    {
        if self.drained {
            let ghost st = self.gstate@;
            proof {
                assert(self.data@.take(self.pos as int) =~= self.data@);
                assert(finalize(st) == Some(emit(st)));
            }
            return Ok(None);
        }
        let d = self.delimiter;
        let q = self.quote;
        let mut fields: Vec<Vec<u8>> = Vec::new();
        let mut cur: Vec<u8> = Vec::new();
        let mut mode: Mode = if self.after_cr {
            Mode::AfterCr
        } else {
            Mode::StartRecord
        };
        let mut i: usize = self.pos;
        let mut line: u64 = self.line;
        let mut rec_line: u64 = self.line;
        let mut rec_byte: usize = self.pos;
        let ghost rows0 = self.gstate@.rows;
        let ghost mut cst = self.gstate@;
        proof {
            assert(fields.deep_view() =~= Seq::<Seq<u8>>::empty());
        }
        while i < self.data.len()
            invariant
                self == old(self),
                self.wf(),
                !self.drained,
                self.pos <= i <= self.data@.len() < usize::MAX,
                d == self.delimiter,
                q == self.quote,
                run_from(init_state(), self.data@.take(i as int), d, q) == Some(cst),
                cst.rows == rows0,
                rows0 == old(self).processed(),
                cst.acc == fields.deep_view(),
                cst.cur == cur@,
                cst.mode == mode,
                cst.line == line as nat,
                cst.consumed == i as nat,
                cst.rec_line == rec_line as nat,
                cst.rec_byte == rec_byte as nat,
                cst.line <= cst.consumed + 1,
                mode != Mode::InQuote || q != 0,
                rec_byte <= i,
                (mode == Mode::StartRecord || mode == Mode::AfterCr) ==> (rec_byte == i
                    && rec_line == line && fields@.len() == 0 && cur@.len() == 0),
            decreases self.data@.len() - i,
        {
            let b = self.data[i];
            let ghost prev = cst;
            proof {
                assert(self.data@.take(i + 1) =~= self.data@.take(i as int).push(self.data@[
                    i as int
                ]));
                lemma_run_snoc(init_state(), self.data@.take(i as int), b, d, q);
            }
            match mode {
                Mode::StartRecord | Mode::AfterCr => {
                    if b == 0x0a {
                        if matches!(mode, Mode::StartRecord) {
                            line = line + 1;
                        }
                        mode = Mode::StartRecord;
                        rec_line = line;
                        rec_byte = i + 1;
                    } else if b == 0x0d {
                        line = line + 1;
                        mode = Mode::AfterCr;
                        rec_line = line;
                        rec_byte = i + 1;
                    } else {
                        rec_line = line;
                        rec_byte = i;
                        if b == d {
                            fields.push(Vec::new());
                            mode = Mode::FieldStart;
                            proof {
                                assert(fields.deep_view() =~~= seq![Seq::<u8>::empty()]);
                            }
                        } else if q != 0 && b == q {
                            mode = Mode::InQuote;
                        } else {
                            cur.push(b);
                            mode = Mode::Unquoted;
                        }
                    }
                },
                Mode::FieldStart | Mode::Unquoted => {
                    if b == 0x0a || b == 0x0d {
                        fields.push(cur);
                        let rec = Record { fields, line: rec_line, byte: rec_byte as u64 };
                        self.pos = i + 1;
                        self.after_cr = b == 0x0d;
                        self.line = line + 1;
                        proof {
                            cst = step(prev, b, d, q).unwrap();
                            self.gstate@ = cst;
                            assert(rec@.fields =~~= prev.acc.push(prev.cur));
                            assert(rec@ =~~= emit(prev).last());
                            assert(self.processed() =~~= rows0.push(rec@));
                            if spec_decode(self.data@, d, q) is Some {
                                lemma_decode_extends(self.data@, d, q, i + 1, cst);
                                assert(spec_decode(self.data@, d, q).unwrap().take(
                                    cst.rows.len() as int,
                                )[cst.rows.len() - 1] == rec@);
                            }
                        }
                        if record_utf8(&rec) {
                            return Ok(Some(rec));
                        } else {
                            return Err(DecodeFault::Utf8);
                        }
                    } else if b == d {
                        fields.push(cur);
                        cur = Vec::new();
                        mode = Mode::FieldStart;
                        proof {
                            assert(fields.deep_view() =~~= prev.acc.push(prev.cur));
                        }
                    } else if matches!(mode, Mode::FieldStart) && q != 0 && b == q {
                        mode = Mode::InQuote;
                    } else {
                        cur.push(b);
                        mode = Mode::Unquoted;
                    }
                },
                Mode::InQuote => {
                    if b == q {
                        mode = Mode::AfterQuote;
                    } else {
                        cur.push(b);
                    }
                },
                Mode::AfterQuote => {
                    if q != 0 && b == q {
                        cur.push(q);
                        mode = Mode::InQuote;
                    } else if b == 0x0a || b == 0x0d {
                        fields.push(cur);
                        let rec = Record { fields, line: rec_line, byte: rec_byte as u64 };
                        self.pos = i + 1;
                        self.after_cr = b == 0x0d;
                        self.line = line + 1;
                        proof {
                            cst = step(prev, b, d, q).unwrap();
                            self.gstate@ = cst;
                            assert(rec@.fields =~~= prev.acc.push(prev.cur));
                            assert(rec@ =~~= emit(prev).last());
                            assert(self.processed() =~~= rows0.push(rec@));
                            if spec_decode(self.data@, d, q) is Some {
                                lemma_decode_extends(self.data@, d, q, i + 1, cst);
                                assert(spec_decode(self.data@, d, q).unwrap().take(
                                    cst.rows.len() as int,
                                )[cst.rows.len() - 1] == rec@);
                            }
                        }
                        if record_utf8(&rec) {
                            return Ok(Some(rec));
                        } else {
                            return Err(DecodeFault::Utf8);
                        }
                    } else if b == d {
                        fields.push(cur);
                        cur = Vec::new();
                        mode = Mode::FieldStart;
                        proof {
                            assert(fields.deep_view() =~~= prev.acc.push(prev.cur));
                        }
                    } else {
                        proof {
                            lemma_run_stuck(self.data@, i + 1, d, q);
                        }
                        return Err(DecodeFault::Malformed);
                    }
                },
            }
            proof {
                cst = step(prev, b, d, q).unwrap();
            }
            i = i + 1;
        }
        // End of input.
        proof {
            assert(self.data@.take(i as int) =~= self.data@);
        }
        match mode {
            Mode::StartRecord | Mode::AfterCr => {
                self.pos = i;
                self.after_cr = matches!(mode, Mode::AfterCr);
                self.line = line;
                proof {
                    self.gstate@ = cst;
                    assert(cst.acc =~= Seq::<Seq<u8>>::empty());
                    assert(cst.cur =~= Seq::<u8>::empty());
                }
                Ok(None)
            },
            Mode::InQuote => {
                proof {
                    assert(finalize(cst) is None);
                }
                Err(DecodeFault::Malformed)
            },
            Mode::FieldStart | Mode::Unquoted | Mode::AfterQuote => {
                fields.push(cur);
                let rec = Record { fields, line: rec_line, byte: rec_byte as u64 };
                self.pos = i;
                self.drained = true;
                self.line = line;
                proof {
                    self.gstate@ = cst;
                    assert(rec@.fields =~~= cst.acc.push(cst.cur));
                    assert(rec@ =~~= emit(cst).last());
                    assert(self.processed() =~~= rows0.push(rec@));
                    assert(spec_decode(self.data@, d, q) == Some(self.processed())) by {
                        assert(self.data@.take(i as int) =~= self.data@);
                    }
                }
                if record_utf8(&rec) {
                    Ok(Some(rec))
                } else {
                    Err(DecodeFault::Utf8)
                }
            },
        }
    }
}

} // verus!
