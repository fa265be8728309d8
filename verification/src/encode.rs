//! Encoding records back into delimited text, and the round-trip law:
//! decoding what was encoded reproduces the fields exactly, including
//! fields holding the delimiter, the quote, or embedded newlines.
//!
//! A field is quoted when it holds the delimiter, the quote byte, or a
//! record terminator, and also when it is the one, empty field of its
//! record (so that the line is not mistaken for an empty one); quotes
//! inside a quoted field are doubled.  Every encoded record ends in a
//! single `\n`.

use vstd::prelude::*;

use crate::decode::{
    emit, in_record, init_state, lemma_run_concat, run_from, spec_decode, step, MachineState, Mode,
    RowModel, rows_fields,
};

verus! {

/// A workable dialect for round-tripping: quoting enabled, and the
/// three structural bytes distinct from the terminators and from each
/// other.
pub open spec fn dialect_ok(d: u8, q: u8) -> bool {
    q != 0 && d != q && d != 0x0a && d != 0x0d && q != 0x0a && q != 0x0d
}

/// Whether an encoded field must be quoted: it holds a structural
/// byte, or it is the sole, empty field of its record.
pub open spec fn field_needs_quote(f: Seq<u8>, d: u8, q: u8, solo: bool) -> bool {
    f.contains(d) || f.contains(q) || f.contains(0x0a) || f.contains(0x0d) || (solo && f.len()
        == 0)
}

/// `f` with every quote byte doubled.
pub open spec fn escape_quotes(f: Seq<u8>, q: u8) -> Seq<u8>
    decreases f.len(),
{
    if f.len() == 0 {
        Seq::empty()
    } else if f[0] == q {
        seq![q, q] + escape_quotes(f.drop_first(), q)
    } else {
        seq![f[0]] + escape_quotes(f.drop_first(), q)
    }
}

/// One encoded field; `solo` says it is its record's only field.
pub open spec fn spec_encode_field(f: Seq<u8>, d: u8, q: u8, solo: bool) -> Seq<u8> {
    if field_needs_quote(f, d, q, solo) {
        seq![q] + escape_quotes(f, q) + seq![q]
    } else {
        f
    }
}

/// The second and later fields of a record, each preceded by the
/// delimiter.
pub open spec fn spec_encode_tail(fs: Seq<Seq<u8>>, d: u8, q: u8) -> Seq<u8>
    decreases fs.len(),
{
    if fs.len() == 0 {
        Seq::empty()
    } else {
        seq![d] + spec_encode_field(fs[0], d, q, false) + spec_encode_tail(fs.drop_first(), d, q)
    }
}

/// One encoded record, terminated by `\n`.
pub open spec fn spec_encode_record(fields: Seq<Seq<u8>>, d: u8, q: u8) -> Seq<u8>
    recommends
        fields.len() >= 1,
{
    spec_encode_field(fields[0], d, q, fields.len() == 1) + spec_encode_tail(
        fields.drop_first(),
        d,
        q,
    ) + seq![0x0a]
}

/// A whole table encoded record by record.
pub open spec fn spec_encode_rows(rows: Seq<Seq<Seq<u8>>>, d: u8, q: u8) -> Seq<u8>
    decreases rows.len(),
{
    if rows.len() == 0 {
        Seq::empty()
    } else {
        spec_encode_record(rows[0], d, q) + spec_encode_rows(rows.drop_first(), d, q)
    }
}

/// Every record has at least one field.
pub open spec fn wf_rows(rows: Seq<Seq<Seq<u8>>>) -> bool {
    forall|i: int| 0 <= i < rows.len() ==> #[trigger] rows[i].len() >= 1
}

/// Whether `v` holds the byte `b`.
fn contains_byte(v: &Vec<u8>, b: u8) -> (r: bool)
    ensures
        r == v@.contains(b),
{
    let mut i: usize = 0;
    while i < v.len()
        invariant
            i <= v@.len(),
            forall|k: int| 0 <= k < i ==> v@[k] != b,
        decreases v.len() - i,
    {
        if v[i] == b {
            return true;
        }
        i = i + 1;
    }
    assert(!v@.contains(b));
    false
}

proof fn lemma_escape_snoc(s: Seq<u8>, b: u8, q: u8)
    ensures
        escape_quotes(s.push(b), q) == escape_quotes(s, q) + (if b == q {
            seq![q, q]
        } else {
            seq![b]
        }),
    decreases s.len(),
{
    let tail: Seq<u8> = if b == q {
        seq![q, q]
    } else {
        seq![b]
    };
    if s.len() == 0 {
        reveal_with_fuel(escape_quotes, 3);
        assert(s.push(b)[0] == b);
        assert(s.push(b).drop_first() =~= Seq::<u8>::empty());
        assert(escape_quotes(s.push(b), q) =~= escape_quotes(s, q) + tail);
    } else {
        assert(s.push(b)[0] == s[0]);
        assert(s.push(b).drop_first() =~= s.drop_first().push(b));
        lemma_escape_snoc(s.drop_first(), b, q);
        if s[0] == q {
            assert(seq![q, q] + (escape_quotes(s.drop_first(), q) + tail) =~= (seq![q, q]
                + escape_quotes(s.drop_first(), q)) + tail);
        } else {
            assert(seq![s[0]] + (escape_quotes(s.drop_first(), q) + tail) =~= (seq![s[0]]
                + escape_quotes(s.drop_first(), q)) + tail);
        }
    }
}

/// One field encoded, quoting and escaping as needed.
pub fn encode_field(f: &Vec<u8>, d: u8, q: u8, solo: bool) -> (r: Vec<u8>)
    ensures
        r@ == spec_encode_field(f@, d, q, solo),
{
    let needs = contains_byte(f, d) || contains_byte(f, q) || contains_byte(f, 0x0a)
        || contains_byte(f, 0x0d) || (solo && f.len() == 0);
    if !needs {
        let mut r: Vec<u8> = Vec::new();
        let mut i: usize = 0;
        while i < f.len()
            invariant
                i <= f@.len(),
                r@ =~= f@.take(i as int),
            decreases f.len() - i,
        {
            r.push(f[i]);
            assert(r@ =~= f@.take(i + 1 as int));
            i = i + 1;
        }
        assert(f@.take(f@.len() as int) =~= f@);
        r
    } else {
        let mut r: Vec<u8> = Vec::new();
        r.push(q);
        let mut i: usize = 0;
        while i < f.len()
            invariant
                i <= f@.len(),
                r@ =~= seq![q] + escape_quotes(f@.take(i as int), q),
            decreases f.len() - i,
        {
            let b = f[i];
            if b == q {
                r.push(q);
                r.push(q);
            } else {
                r.push(b);
            }
            proof {
                lemma_escape_snoc(f@.take(i as int), b, q);
                assert(f@.take(i + 1 as int) =~= f@.take(i as int).push(b));
                if b == q {
                    assert(r@ =~= seq![q] + escape_quotes(f@.take(i + 1 as int), q));
                } else {
                    assert(r@ =~= seq![q] + escape_quotes(f@.take(i + 1 as int), q));
                }
            }
            i = i + 1;
        }
        r.push(q);
        proof {
            assert(f@.take(f@.len() as int) =~= f@);
            assert(r@ =~= seq![q] + escape_quotes(f@, q) + seq![q]);
        }
        r
    }
}

proof fn lemma_tail_snoc(fs: Seq<Seq<u8>>, x: Seq<u8>, d: u8, q: u8)
    ensures
        spec_encode_tail(fs.push(x), d, q) == spec_encode_tail(fs, d, q) + seq![d]
            + spec_encode_field(x, d, q, false),
    decreases fs.len(),
{
    let piece = seq![d] + spec_encode_field(x, d, q, false);
    if fs.len() == 0 {
        reveal_with_fuel(spec_encode_tail, 3);
        assert(fs.push(x)[0] == x);
        assert(fs.push(x).drop_first() =~= Seq::<Seq<u8>>::empty());
        assert(spec_encode_tail(fs.push(x), d, q) =~= spec_encode_tail(fs, d, q) + seq![d]
            + spec_encode_field(x, d, q, false));
    } else {
        assert(fs.push(x)[0] == fs[0]);
        assert(fs.push(x).drop_first() =~= fs.drop_first().push(x));
        lemma_tail_snoc(fs.drop_first(), x, d, q);
        assert((seq![d] + spec_encode_field(fs[0], d, q, false)) + (spec_encode_tail(
            fs.drop_first(),
            d,
            q,
        ) + piece) =~= ((seq![d] + spec_encode_field(fs[0], d, q, false)) + spec_encode_tail(
            fs.drop_first(),
            d,
            q,
        )) + piece);
        assert(spec_encode_tail(fs.push(x), d, q) =~= spec_encode_tail(fs, d, q) + piece);
    }
}

/// One record encoded, terminated by `\n`.
pub fn encode_record(fields: &Vec<Vec<u8>>, d: u8, q: u8) -> (r: Vec<u8>)
    requires
        fields@.len() >= 1,
    ensures
        r@ == spec_encode_record(fields.deep_view(), d, q),
{
    let ghost fsv = fields.deep_view();
    let solo = fields.len() == 1;
    let mut r = encode_field(&fields[0], d, q, solo);
    assert(fields[0]@ == fsv[0]);
    let ghost head = spec_encode_field(fsv[0], d, q, fsv.len() == 1);
    assert(r@ == head);
    let mut i: usize = 1;
    while i < fields.len()
        invariant
            1 <= i <= fields@.len(),
            fsv == fields.deep_view(),
            head == spec_encode_field(fsv[0], d, q, fsv.len() == 1),
            r@ =~= head + spec_encode_tail(fsv.subrange(1, i as int), d, q),
        decreases fields.len() - i,
    {
        let mut piece = encode_field(&fields[i], d, q, false);
        r.push(d);
        let mut j: usize = 0;
        let ghost rp = r@;
        while j < piece.len()
            invariant
                j <= piece@.len(),
                r@ =~= rp + piece@.take(j as int),
            decreases piece.len() - j,
        {
            r.push(piece[j]);
            assert(r@ =~= rp + piece@.take(j + 1 as int));
            j = j + 1;
        }
        proof {
            assert(piece@.take(piece@.len() as int) =~= piece@);
            assert(fields[i as int]@ == fsv[i as int]);
            lemma_tail_snoc(fsv.subrange(1, i as int), fsv[i as int], d, q);
            assert(fsv.subrange(1, i + 1 as int) =~= fsv.subrange(1, i as int).push(
                fsv[i as int],
            ));
            assert(r@ =~= head + spec_encode_tail(fsv.subrange(1, i + 1 as int), d, q));
        }
        i = i + 1;
    }
    r.push(0x0a);
    proof {
        assert(fsv.subrange(1, fsv.len() as int) =~= fsv.drop_first());
        assert(r@ =~= head + spec_encode_tail(fsv.drop_first(), d, q) + seq![0x0au8]);
    }
    r
}

// ---------------------------------------------------------------
// The round trip, record by record, over the decoding machine.
// ---------------------------------------------------------------

/// The field projection of the machine's emitted rows.
pub open spec fn rows_f(st: MachineState) -> Seq<Seq<Seq<u8>>> {
    rows_fields(st.rows)
}

/// At a record boundary with nothing pending.
pub open spec fn boundary(st: MachineState) -> bool {
    st.mode == Mode::StartRecord && st.acc == Seq::<Seq<u8>>::empty() && st.cur == Seq::<
        u8,
    >::empty()
}

/// At the start of a field: either mid-record, or at a record
/// boundary before the record's first byte.
pub open spec fn at_field_start(st: MachineState) -> bool {
    (st.mode == Mode::FieldStart && st.cur == Seq::<u8>::empty()) || boundary(st)
}

proof fn lemma_run_one(st: MachineState, b: u8, d: u8, q: u8)
    ensures
        run_from(st, seq![b], d, q) == (match step(st, b, d, q) {
            Some(m) => Some(m),
            None => None::<MachineState>,
        }),
{
    assert(seq![b][0] == b);
    assert(seq![b].drop_first() =~= Seq::<u8>::empty());
    match step(st, b, d, q) {
        Some(m) => {
            assert(run_from(m, seq![b].drop_first(), d, q) == Some(m));
        },
        None => {
        },
    }
}

proof fn lemma_escape_run(st: MachineState, f: Seq<u8>, d: u8, q: u8)
    requires
        dialect_ok(d, q),
        st.mode == Mode::InQuote,
    ensures
        ({
            let r = run_from(st, escape_quotes(f, q), d, q);
            &&& r is Some
            &&& r.unwrap().mode == Mode::InQuote
            &&& r.unwrap().cur == st.cur + f
            &&& r.unwrap().acc == st.acc
            &&& r.unwrap().rows == st.rows
        }),
    decreases f.len(),
{
    if f.len() == 0 {
        assert(escape_quotes(f, q) =~= Seq::<u8>::empty());
        assert(st.cur + f =~= st.cur);
    } else if f[0] == q {
        let e = escape_quotes(f, q);
        let rest = escape_quotes(f.drop_first(), q);
        let st1 = step(st, q, d, q).unwrap();
        assert(st1.mode == Mode::AfterQuote);
        let st2 = step(st1, q, d, q).unwrap();
        assert(st2.mode == Mode::InQuote && st2.cur == st.cur.push(q));
        lemma_escape_run(st2, f.drop_first(), d, q);
        assert(e =~= seq![q] + (seq![q] + rest));
        lemma_run_concat(st, seq![q], seq![q] + rest, d, q);
        lemma_run_one(st, q, d, q);
        lemma_run_concat(st1, seq![q], rest, d, q);
        lemma_run_one(st1, q, d, q);
        assert(st.cur.push(q) + f.drop_first() =~= st.cur + f);
    } else {
        let e = escape_quotes(f, q);
        let rest = escape_quotes(f.drop_first(), q);
        let st1 = step(st, f[0], d, q).unwrap();
        assert(st1.mode == Mode::InQuote && st1.cur == st.cur.push(f[0]));
        lemma_escape_run(st1, f.drop_first(), d, q);
        assert(e =~= seq![f[0]] + rest);
        lemma_run_concat(st, seq![f[0]], rest, d, q);
        lemma_run_one(st, f[0], d, q);
        assert(st.cur.push(f[0]) + f.drop_first() =~= st.cur + f);
    }
}

proof fn lemma_literal_run(st: MachineState, f: Seq<u8>, d: u8, q: u8)
    requires
        dialect_ok(d, q),
        st.mode == Mode::Unquoted,
        !f.contains(d),
        !f.contains(q),
        !f.contains(0x0a),
        !f.contains(0x0d),
    ensures
        ({
            let r = run_from(st, f, d, q);
            &&& r is Some
            &&& r.unwrap().mode == Mode::Unquoted
            &&& r.unwrap().cur == st.cur + f
            &&& r.unwrap().acc == st.acc
            &&& r.unwrap().rows == st.rows
        }),
    decreases f.len(),
{
    if f.len() == 0 {
        assert(st.cur + f =~= st.cur);
    } else {
        assert(f.contains(f[0]));
        let st1 = step(st, f[0], d, q).unwrap();
        assert(st1.mode == Mode::Unquoted && st1.cur == st.cur.push(f[0]));
        assert(forall|b: u8| f.drop_first().contains(b) ==> f.contains(b)) by {
            assert(forall|j: int|
                0 <= j < f.drop_first().len() ==> f.drop_first()[j] == f[j + 1]);
        }
        lemma_literal_run(st1, f.drop_first(), d, q);
        assert(f =~= seq![f[0]] + f.drop_first());
        lemma_run_concat(st, seq![f[0]], f.drop_first(), d, q);
        lemma_run_one(st, f[0], d, q);
        assert(st.cur.push(f[0]) + f.drop_first() =~= st.cur + f);
    }
}

proof fn lemma_field_run(st: MachineState, f: Seq<u8>, d: u8, q: u8, solo: bool)
    requires
        dialect_ok(d, q),
        at_field_start(st),
    ensures
        ({
            let r = run_from(st, spec_encode_field(f, d, q, solo), d, q);
            &&& r is Some
            &&& r.unwrap().cur == f
            &&& r.unwrap().acc == st.acc
            &&& r.unwrap().rows == st.rows
            &&& (r.unwrap().mode == Mode::Unquoted || r.unwrap().mode == Mode::AfterQuote
                || r.unwrap() == st)
            &&& (r.unwrap() == st ==> f.len() == 0)
            &&& (field_needs_quote(f, d, q, solo) ==> r.unwrap().mode == Mode::AfterQuote)
        }),
{
    let e = spec_encode_field(f, d, q, solo);
    if field_needs_quote(f, d, q, solo) {
        assert(e == seq![q] + escape_quotes(f, q) + seq![q]);
        assert(e[0] == q);
        let st1 = step(st, q, d, q).unwrap();
        assert(st1.mode == Mode::InQuote && st1.cur == Seq::<u8>::empty() && st1.acc == st.acc
            && st1.rows == st.rows);
        lemma_escape_run(st1, f, d, q);
        let st2 = run_from(st1, escape_quotes(f, q), d, q).unwrap();
        assert(st2.cur =~= f);
        let st3 = step(st2, q, d, q).unwrap();
        assert(st3.mode == Mode::AfterQuote && st3.cur == st2.cur);
        assert(e =~= seq![q] + (escape_quotes(f, q) + seq![q]));
        lemma_run_concat(st, seq![q], escape_quotes(f, q) + seq![q], d, q);
        lemma_run_one(st, q, d, q);
        lemma_run_concat(st1, escape_quotes(f, q), seq![q], d, q);
        lemma_run_one(st2, q, d, q);
        assert(run_from(st, e, d, q) == Some(st3));
    } else if f.len() == 0 {
        assert(e =~= Seq::<u8>::empty());
        assert(run_from(st, e, d, q) == Some(st));
        assert(st.cur == f);
    } else {
        assert(e == f);
        assert(f.contains(f[0]));
        let st1 = step(st, f[0], d, q).unwrap();
        assert(st1.mode == Mode::Unquoted && st1.cur == seq![f[0]] && st1.acc == st.acc
            && st1.rows == st.rows);
        assert(forall|b: u8| f.drop_first().contains(b) ==> f.contains(b)) by {
            assert(forall|j: int|
                0 <= j < f.drop_first().len() ==> f.drop_first()[j] == f[j + 1]);
        }
        lemma_literal_run(st1, f.drop_first(), d, q);
        let st2 = run_from(st1, f.drop_first(), d, q).unwrap();
        assert(f =~= seq![f[0]] + f.drop_first());
        lemma_run_concat(st, seq![f[0]], f.drop_first(), d, q);
        lemma_run_one(st, f[0], d, q);
        assert(st2.cur =~= f) by {
            assert(seq![f[0]] + f.drop_first() =~= f);
        }
        assert(run_from(st, e, d, q) == Some(st2));
    }
}

proof fn lemma_tail_run(st: MachineState, fs: Seq<Seq<u8>>, d: u8, q: u8)
    requires
        dialect_ok(d, q),
        st.mode == Mode::FieldStart || st.mode == Mode::Unquoted || st.mode == Mode::AfterQuote
            || boundary(st),
    ensures
        ({
            let r = run_from(st, spec_encode_tail(fs, d, q), d, q);
            &&& r is Some
            &&& r.unwrap().acc.push(r.unwrap().cur) == st.acc.push(st.cur) + fs
            &&& r.unwrap().rows == st.rows
            &&& (if fs.len() == 0 {
                r.unwrap() == st
            } else {
                r.unwrap().mode == Mode::FieldStart || r.unwrap().mode == Mode::Unquoted
                    || r.unwrap().mode == Mode::AfterQuote
            })
        }),
    decreases fs.len(),
{
    if fs.len() == 0 {
        assert(spec_encode_tail(fs, d, q) =~= Seq::<u8>::empty());
        assert(st.acc.push(st.cur) + fs =~= st.acc.push(st.cur));
    } else {
        let e = spec_encode_tail(fs, d, q);
        let st1 = step(st, d, d, q).unwrap();
        assert(st1.mode == Mode::FieldStart && st1.acc == st.acc.push(st.cur) && st1.cur == Seq::<
            u8,
        >::empty() && st1.rows == st.rows);
        lemma_field_run(st1, fs[0], d, q, false);
        let st2 = run_from(st1, spec_encode_field(fs[0], d, q, false), d, q).unwrap();
        lemma_tail_run(st2, fs.drop_first(), d, q);
        let st3 = run_from(st2, spec_encode_tail(fs.drop_first(), d, q), d, q).unwrap();
        assert(st3.acc.push(st3.cur) =~= st.acc.push(st.cur) + fs) by {
            assert(st3.acc.push(st3.cur) == st2.acc.push(st2.cur) + fs.drop_first());
            assert(st2.acc.push(st2.cur) == st.acc.push(st.cur).push(fs[0]));
            assert(st.acc.push(st.cur).push(fs[0]) + fs.drop_first() =~= st.acc.push(st.cur)
                + fs);
        }
        assert(e =~= seq![d] + (spec_encode_field(fs[0], d, q, false) + spec_encode_tail(
            fs.drop_first(),
            d,
            q,
        )));
        lemma_run_concat(st, seq![d], spec_encode_field(fs[0], d, q, false) + spec_encode_tail(
            fs.drop_first(),
            d,
            q,
        ), d, q);
        lemma_run_one(st, d, d, q);
        lemma_run_concat(st1, spec_encode_field(fs[0], d, q, false), spec_encode_tail(
            fs.drop_first(),
            d,
            q,
        ), d, q);
        assert(run_from(st, e, d, q) == Some(st3));
    }
}

proof fn lemma_record_run(st: MachineState, fields: Seq<Seq<u8>>, d: u8, q: u8)
    requires
        dialect_ok(d, q),
        boundary(st),
        fields.len() >= 1,
    ensures
        ({
            let r = run_from(st, spec_encode_record(fields, d, q), d, q);
            &&& r is Some
            &&& boundary(r.unwrap())
            &&& rows_f(r.unwrap()) == rows_f(st).push(fields)
        }),
{
    let e0 = spec_encode_field(fields[0], d, q, fields.len() == 1);
    let et = spec_encode_tail(fields.drop_first(), d, q);
    let e = spec_encode_record(fields, d, q);
    lemma_field_run(st, fields[0], d, q, fields.len() == 1);
    let st2 = run_from(st, e0, d, q).unwrap();
    assert(st2.mode == Mode::Unquoted || st2.mode == Mode::AfterQuote || boundary(st2));
    lemma_tail_run(st2, fields.drop_first(), d, q);
    let st4 = run_from(st2, et, d, q).unwrap();
    assert(st4.acc.push(st4.cur) =~= fields) by {
        assert(st4.acc.push(st4.cur) == st2.acc.push(st2.cur) + fields.drop_first());
        assert(st2.acc == st.acc && st2.cur == fields[0]);
        assert(Seq::<Seq<u8>>::empty().push(fields[0]) + fields.drop_first() =~= fields);
    }
    // At the terminator the machine cannot be at a bare boundary: a
    // sole field is nonempty or quoted, so the record was entered.
    assert(st4.mode == Mode::FieldStart || st4.mode == Mode::Unquoted || st4.mode
        == Mode::AfterQuote) by {
        if fields.drop_first().len() == 0 {
            assert(st4 == st2);
            if st2 == st {
                // The single field encoded to nothing; but a sole
                // empty field is always quoted, a contradiction.
                assert(fields[0].len() == 0);
                assert(field_needs_quote(fields[0], d, q, true));
                assert(st2.mode == Mode::AfterQuote);
            }
        }
    }
    let st5 = step(st4, 0x0a, d, q).unwrap();
    assert(boundary(st5));
    assert(st5.rows == emit(st4));
    assert(rows_f(st5) =~= rows_f(st).push(fields)) by {
        assert(st4.rows == st.rows);
        assert(emit(st4).len() == st.rows.len() + 1);
        assert(forall|i: int|
            0 <= i < st.rows.len() ==> emit(st4)[i] == st.rows[i]);
        assert(emit(st4).last().fields == st4.acc.push(st4.cur));
    }
    assert(e =~= e0 + (et + seq![0x0au8]));
    lemma_run_concat(st, e0, et + seq![0x0au8], d, q);
    lemma_run_concat(st2, et, seq![0x0au8], d, q);
    lemma_run_one(st4, 0x0a, d, q);
    assert(run_from(st, e, d, q) == Some(st5));
}

proof fn lemma_rows_run(st: MachineState, rows: Seq<Seq<Seq<u8>>>, d: u8, q: u8)
    requires
        dialect_ok(d, q),
        boundary(st),
        wf_rows(rows),
    ensures
        ({
            let r = run_from(st, spec_encode_rows(rows, d, q), d, q);
            &&& r is Some
            &&& boundary(r.unwrap())
            &&& rows_f(r.unwrap()) == rows_f(st) + rows
        }),
    decreases rows.len(),
{
    if rows.len() == 0 {
        assert(spec_encode_rows(rows, d, q) =~= Seq::<u8>::empty());
        assert(rows_f(st) + rows =~= rows_f(st));
    } else {
        assert(rows[0].len() >= 1);
        lemma_record_run(st, rows[0], d, q);
        let st1 = run_from(st, spec_encode_record(rows[0], d, q), d, q).unwrap();
        assert(wf_rows(rows.drop_first())) by {
            assert(forall|i: int|
                0 <= i < rows.drop_first().len() ==> rows.drop_first()[i] == rows[i + 1]);
        }
        lemma_rows_run(st1, rows.drop_first(), d, q);
        let st2 = run_from(st1, spec_encode_rows(rows.drop_first(), d, q), d, q).unwrap();
        assert(rows_f(st2) =~= rows_f(st) + rows) by {
            assert(rows_f(st2) == rows_f(st1) + rows.drop_first());
            assert(rows_f(st1) == rows_f(st).push(rows[0]));
            assert(rows_f(st).push(rows[0]) + rows.drop_first() =~= rows_f(st) + rows);
        }
        lemma_run_concat(st, spec_encode_record(rows[0], d, q), spec_encode_rows(
            rows.drop_first(),
            d,
            q,
        ), d, q);
    }
}

/// The round-trip law: under any workable dialect, decoding an
/// encoded table reproduces the fields of every record exactly —
/// fields holding the delimiter, the quote or embedded newlines
/// included.
pub proof fn lemma_decode_encode_round_trip(rows: Seq<Seq<Seq<u8>>>, d: u8, q: u8)
    requires
        dialect_ok(d, q),
        wf_rows(rows),
    ensures
        spec_decode(spec_encode_rows(rows, d, q), d, q) is Some,
        rows_fields(spec_decode(spec_encode_rows(rows, d, q), d, q).unwrap()) == rows,
{
    lemma_rows_run(init_state(), rows, d, q);
    let stn = run_from(init_state(), spec_encode_rows(rows, d, q), d, q).unwrap();
    assert(rows_f(stn) =~= Seq::<Seq<Seq<u8>>>::empty() + rows) by {
        assert(rows_fields(init_state().rows) =~= Seq::<Seq<Seq<u8>>>::empty());
    }
    assert(Seq::<Seq<Seq<u8>>>::empty() + rows =~= rows);
}

} // verus!
