//! Byte-level CSV field tokenizer and its specification.
//!
//! The grammar is RFC-4180-like: fields are separated by commas, records by
//! `\n` or `\r\n` (a lone `\r` also terminates a record), and a field that
//! starts with `"` is quoted.  Inside a quoted field a doubled quote `""`
//! stands for one literal quote character, and delimiters and line breaks are
//! ordinary bytes.  A quote in the middle of an unquoted field is literal.
//!
//! The specification is a byte-at-a-time state machine over the whole input:
//! [`csv_step`] consumes one byte, [`csv_run`] folds it over a sequence, and
//! [`csv_finish`] flushes the record in progress when the input ends, so that
//! a final row without a trailing line break is still emitted.  [`csv_rows`]
//! is the resulting table of raw (unescaped, undecoded) field bytes.
//!
//! The executable [`Reader`] walks the same machine incrementally: each
//! [`Reader::next_field`] call consumes bytes until one field ends, the input
//! runs out, or the caller's bounded buffer fills.

use vstd::prelude::*;

verus! {

/// Comma, the field delimiter.
pub const COMMA: u8 = 44;

/// Line feed, a record terminator.
pub const LF: u8 = 10;

/// Carriage return; `\r` and `\r\n` both terminate a record.
pub const CR: u8 = 13;

/// Double quote, the quoting and escape character.
pub const QUOTE: u8 = 34;

/// Capacity of the bounded output buffer the tokenizer writes into.
pub const BUF_CAP: usize = 1024;

/// Position of the scanner inside the byte stream.
#[derive(Clone, Copy, PartialEq, Eq, Structural, Debug)]
pub enum Mode {
    /// At the start of a record; no field of it has begun.
    RecordStart,
    /// At the start of a field after a delimiter; the record owes a field.
    FieldStart,
    /// Inside an unquoted field.
    Unquoted,
    /// Inside a quoted field.
    Quoted,
    /// Just after a quote inside a quoted field; the quote may close the
    /// field or begin a doubled (escaped) quote.
    QuoteEnd,
    /// Just after a `\r` that ended a record; a directly following `\n`
    /// belongs to the same terminator.
    CrSeen,
    /// The end of the input was reached and the final field was flushed.
    Done,
}

/// Complete state of the specification scanner: the finished rows, the
/// fields of the record in progress, the bytes of the field in progress, and
/// the scanner mode.
#[verifier::ext_equal]
pub ghost struct CsvState {
    pub rows: Seq<Seq<Seq<u8>>>,
    pub row: Seq<Seq<u8>>,
    pub cell: Seq<u8>,
    pub mode: Mode,
}

/// The scanner state before any byte is consumed.
pub open spec fn csv_init() -> CsvState {
    CsvState {
        rows: Seq::empty(),
        row: Seq::empty(),
        cell: Seq::empty(),
        mode: Mode::RecordStart,
    }
}

/// One step taken at the start of a field (from `RecordStart`, `FieldStart`,
/// or `CrSeen` once its optional `\n` has been ruled out).
pub open spec fn field_start_step(st: CsvState, b: u8) -> CsvState {
    if b == QUOTE {
        CsvState { rows: st.rows, row: st.row, cell: st.cell, mode: Mode::Quoted }
    } else if b == COMMA {
        CsvState {
            rows: st.rows,
            row: st.row.push(st.cell),
            cell: Seq::empty(),
            mode: Mode::FieldStart,
        }
    } else if b == LF {
        CsvState {
            rows: st.rows.push(st.row.push(st.cell)),
            row: Seq::empty(),
            cell: Seq::empty(),
            mode: Mode::RecordStart,
        }
    } else if b == CR {
        CsvState {
            rows: st.rows.push(st.row.push(st.cell)),
            row: Seq::empty(),
            cell: Seq::empty(),
            mode: Mode::CrSeen,
        }
    } else {
        CsvState { rows: st.rows, row: st.row, cell: st.cell.push(b), mode: Mode::Unquoted }
    }
}

/// One step taken inside an unquoted field, or after the closing quote of a
/// quoted field once an escaped quote has been ruled out.
pub open spec fn unquoted_step(st: CsvState, b: u8) -> CsvState {
    if b == COMMA {
        CsvState {
            rows: st.rows,
            row: st.row.push(st.cell),
            cell: Seq::empty(),
            mode: Mode::FieldStart,
        }
    } else if b == LF {
        CsvState {
            rows: st.rows.push(st.row.push(st.cell)),
            row: Seq::empty(),
            cell: Seq::empty(),
            mode: Mode::RecordStart,
        }
    } else if b == CR {
        CsvState {
            rows: st.rows.push(st.row.push(st.cell)),
            row: Seq::empty(),
            cell: Seq::empty(),
            mode: Mode::CrSeen,
        }
    } else {
        CsvState { rows: st.rows, row: st.row, cell: st.cell.push(b), mode: Mode::Unquoted }
    }
}

/// One byte of the specification scanner.
pub open spec fn csv_step(st: CsvState, b: u8) -> CsvState {
    match st.mode {
        Mode::RecordStart => field_start_step(st, b),
        Mode::FieldStart => field_start_step(st, b),
        Mode::CrSeen => if b == LF {
            CsvState { rows: st.rows, row: st.row, cell: st.cell, mode: Mode::RecordStart }
        } else {
            field_start_step(st, b)
        },
        Mode::Unquoted => unquoted_step(st, b),
        Mode::Quoted => if b == QUOTE {
            CsvState { rows: st.rows, row: st.row, cell: st.cell, mode: Mode::QuoteEnd }
        } else {
            CsvState { rows: st.rows, row: st.row, cell: st.cell.push(b), mode: Mode::Quoted }
        },
        Mode::QuoteEnd => if b == QUOTE {
            CsvState { rows: st.rows, row: st.row, cell: st.cell.push(b), mode: Mode::Quoted }
        } else {
            unquoted_step(st, b)
        },
        Mode::Done => st,
    }
}

/// The scanner folded over a whole byte sequence.
pub open spec fn csv_run(st: CsvState, s: Seq<u8>) -> CsvState
    decreases s.len(),
{
    if s.len() == 0 {
        st
    } else {
        csv_run(csv_step(st, s[0]), s.skip(1))
    }
}

/// Rows seen when the input ends in state `st`: a record in progress is
/// flushed as a final row, so an input without a trailing line break still
/// yields its last row; after a terminator nothing is pending and no empty
/// row is added.
pub open spec fn csv_finish(st: CsvState) -> Seq<Seq<Seq<u8>>> {
    match st.mode {
        Mode::RecordStart => st.rows,
        Mode::CrSeen => st.rows,
        Mode::Done => st.rows,
        _ => st.rows.push(st.row.push(st.cell)),
    }
}

/// The table of raw field bytes that a byte sequence denotes.
pub open spec fn csv_rows(s: Seq<u8>) -> Seq<Seq<Seq<u8>>> {
    csv_finish(csv_run(csv_init(), s))
}

/// Number of rows the record in progress will still add when the input ends.
pub open spec fn pending(st: CsvState) -> int {
    match st.mode {
        Mode::RecordStart => 0,
        Mode::CrSeen => 0,
        Mode::Done => 0,
        _ => 1,
    }
}

/// `b` holds every row of `a`, at the same index, and possibly more.
pub open spec fn rows_extend(b: Seq<Seq<Seq<u8>>>, a: Seq<Seq<Seq<u8>>>) -> bool {
    a.len() <= b.len() && forall|i: int| 0 <= i < a.len() ==> b[i] == a[i]
}

/// Running the scanner over `s.push(b)` is running it over `s` and stepping
/// once more.
pub proof fn lemma_run_snoc(st: CsvState, s: Seq<u8>, b: u8)
    ensures
        csv_run(st, s.push(b)) == csv_step(csv_run(st, s), b),
    decreases s.len(),
{
    if s.len() == 0 {
        assert(s.push(b)[0] == b);
        assert(s.push(b).skip(1) =~= Seq::<u8>::empty());
        assert(csv_run(st, s.push(b)) == csv_run(csv_step(st, b), s.push(b).skip(1)));
        assert(csv_run(csv_step(st, b), s.push(b).skip(1)) == csv_step(st, b));
        assert(csv_run(st, s) == st);
    } else {
        assert(s.push(b)[0] == s[0]);
        assert(s.push(b).skip(1) =~= s.skip(1).push(b));
        lemma_run_snoc(csv_step(st, s[0]), s.skip(1), b);
        assert(csv_run(st, s.push(b)) == csv_run(csv_step(st, s[0]), s.push(b).skip(1)));
        assert(csv_run(st, s) == csv_run(csv_step(st, s[0]), s.skip(1)));
    }
}

/// Running the scanner over a concatenation is running it over the parts in
/// order.
pub proof fn lemma_run_concat(st: CsvState, s1: Seq<u8>, s2: Seq<u8>)
    ensures
        csv_run(st, s1 + s2) == csv_run(csv_run(st, s1), s2),
    decreases s1.len(),
{
    if s1.len() == 0 {
        assert(s1 + s2 =~= s2);
    } else {
        assert((s1 + s2)[0] == s1[0]);
        assert((s1 + s2).skip(1) =~= s1.skip(1) + s2);
        lemma_run_concat(csv_step(st, s1[0]), s1.skip(1), s2);
    }
}

/// Finished rows only grow: whatever bytes are still consumed, the rows
/// already finished stay in place.
pub proof fn lemma_run_rows_extend(st: CsvState, s: Seq<u8>)
    ensures
        rows_extend(csv_run(st, s).rows, st.rows),
    decreases s.len(),
{
    if s.len() > 0 {
        lemma_run_rows_extend(csv_step(st, s[0]), s.skip(1));
    }
}

/// Each finished or pending row costs at least one input byte, so the row
/// count is bounded by the bytes consumed.
pub proof fn lemma_run_rows_bound(st: CsvState, s: Seq<u8>)
    ensures
        csv_run(st, s).rows.len() + pending(csv_run(st, s)) <= st.rows.len() + pending(st)
            + s.len(),
    decreases s.len(),
{
    if s.len() > 0 {
        lemma_run_rows_bound(csv_step(st, s[0]), s.skip(1));
    }
}

/// From the middle of a record, the finished table has a row at the current
/// index and that row starts with the fields already collected.
pub proof fn lemma_run_open_row(st: CsvState, s: Seq<u8>)
    requires
        st.mode is FieldStart || st.mode is Unquoted || st.mode is Quoted
            || st.mode is QuoteEnd,
    ensures
        csv_finish(csv_run(st, s)).len() > st.rows.len(),
        csv_finish(csv_run(st, s))[st.rows.len() as int].len() >= st.row.len(),
        forall|j: int|
            0 <= j < st.row.len() ==> #[trigger] csv_finish(csv_run(st, s))[st.rows.len() as int][j]
                == st.row[j],
    decreases s.len(),
{
    if s.len() == 0 {
        assert(csv_run(st, s) == st);
        assert(csv_finish(st) == st.rows.push(st.row.push(st.cell)));
        assert(csv_finish(st)[st.rows.len() as int] == st.row.push(st.cell));
        assert(forall|j: int|
            0 <= j < st.row.len() ==> #[trigger] csv_finish(csv_run(st, s))[st.rows.len() as int][j]
                == st.row[j]);
    } else {
        let st2 = csv_step(st, s[0]);
        let k = st.rows.len() as int;
        if st2.mode is FieldStart || st2.mode is Unquoted || st2.mode is Quoted
            || st2.mode is QuoteEnd {
            lemma_run_open_row(st2, s.skip(1));
            assert(csv_run(st, s) == csv_run(st2, s.skip(1)));
            assert(st2.rows == st.rows);
            assert(st2.row.len() >= st.row.len());
            assert(forall|j: int|
                0 <= j < st.row.len() ==> #[trigger] st2.row[j] == st.row[j]);
            assert(forall|j: int|
                0 <= j < st.row.len() ==> #[trigger] csv_finish(csv_run(st2, s.skip(1)))[st2.rows.len() as int][j]
                    == st.row[j]);
            assert(forall|j: int|
                0 <= j < st.row.len() ==> #[trigger] csv_finish(csv_run(st, s))[st.rows.len() as int][j]
                    == st.row[j]);
        } else {
            // the byte ended the record: the row is finished and fixed
            lemma_run_rows_extend(st2, s.skip(1));
            let run2 = csv_run(st2, s.skip(1));
            assert(csv_run(st, s) == run2);
            assert(st2.rows == st.rows.push(st.row.push(st.cell)));
            assert(run2.rows.len() >= st2.rows.len());
            assert(run2.rows[k] == st2.rows[k]);
            assert(st2.rows[k] == st.row.push(st.cell));
            assert(csv_finish(run2).len() >= run2.rows.len());
            assert(forall|i: int|
                0 <= i < run2.rows.len() ==> #[trigger] csv_finish(run2)[i] == run2.rows[i]);
            assert(csv_finish(run2)[k] == st.row.push(st.cell));
            assert(csv_finish(run2)[k].len() >= st.row.len());
            assert(forall|j: int|
                0 <= j < st.row.len() ==> #[trigger] csv_finish(run2)[k][j] == st.row[j]);
            assert(forall|j: int|
                0 <= j < st.row.len() ==> #[trigger] csv_finish(csv_run(st, s))[st.rows.len() as int][j]
                    == st.row[j]);
        }
    }
}

/// Empty input denotes an empty table: no rows at all, rather than one
/// empty row.
pub proof fn lemma_empty_input()
    ensures
        csv_rows(Seq::empty()) == Seq::<Seq<Seq<u8>>>::empty(),
{
}

/// An input that ends in the middle of a record yields the same table as
/// the same input with a closing line break: the final row is emitted
/// either way.  The hypothesis on the scanner mode says that the input
/// really does end mid-record, with no quoted field left open.
pub proof fn lemma_no_trailing_break(s: Seq<u8>)
    requires
        csv_run(csv_init(), s).mode is FieldStart || csv_run(csv_init(), s).mode is Unquoted
            || csv_run(csv_init(), s).mode is QuoteEnd,
    ensures
        csv_rows(s.push(LF)) == csv_rows(s),
{
    lemma_run_snoc(csv_init(), s, LF);
}

/// Field-level outcome of one tokenizer call.
pub enum FieldOutcome {
    /// The input is exhausted with no record in progress.  Terminal.
    InputExhausted,
    /// The end of the stream was already reported.  Terminal.
    End,
    /// The output buffer filled before the field ended; the caller drains it
    /// and calls again.
    OutputFull,
    /// The buffer holds the final bytes of the current field; `record_end`
    /// says whether the field also ended its record.
    FieldComplete { record_end: bool },
}

/// Incremental tokenizer.  Only the scanner mode survives between calls; the
/// caller owns the input, the bounded output buffer, and the accumulated
/// field bytes, and passes the specification state as a ghost argument.
pub struct Reader {
    pub mode: Mode,
}

impl Reader {
    /// A tokenizer at the start of the stream.
    pub fn new() -> (r: Reader)
        ensures
            r.mode == Mode::RecordStart,
    {
        Reader { mode: Mode::RecordStart }
    }

    /// Consumes bytes of `input` from `pos` until one field ends, the input
    /// runs out, or `out` holds `BUF_CAP` bytes.  `st` is the specification
    /// state that the consumed prefix reached, with `st.cell` standing for
    /// the field bytes the caller has already drained.  Returns the outcome
    /// and the new position; the contract relates both to running the
    /// specification scanner over the consumed bytes.
    pub fn next_field(
        &mut self,
        input: &[u8],
        pos: usize,
        out: &mut Vec<u8>,
        st: Ghost<CsvState>,
    ) -> (r: (FieldOutcome, usize))
        requires
            pos <= input@.len(),
            old(out)@.len() == 0,
            st@.mode == old(self).mode,
            (st@.mode is RecordStart || st@.mode is CrSeen) ==> st@.cell.len() == 0,
            st@.mode is Done ==> pos == input@.len(),
        ensures
            pos <= r.1 <= input@.len(),
            ({
                let consumed = input@.subrange(pos as int, r.1 as int);
                match r.0 {
                    FieldOutcome::InputExhausted => {
                        &&& r.1 == input@.len()
                        &&& final(out)@.len() == 0
                        &&& (final(self).mode is RecordStart || final(self).mode is CrSeen)
                        &&& csv_run(st@, consumed) == (CsvState {
                            rows: st@.rows,
                            row: st@.row,
                            cell: st@.cell,
                            mode: final(self).mode,
                        })
                    },
                    FieldOutcome::End => {
                        &&& old(self).mode is Done
                        &&& final(self).mode is Done
                        &&& r.1 == pos
                        &&& final(out)@.len() == 0
                    },
                    FieldOutcome::OutputFull => {
                        &&& final(out)@.len() == BUF_CAP
                        &&& !(final(self).mode is Done) && !(final(self).mode is RecordStart) && !(final(self).mode
                            is CrSeen)
                        &&& csv_run(st@, consumed) == (CsvState {
                            rows: st@.rows,
                            row: st@.row,
                            cell: st@.cell + final(out)@,
                            mode: final(self).mode,
                        })
                    },
                    FieldOutcome::FieldComplete { record_end } => {
                        if final(self).mode is Done {
                            &&& record_end
                            &&& r.1 == input@.len()
                            &&& ({
                                let fin = csv_run(st@, consumed);
                                &&& fin.rows == st@.rows
                                &&& fin.row == st@.row
                                &&& fin.cell == st@.cell + final(out)@
                                &&& !(fin.mode is RecordStart) && !(fin.mode is CrSeen) && !(
                                fin.mode is Done)
                                &&& csv_finish(fin) == st@.rows.push(
                                    st@.row.push(st@.cell + final(out)@),
                                )
                            })
                        } else {
                            &&& (record_end ==> (final(self).mode is RecordStart || final(self).mode
                                is CrSeen))
                            &&& (!record_end ==> final(self).mode is FieldStart)
                            &&& csv_run(st@, consumed) == (CsvState {
                                rows: if record_end {
                                    st@.rows.push(st@.row.push(st@.cell + final(out)@))
                                } else {
                                    st@.rows
                                },
                                row: if record_end {
                                    Seq::empty()
                                } else {
                                    st@.row.push(st@.cell + final(out)@)
                                },
                                cell: Seq::empty(),
                                mode: final(self).mode,
                            })
                        }
                    },
                }
            }),
    {
        if let Mode::Done = self.mode {
            return (FieldOutcome::End, pos);
        }
        let mut i: usize = pos;
        let mut m: Mode = self.mode;
        loop
            invariant
                pos <= i <= input@.len(),
                !(m is Done),
                out@.len() < BUF_CAP,
                (st@.mode is RecordStart || st@.mode is CrSeen) ==> st@.cell.len() == 0,
                (m is RecordStart || m is CrSeen) ==> out@.len() == 0 && st@.cell.len() == 0,
                csv_run(st@, input@.subrange(pos as int, i as int)) == (CsvState {
                    rows: st@.rows,
                    row: st@.row,
                    cell: st@.cell + out@,
                    mode: m,
                }),
            decreases input@.len() - i,
        {
            if i == input.len() {
                match m {
                    Mode::RecordStart | Mode::CrSeen => {
                        proof {
                            assert(st@.cell + out@ =~= st@.cell);
                        }
                        self.mode = m;
                        return (FieldOutcome::InputExhausted, i);
                    },
                    _ => {
                        self.mode = Mode::Done;
                        return (FieldOutcome::FieldComplete { record_end: true }, i);
                    },
                }
            }
            let b = input[i];
            proof {
                assert(input@.subrange(pos as int, (i + 1) as int) =~= input@.subrange(
                    pos as int,
                    i as int,
                ).push(input@[i as int]));
                lemma_run_snoc(st@, input@.subrange(pos as int, i as int), input@[i as int]);
            }
            match m {
                Mode::CrSeen if b == LF => {
                    m = Mode::RecordStart;
                    i = i + 1;
                },
                Mode::RecordStart | Mode::FieldStart | Mode::CrSeen => {
                    if b == QUOTE {
                        m = Mode::Quoted;
                        i = i + 1;
                    } else if b == COMMA {
                        self.mode = Mode::FieldStart;
                        return (FieldOutcome::FieldComplete { record_end: false }, i + 1);
                    } else if b == LF {
                        self.mode = Mode::RecordStart;
                        return (FieldOutcome::FieldComplete { record_end: true }, i + 1);
                    } else if b == CR {
                        self.mode = Mode::CrSeen;
                        return (FieldOutcome::FieldComplete { record_end: true }, i + 1);
                    } else {
                        out.push(b);
                        m = Mode::Unquoted;
                        i = i + 1;
                        proof {
                            assert(st@.cell + out@ =~= (st@.cell + out@.drop_last()).push(b));
                        }
                        if out.len() == BUF_CAP {
                            self.mode = m;
                            return (FieldOutcome::OutputFull, i);
                        }
                    }
                },
                Mode::Unquoted => {
                    if b == COMMA {
                        self.mode = Mode::FieldStart;
                        return (FieldOutcome::FieldComplete { record_end: false }, i + 1);
                    } else if b == LF {
                        self.mode = Mode::RecordStart;
                        return (FieldOutcome::FieldComplete { record_end: true }, i + 1);
                    } else if b == CR {
                        self.mode = Mode::CrSeen;
                        return (FieldOutcome::FieldComplete { record_end: true }, i + 1);
                    } else {
                        out.push(b);
                        i = i + 1;
                        proof {
                            assert(st@.cell + out@ =~= (st@.cell + out@.drop_last()).push(b));
                        }
                        if out.len() == BUF_CAP {
                            self.mode = m;
                            return (FieldOutcome::OutputFull, i);
                        }
                    }
                },
                Mode::Quoted => {
                    if b == QUOTE {
                        m = Mode::QuoteEnd;
                        i = i + 1;
                    } else {
                        out.push(b);
                        i = i + 1;
                        proof {
                            assert(st@.cell + out@ =~= (st@.cell + out@.drop_last()).push(b));
                        }
                        if out.len() == BUF_CAP {
                            self.mode = m;
                            return (FieldOutcome::OutputFull, i);
                        }
                    }
                },
                Mode::QuoteEnd => {
                    if b == QUOTE {
                        out.push(b);
                        m = Mode::Quoted;
                        i = i + 1;
                        proof {
                            assert(st@.cell + out@ =~= (st@.cell + out@.drop_last()).push(b));
                        }
                        if out.len() == BUF_CAP {
                            self.mode = m;
                            return (FieldOutcome::OutputFull, i);
                        }
                    } else if b == COMMA {
                        self.mode = Mode::FieldStart;
                        return (FieldOutcome::FieldComplete { record_end: false }, i + 1);
                    } else if b == LF {
                        self.mode = Mode::RecordStart;
                        return (FieldOutcome::FieldComplete { record_end: true }, i + 1);
                    } else if b == CR {
                        self.mode = Mode::CrSeen;
                        return (FieldOutcome::FieldComplete { record_end: true }, i + 1);
                    } else {
                        out.push(b);
                        m = Mode::Unquoted;
                        i = i + 1;
                        proof {
                            assert(st@.cell + out@ =~= (st@.cell + out@.drop_last()).push(b));
                        }
                        if out.len() == BUF_CAP {
                            self.mode = m;
                            return (FieldOutcome::OutputFull, i);
                        }
                    }
                },
                Mode::Done => {
                    // excluded by the loop invariant
                    return vstd::pervasive::unreached();
                },
            }
        }
    }
}

} // verus!
