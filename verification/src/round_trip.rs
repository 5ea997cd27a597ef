//! A specification-level CSV writer and the proof that it round-trips with
//! the scanner: writing any table under the engine's own quoting rules and
//! parsing the result yields the table again, so parsing loses no cell.

use vstd::prelude::*;

use crate::tokenizer::{
    csv_finish, csv_init, csv_rows, csv_run, csv_step, lemma_run_concat, CsvState, Mode, COMMA,
    CR, LF, QUOTE,
};

verus! {

/// A byte the scanner treats specially outside quotes.
pub open spec fn special(b: u8) -> bool {
    b == COMMA || b == LF || b == CR || b == QUOTE
}

/// True when the cell must be quoted: it holds a delimiter, a line break,
/// or a quote.
pub open spec fn needs_quoting(c: Seq<u8>) -> bool {
    exists|i: int| 0 <= i < c.len() && special(#[trigger] c[i])
}

/// The cell's bytes with every quote doubled.
pub open spec fn escape_quotes(c: Seq<u8>) -> Seq<u8>
    decreases c.len(),
{
    if c.len() == 0 {
        Seq::empty()
    } else if c[0] == QUOTE {
        seq![QUOTE, QUOTE] + escape_quotes(c.skip(1))
    } else {
        seq![c[0]] + escape_quotes(c.skip(1))
    }
}

/// One cell as the writer emits it: quoted and escaped when needed, raw
/// otherwise.
pub open spec fn write_cell(c: Seq<u8>) -> Seq<u8> {
    if needs_quoting(c) {
        seq![QUOTE] + escape_quotes(c) + seq![QUOTE]
    } else {
        c
    }
}

/// The fields of one record, comma-separated.
pub open spec fn write_fields(r: Seq<Seq<u8>>) -> Seq<u8>
    decreases r.len(),
{
    if r.len() <= 1 {
        write_cell(r[0])
    } else {
        write_cell(r[0]) + seq![COMMA] + write_fields(r.skip(1))
    }
}

/// One record with its line break.
pub open spec fn write_row(r: Seq<Seq<u8>>) -> Seq<u8> {
    write_fields(r) + seq![LF]
}

/// A whole table under the engine's quoting rules.
pub open spec fn write_table(t: Seq<Seq<Seq<u8>>>) -> Seq<u8>
    decreases t.len(),
{
    if t.len() == 0 {
        Seq::empty()
    } else {
        write_row(t[0]) + write_table(t.skip(1))
    }
}

/// Scanning bytes free of delimiters, breaks and quotes just accumulates
/// them into the open field.
proof fn lemma_scan_plain(st: CsvState, c: Seq<u8>)
    requires
        st.mode is RecordStart || st.mode is FieldStart || st.mode is Unquoted,
        forall|i: int| 0 <= i < c.len() ==> !special(#[trigger] c[i]),
    ensures
        csv_run(st, c) == (CsvState {
            rows: st.rows,
            row: st.row,
            cell: st.cell + c,
            mode: if c.len() == 0 {
                st.mode
            } else {
                Mode::Unquoted
            },
        }),
    decreases c.len(),
{
    if c.len() == 0 {
        assert(st.cell + c =~= st.cell);
        assert(csv_run(st, c) =~= (CsvState {
            rows: st.rows,
            row: st.row,
            cell: st.cell + c,
            mode: st.mode,
        }));
    } else {
        let st2 = csv_step(st, c[0]);
        assert(st2 == (CsvState {
            rows: st.rows,
            row: st.row,
            cell: st.cell.push(c[0]),
            mode: Mode::Unquoted,
        }));
        lemma_scan_plain(st2, c.skip(1));
        assert(st.cell.push(c[0]) + c.skip(1) =~= st.cell + c);
    }
}

/// Scanning the escaped image of a cell inside quotes accumulates exactly
/// the cell's own bytes and stays inside the quotes.
proof fn lemma_scan_escaped(st: CsvState, c: Seq<u8>)
    requires
        st.mode is Quoted,
    ensures
        csv_run(st, escape_quotes(c)) == (CsvState {
            rows: st.rows,
            row: st.row,
            cell: st.cell + c,
            mode: Mode::Quoted,
        }),
    decreases c.len(),
{
    if c.len() == 0 {
        assert(st.cell + c =~= st.cell);
        assert(csv_run(st, escape_quotes(c)) =~= (CsvState {
            rows: st.rows,
            row: st.row,
            cell: st.cell + c,
            mode: st.mode,
        }));
    } else if c[0] == QUOTE {
        reveal_with_fuel(csv_run, 3);
        let e = escape_quotes(c);
        assert(e == seq![QUOTE, QUOTE] + escape_quotes(c.skip(1)));
        assert(e[0] == QUOTE);
        let st2 = csv_step(st, QUOTE);
        assert(st2.mode is QuoteEnd);
        assert(e.skip(1) =~= seq![QUOTE] + escape_quotes(c.skip(1)));
        assert(e.skip(1)[0] == QUOTE);
        let st3 = csv_step(st2, QUOTE);
        assert(st3 == (CsvState {
            rows: st.rows,
            row: st.row,
            cell: st.cell.push(QUOTE),
            mode: Mode::Quoted,
        }));
        assert(e.skip(1).skip(1) =~= escape_quotes(c.skip(1)));
        lemma_scan_escaped(st3, c.skip(1));
        assert(st.cell.push(QUOTE) + c.skip(1) =~= st.cell + c);
    } else {
        let e = escape_quotes(c);
        assert(e[0] == c[0]);
        let st2 = csv_step(st, c[0]);
        assert(st2 == (CsvState {
            rows: st.rows,
            row: st.row,
            cell: st.cell.push(c[0]),
            mode: Mode::Quoted,
        }));
        assert(e.skip(1) =~= escape_quotes(c.skip(1)));
        lemma_scan_escaped(st2, c.skip(1));
        assert(st.cell.push(c[0]) + c.skip(1) =~= st.cell + c);
    }
}

/// Scanning one written cell from the start of a field leaves the scanner
/// holding exactly that cell, in a mode where a delimiter or break will
/// finish the field.
proof fn lemma_scan_cell(st: CsvState, c: Seq<u8>)
    requires
        st.mode is RecordStart || st.mode is FieldStart,
        st.cell.len() == 0,
    ensures
        ({
            let r = csv_run(st, write_cell(c));
            &&& r.rows == st.rows
            &&& r.row == st.row
            &&& r.cell == c
            &&& (r.mode is RecordStart || r.mode is FieldStart || r.mode is Unquoted || r.mode
                is QuoteEnd)
        }),
{
    if needs_quoting(c) {
        reveal_with_fuel(csv_run, 3);
        let w = write_cell(c);
        assert(w == seq![QUOTE] + escape_quotes(c) + seq![QUOTE]);
        assert(w[0] == QUOTE);
        let st2 = csv_step(st, QUOTE);
        assert(st2 == (CsvState { rows: st.rows, row: st.row, cell: st.cell, mode: Mode::Quoted }));
        assert(w.skip(1) =~= escape_quotes(c) + seq![QUOTE]);
        lemma_run_concat(st2, escape_quotes(c), seq![QUOTE]);
        lemma_scan_escaped(st2, c);
        let st3 = csv_run(st2, escape_quotes(c));
        assert(seq![QUOTE].len() == 1);
        assert(seq![QUOTE][0] == QUOTE);
        assert(seq![QUOTE].skip(1) =~= Seq::<u8>::empty());
        let st4 = csv_step(st3, QUOTE);
        assert(csv_run(st3, seq![QUOTE]) == st4);
        assert(st4.mode is QuoteEnd);
        assert(st.cell + c =~= c);
        assert(csv_run(st, w) == st4);
    } else {
        lemma_scan_plain(st, c);
        assert(st.cell + c =~= c);
    }
}

/// Scanning the written fields of a record followed by a line break
/// finishes exactly one more row, holding the record's cells after those
/// already collected.
proof fn lemma_scan_fields(st: CsvState, r: Seq<Seq<u8>>)
    requires
        st.mode is RecordStart || st.mode is FieldStart,
        st.cell.len() == 0,
        r.len() >= 1,
    ensures
        csv_run(st, write_fields(r) + seq![LF]) == (CsvState {
            rows: st.rows.push(st.row + r),
            row: Seq::empty(),
            cell: Seq::empty(),
            mode: Mode::RecordStart,
        }),
    decreases r.len(),
{
    reveal_with_fuel(csv_run, 3);
    lemma_run_concat(st, write_fields(r), seq![LF]);
    if r.len() == 1 {
        lemma_scan_cell(st, r[0]);
        let st2 = csv_run(st, write_fields(r));
        assert(seq![LF][0] == LF);
        assert(seq![LF].skip(1) =~= Seq::<u8>::empty());
        let st3 = csv_step(st2, LF);
        assert(csv_run(st2, seq![LF]) == st3);
        assert(st2.row.push(st2.cell) =~= st.row + r);
    } else {
        let w = write_fields(r);
        assert(w == write_cell(r[0]) + seq![COMMA] + write_fields(r.skip(1)));
        assert(w + seq![LF] =~= write_cell(r[0]) + (seq![COMMA] + (write_fields(r.skip(1))
            + seq![LF])));
        lemma_run_concat(st, write_cell(r[0]), seq![COMMA] + (write_fields(r.skip(1))
            + seq![LF]));
        lemma_scan_cell(st, r[0]);
        let st2 = csv_run(st, write_cell(r[0]));
        assert((seq![COMMA] + (write_fields(r.skip(1)) + seq![LF]))[0] == COMMA);
        assert((seq![COMMA] + (write_fields(r.skip(1)) + seq![LF])).skip(1) =~= write_fields(
            r.skip(1),
        ) + seq![LF]);
        let st3 = csv_step(st2, COMMA);
        assert(st3 == (CsvState {
            rows: st.rows,
            row: st.row.push(r[0]),
            cell: Seq::empty(),
            mode: Mode::FieldStart,
        }));
        lemma_scan_fields(st3, r.skip(1));
        assert(st.row.push(r[0]) + r.skip(1) =~= st.row + r);
    }
}

/// Scanning a whole written table finishes exactly its rows, after those
/// already collected, and ends cleanly at a record boundary.
proof fn lemma_scan_table(st: CsvState, t: Seq<Seq<Seq<u8>>>)
    requires
        st.mode is RecordStart,
        st.cell.len() == 0,
        st.row.len() == 0,
        forall|i: int| 0 <= i < t.len() ==> #[trigger] t[i].len() >= 1,
    ensures
        csv_run(st, write_table(t)) == (CsvState {
            rows: st.rows + t,
            row: Seq::empty(),
            cell: Seq::empty(),
            mode: Mode::RecordStart,
        }),
    decreases t.len(),
{
    if t.len() == 0 {
        assert(st.rows + t =~= st.rows);
        assert(st.row =~= Seq::<Seq<u8>>::empty());
        assert(st.cell =~= Seq::<u8>::empty());
        assert(csv_run(st, write_table(t)) =~= (CsvState {
            rows: st.rows + t,
            row: Seq::empty(),
            cell: Seq::empty(),
            mode: Mode::RecordStart,
        }));
    } else {
        assert(write_table(t) == write_row(t[0]) + write_table(t.skip(1)));
        lemma_run_concat(st, write_row(t[0]), write_table(t.skip(1)));
        lemma_scan_fields(st, t[0]);
        let st2 = csv_run(st, write_row(t[0]));
        assert(st.row + t[0] =~= t[0]);
        assert(st2 == (CsvState {
            rows: st.rows.push(t[0]),
            row: Seq::empty(),
            cell: Seq::empty(),
            mode: Mode::RecordStart,
        }));
        lemma_scan_table(st2, t.skip(1));
        assert(st.rows.push(t[0]) + t.skip(1) =~= st.rows + t);
    }
}

/// Every row the scanner ever finishes holds at least one field.
proof fn lemma_finish_rows_nonempty(st: CsvState, s: Seq<u8>)
    requires
        forall|i: int| 0 <= i < st.rows.len() ==> #[trigger] st.rows[i].len() >= 1,
    ensures
        forall|i: int|
            0 <= i < csv_finish(csv_run(st, s)).len() ==> #[trigger] csv_finish(csv_run(st, s))[i].len()
                >= 1,
    decreases s.len(),
{
    if s.len() == 0 {
    } else {
        lemma_finish_rows_nonempty(csv_step(st, s[0]), s.skip(1));
        assert(csv_run(st, s) == csv_run(csv_step(st, s[0]), s.skip(1)));
    }
}

/// Every row of a parsed table holds at least one field.
pub proof fn lemma_csv_rows_nonempty(s: Seq<u8>)
    ensures
        forall|i: int| 0 <= i < csv_rows(s).len() ==> #[trigger] csv_rows(s)[i].len() >= 1,
{
    lemma_finish_rows_nonempty(csv_init(), s);
}

/// A quoted field decodes to the literal unescaped text: embedded
/// delimiters, line breaks and doubled quotes all come through as the
/// cell's own bytes.
pub proof fn lemma_quoted_cell(c: Seq<u8>)
    ensures
        csv_rows(seq![QUOTE] + escape_quotes(c) + seq![QUOTE]) == seq![seq![c]],
{
    reveal_with_fuel(csv_run, 3);
    let st = csv_init();
    let w = seq![QUOTE] + escape_quotes(c) + seq![QUOTE];
    assert(w[0] == QUOTE);
    let st2 = csv_step(st, QUOTE);
    assert(st2.mode is Quoted);
    assert(w.skip(1) =~= escape_quotes(c) + seq![QUOTE]);
    lemma_run_concat(st2, escape_quotes(c), seq![QUOTE]);
    lemma_scan_escaped(st2, c);
    let st3 = csv_run(st2, escape_quotes(c));
    assert(seq![QUOTE][0] == QUOTE);
    assert(seq![QUOTE].skip(1) =~= Seq::<u8>::empty());
    let st4 = csv_step(st3, QUOTE);
    assert(csv_run(st3, seq![QUOTE]) == st4);
    assert(st4.mode is QuoteEnd);
    assert(st4.cell =~= c);
    assert(csv_run(st, w) == st4);
    assert(csv_finish(st4) =~= seq![seq![c]]);
}

/// Round trip: writing any table of nonempty rows under the engine's
/// quoting rules and parsing the result yields the table again.
pub proof fn lemma_write_parse_round_trip(t: Seq<Seq<Seq<u8>>>)
    requires
        forall|i: int| 0 <= i < t.len() ==> #[trigger] t[i].len() >= 1,
    ensures
        csv_rows(write_table(t)) == t,
{
    lemma_scan_table(csv_init(), t);
    assert(Seq::<Seq<Seq<u8>>>::empty() + t =~= t);
}

/// Round trip from any source text: writing the parse of `x` and parsing
/// it back reproduces every cell of the parse of `x`.
pub proof fn lemma_parse_write_parse(s: Seq<u8>)
    ensures
        csv_rows(write_table(csv_rows(s))) == csv_rows(s),
{
    lemma_csv_rows_nonempty(s);
    lemma_write_parse_round_trip(csv_rows(s));
}

} // verus!
