//! Windowing CSV extractor.
//!
//! [`Csv::parse`] drives the tokenizer over a byte buffer, decodes each
//! field as UTF-8, and keeps exactly the rows and columns that the caller's
//! window selects, stopping the scan as soon as the row window is satisfied.

use vstd::prelude::*;
use vstd::utf8::{decode_utf8, valid_utf8};

use crate::tokenizer::{
    csv_finish, csv_init, csv_rows, csv_run, lemma_run_concat, lemma_run_open_row,
    lemma_run_rows_bound, lemma_run_rows_extend, rows_extend, CsvState, FieldOutcome, Mode,
    Reader,
};

verus! {

/// `i` clamped into `[0, len]`.
pub open spec fn clip(i: int, len: int) -> int {
    if i < 0 {
        0
    } else if i > len {
        len
    } else {
        i
    }
}

/// The window `[start, start + count)` of `s`, clamped to the available
/// range; an absent `count` means "to the end".
pub open spec fn slice_window<A>(s: Seq<A>, start: int, count: Option<int>) -> Seq<A> {
    let lo = clip(start, s.len() as int);
    let hi = match count {
        Option::Some(c) => clip(start + c, s.len() as int),
        Option::None => s.len() as int,
    };
    if lo <= hi {
        s.subrange(lo, hi)
    } else {
        s.subrange(lo, lo)
    }
}

/// The row window applied to a table, and the column window to each row
/// that passed.
pub open spec fn table_window(
    rows: Seq<Seq<Seq<u8>>>,
    start_row: int,
    row_count: Option<int>,
    start_col: int,
    col_count: Option<int>,
) -> Seq<Seq<Seq<u8>>> {
    slice_window(rows, start_row, row_count).map_values(
        |row: Seq<Seq<u8>>| slice_window(row, start_col, col_count),
    )
}


/// Each cell of a raw row decoded from UTF-8.
pub open spec fn decoded_row(row: Seq<Seq<u8>>) -> Seq<Seq<char>> {
    row.map_values(|cell: Seq<u8>| decode_utf8(cell))
}

/// Each cell of a raw table decoded from UTF-8.
pub open spec fn decode_table(t: Seq<Seq<Seq<u8>>>) -> Seq<Seq<Seq<char>>> {
    t.map_values(|row: Seq<Seq<u8>>| decoded_row(row))
}

/// An option argument as a mathematical option.
pub open spec fn opt_int(o: Option<usize>) -> Option<int> {
    match o {
        Option::Some(c) => Option::Some(c as int),
        Option::None => Option::None,
    }
}

/// Number of rows the extractor reads before it stops: all of them, or —
/// when a row count is given — every row up to and including the first one
/// whose index reaches `start_row + row_count`.
pub open spec fn scanned_row_count(total: int, start_row: int, row_count: Option<int>) -> int {
    match row_count {
        Option::None => total,
        Option::Some(rc) => clip(start_row + rc + 1, total),
    }
}

/// Every field of the row is valid UTF-8.
pub open spec fn row_ok(row: Seq<Seq<u8>>) -> bool {
    forall|j: int| 0 <= j < row.len() ==> valid_utf8(row[j])
}

/// Every field of every row the extractor reads decodes as UTF-8; this is
/// exactly when [`Csv::parse`] succeeds.
pub open spec fn scanned_ok(s: Seq<u8>, start_row: int, row_count: Option<int>) -> bool {
    forall|i: int|
        0 <= i < scanned_row_count(csv_rows(s).len() as int, start_row, row_count)
            ==> row_ok(#[trigger] csv_rows(s)[i])
}


/// Whether the row at index `k` falls inside the row window.
pub open spec fn row_included(k: int, start_row: int, row_count: Option<int>) -> bool {
    start_row <= k && (match row_count {
        Option::Some(c) => k < start_row + c,
        Option::None => true,
    })
}

/// Appending a row to the table extends its window by exactly that row's
/// column window when the row is included, and not at all otherwise.
pub proof fn lemma_table_window_push(
    rows: Seq<Seq<Seq<u8>>>,
    r: Seq<Seq<u8>>,
    start_row: int,
    row_count: Option<int>,
    start_col: int,
    col_count: Option<int>,
)
    requires
        start_row >= 0,
        row_count matches Option::Some(c) ==> c >= 0,
    ensures
        table_window(rows.push(r), start_row, row_count, start_col, col_count) == (if row_included(
            rows.len() as int,
            start_row,
            row_count,
        ) {
            table_window(rows, start_row, row_count, start_col, col_count).push(
                slice_window(r, start_col, col_count),
            )
        } else {
            table_window(rows, start_row, row_count, start_col, col_count)
        }),
{
    let n = rows.len() as int;
    let wn = slice_window(rows.push(r), start_row, row_count);
    let wo = slice_window(rows, start_row, row_count);
    if row_included(n, start_row, row_count) {
        assert(wn =~= wo.push(r));
        assert(wn.map_values(|row: Seq<Seq<u8>>| slice_window(row, start_col, col_count))
            =~= wo.map_values(|row: Seq<Seq<u8>>| slice_window(row, start_col, col_count)).push(
            slice_window(r, start_col, col_count),
        ));
    } else {
        assert(wn =~= wo);
    }
}

/// Once a prefix of the table already covers the whole row window, scanning
/// further rows does not change the windowed table.
pub proof fn lemma_table_window_extend(
    a: Seq<Seq<Seq<u8>>>,
    b: Seq<Seq<Seq<u8>>>,
    start_row: int,
    c: int,
    start_col: int,
    col_count: Option<int>,
)
    requires
        rows_extend(b, a),
        start_row >= 0,
        c >= 0,
        a.len() >= start_row + c,
    ensures
        table_window(b, start_row, Option::Some(c), start_col, col_count) == table_window(
            a,
            start_row,
            Option::Some(c),
            start_col,
            col_count,
        ),
{
    assert(slice_window(b, start_row, Option::Some(c)) =~= slice_window(
        a,
        start_row,
        Option::Some(c),
    ));
}

/// Decoding a row commutes with the column window.
pub proof fn lemma_decode_slice_window(row: Seq<Seq<u8>>, start: int, count: Option<int>)
    ensures
        slice_window(decoded_row(row), start, count) == decoded_row(
            slice_window(row, start, count),
        ),
{
    assert(slice_window(decoded_row(row), start, count) =~= decoded_row(
        slice_window(row, start, count),
    ));
}

/// The windowed table holds `row_count` rows when that many are available
/// past `start_row`, and every available one otherwise: its length is
/// `min(row_count, max(0, len - start_row))`, or `max(0, len - start_row)`
/// with no row count.
pub proof fn lemma_table_row_count(
    rows: Seq<Seq<Seq<u8>>>,
    start_row: int,
    row_count: Option<int>,
    start_col: int,
    col_count: Option<int>,
)
    requires
        start_row >= 0,
        row_count matches Option::Some(c) ==> c >= 0,
    ensures
        ({
            let avail = if rows.len() >= start_row {
                rows.len() - start_row
            } else {
                0
            };
            table_window(rows, start_row, row_count, start_col, col_count).len() == (match row_count {
                Option::Some(c) => if c <= avail {
                    c
                } else {
                    avail
                },
                Option::None => avail,
            })
        }),
{
}

/// Rows and cells keep their source order: the `i`-th kept row is the
/// column window of the `start_row + i`-th source row, and its `j`-th cell
/// is that row's `start_col + j`-th field.
pub proof fn lemma_table_window_order(
    rows: Seq<Seq<Seq<u8>>>,
    start_row: int,
    row_count: Option<int>,
    start_col: int,
    col_count: Option<int>,
    i: int,
    j: int,
)
    requires
        start_row >= 0,
        start_col >= 0,
        row_count matches Option::Some(c) ==> c >= 0,
        col_count matches Option::Some(c) ==> c >= 0,
        0 <= i < table_window(rows, start_row, row_count, start_col, col_count).len(),
        0 <= j < table_window(rows, start_row, row_count, start_col, col_count)[i].len(),
    ensures
        table_window(rows, start_row, row_count, start_col, col_count)[i] == slice_window(
            rows[start_row + i],
            start_col,
            col_count,
        ),
        table_window(rows, start_row, row_count, start_col, col_count)[i][j] == rows[start_row
            + i][start_col + j],
{
    assert(slice_window(rows, start_row, row_count)[i] == rows[start_row + i]);
}

/// With no window set, every row and every cell comes through unchanged.
pub proof fn lemma_table_window_identity(rows: Seq<Seq<Seq<u8>>>)
    ensures
        table_window(rows, 0, Option::None, 0, Option::None) == rows,
{
    assert(table_window(rows, 0, Option::None, 0, Option::None) =~~= rows);
}

/// A row with a field that is not valid UTF-8 is not a well-decoded row.
proof fn lemma_row_not_ok(row: Seq<Seq<u8>>, j: int)
    requires
        0 <= j < row.len(),
        !valid_utf8(row[j]),
    ensures
        !row_ok(row),
{
    assert(!valid_utf8(row[j]));
}

/// Failure of [`Csv::parse`]: some field the scan reached is not valid
/// UTF-8.
#[derive(Clone, Copy, PartialEq, Eq, Structural, Debug)]
pub struct DecodeError;

/// Relies on `str::from_utf8`: conversion succeeds exactly on valid UTF-8,
/// and yields the characters that the bytes encode.
#[verifier::external_body]
fn utf8_to_string(bytes: &[u8]) -> (r: Option<String>)
    ensures
        r is Some <==> valid_utf8(bytes@),
        r matches Some(d) ==> d@ == decode_utf8(bytes@),
{
    match core::str::from_utf8(bytes) {
        Ok(d) => Some(d.to_string()),
        Err(_) => None,
    }
}

/// A CSV parser with optional row and column windowing.
pub struct Csv;

impl Csv {
    /// Parses CSV bytes into a table of UTF-8 cells, keeping only the rows
    /// in `[starting_row, starting_row + rows)` and, of each kept row, only
    /// the cells in `[starting_col, starting_col + cols)`; absent window
    /// arguments default to the whole input, and windows past the end of the
    /// data are clamped rather than rejected.  The scan stops as soon as the
    /// row window is complete.  The call fails exactly when a field it
    /// reached is not valid UTF-8.
    pub fn parse(
        bytes: &[u8],
        starting_col: Option<usize>,
        starting_row: Option<usize>,
        cols: Option<usize>,
        rows: Option<usize>,
    ) -> (r: Result<Vec<Vec<String>>, DecodeError>)
        ensures
            ({
                let sr = (match starting_row {
                    Option::Some(v) => v,
                    Option::None => 0,
                }) as int;
                let sc = (match starting_col {
                    Option::Some(v) => v,
                    Option::None => 0,
                }) as int;
                match r {
                    Result::Ok(table) => {
                        &&& scanned_ok(bytes@, sr, opt_int(rows))
                        &&& table.deep_view() == decode_table(
                            table_window(csv_rows(bytes@), sr, opt_int(rows), sc, opt_int(cols)),
                        )
                    },
                    Result::Err(_) => !scanned_ok(bytes@, sr, opt_int(rows)),
                }
            }),
    {
        let start_col = match starting_col {
            Option::Some(v) => v,
            Option::None => 0,
        };
        let start_row = match starting_row {
            Option::Some(v) => v,
            Option::None => 0,
        };
        let ghost s = bytes@;
        let ghost sr = start_row as int;
        let ghost sc = start_col as int;
        let ghost rc = opt_int(rows);
        let ghost cc = opt_int(cols);

        let mut rdr = Reader::new();
        let mut row_idx: usize = 0;
        let mut pos: usize = 0;
        let mut out: Vec<u8> = Vec::new();

        let mut table: Vec<Vec<String>> = Vec::new();
        let mut row: Vec<String> = Vec::new();
        let mut cell: Vec<u8> = Vec::new();
        let ghost mut gst = csv_init();

        proof {
            assert(s.subrange(0, 0) =~= Seq::<u8>::empty());
            assert(table.deep_view() =~= decode_table(table_window(gst.rows, sr, rc, sc, cc)));
        }

        loop
            invariant
                pos <= s.len(),
                bytes@ == s,
                sr == start_row as int,
                sc == start_col as int,
                sr == (match starting_row {
                    Option::Some(v) => v as int,
                    Option::None => 0int,
                }),
                sc == (match starting_col {
                    Option::Some(v) => v as int,
                    Option::None => 0int,
                }),
                rc == opt_int(rows),
                cc == opt_int(cols),
                out@.len() == 0,
                cell@ == gst.cell,
                gst.mode == rdr.mode,
                (rdr.mode is RecordStart || rdr.mode is CrSeen) ==> gst.cell.len() == 0,
                !(rdr.mode is Done) ==> gst == csv_run(csv_init(), s.subrange(0, pos as int)),
                rdr.mode is Done ==> pos == s.len() && gst.rows == csv_rows(s) && gst.row.len()
                    == 0 && gst.cell.len() == 0,
                row@.len() == gst.row.len(),
                forall|j: int|
                    0 <= j < gst.row.len() ==> valid_utf8(#[trigger] gst.row[j]) && row@[j]@
                        == decode_utf8(gst.row[j]),
                forall|i: int| 0 <= i < gst.rows.len() ==> row_ok(#[trigger] gst.rows[i]),
                row_idx == gst.rows.len(),
                rc matches Option::Some(c) ==> row_idx <= sr + c,
                table.deep_view() == decode_table(table_window(gst.rows, sr, rc, sc, cc)),
            decreases s.len() - pos, (if rdr.mode is Done {
                0int
            } else {
                1int
            }),
        {
            let (outcome, npos) = rdr.next_field(bytes, pos, &mut out, Ghost(gst));
            let ghost consumed = s.subrange(pos as int, npos as int);
            proof {
                if !(gst.mode is Done) {
                    lemma_run_concat(csv_init(), s.subrange(0, pos as int), consumed);
                    assert(s.subrange(0, pos as int) + consumed =~= s.subrange(0, npos as int));
                }
            }
            match outcome {
                FieldOutcome::InputExhausted => {
                    proof {
                        // the whole input was consumed with nothing pending
                        assert(csv_run(csv_init(), s.subrange(0, s.len() as int)) == csv_run(
                            gst,
                            consumed,
                        ));
                        assert(s.subrange(0, s.len() as int) =~= s);
                        assert(csv_rows(s) == gst.rows);
                        assert(scanned_row_count(csv_rows(s).len() as int, sr, rc) <= csv_rows(
                            s,
                        ).len() as int);
                    }
                    return Result::Ok(table);
                },
                FieldOutcome::End => {
                    proof {
                        assert(scanned_ok(s, sr, rc));
                        assert(table.deep_view() == decode_table(
                            table_window(csv_rows(s), sr, rc, sc, cc),
                        ));
                    }
                    return Result::Ok(table);
                },
                FieldOutcome::OutputFull => {
                    proof {
                        if npos == pos {
                            assert(consumed =~= Seq::<u8>::empty());
                            assert(csv_run(gst, consumed) == gst);
                            assert(false);
                        }
                    }
                    cell.append(&mut out);
                    proof {
                        gst = csv_run(gst, consumed);
                    }
                    pos = npos;
                },
                FieldOutcome::FieldComplete { record_end } => {
                    let ghost outv = out@;
                    cell.append(&mut out);
                    let ghost pre = gst;
                    let ghost fin = csv_run(pre, consumed);
                    let ghost newrow = pre.row.push(pre.cell + outv);
                    proof {
                        assert(cell@ == pre.cell + outv);
                        if rdr.mode is Done {
                            gst = CsvState {
                                rows: csv_finish(fin),
                                row: Seq::empty(),
                                cell: Seq::empty(),
                                mode: Mode::Done,
                            };
                            // the run over the whole input finished here
                            assert(csv_run(csv_init(), s.subrange(0, s.len() as int)) == fin);
                            assert(s.subrange(0, s.len() as int) =~= s);
                            assert(csv_rows(s) == csv_finish(fin));
                            assert(gst.rows == pre.rows.push(newrow));
                        } else {
                            gst = fin;
                            if npos == pos {
                                assert(consumed =~= Seq::<u8>::empty());
                                assert(csv_run(pre, consumed) == pre);
                                assert(false);
                            }
                        }
                    }
                    pos = npos;
                    let decoded_cell = match utf8_to_string(cell.as_slice()) {
                        Option::Some(d) => d,
                        Option::None => {
                            proof {
                                let total = csv_rows(s).len() as int;
                                let k = pre.rows.len() as int;
                                if rdr.mode is Done {
                                    // the flushed row holds the bad field
                                    assert(csv_rows(s)[k] == newrow);
                                    assert(csv_rows(s)[k][newrow.len() - 1] == pre.cell + outv);
                                    assert(!valid_utf8(csv_rows(s)[k][newrow.len() - 1]));
                                    lemma_row_not_ok(csv_rows(s)[k], newrow.len() - 1);
                                    assert(k < total);
                                } else if record_end {
                                    // the finished row holds the bad field
                                    lemma_run_rows_extend(gst, s.subrange(npos as int, s.len() as int));
                                    lemma_run_concat(
                                        csv_init(),
                                        s.subrange(0, npos as int),
                                        s.subrange(npos as int, s.len() as int),
                                    );
                                    assert(s.subrange(0, npos as int) + s.subrange(
                                        npos as int,
                                        s.len() as int,
                                    ) =~= s);
                                    let run_all = csv_run(gst, s.subrange(npos as int, s.len() as int));
                                    assert(csv_rows(s) == csv_finish(run_all));
                                    assert(rows_extend(run_all.rows, gst.rows));
                                    assert(gst.rows[k] == newrow);
                                    assert(run_all.rows[k] == newrow);
                                    assert(csv_rows(s)[k] == newrow);
                                    assert(csv_rows(s)[k][newrow.len() - 1] == pre.cell + outv);
                                    assert(!valid_utf8(csv_rows(s)[k][newrow.len() - 1]));
                                    lemma_row_not_ok(csv_rows(s)[k], newrow.len() - 1);
                                    assert(k < total);
                                } else {
                                    // the record is still open; its row keeps the bad field
                                    lemma_run_open_row(gst, s.subrange(npos as int, s.len() as int));
                                    lemma_run_concat(
                                        csv_init(),
                                        s.subrange(0, npos as int),
                                        s.subrange(npos as int, s.len() as int),
                                    );
                                    assert(s.subrange(0, npos as int) + s.subrange(
                                        npos as int,
                                        s.len() as int,
                                    ) =~= s);
                                    let run_all = csv_run(gst, s.subrange(npos as int, s.len() as int));
                                    assert(csv_rows(s) == csv_finish(run_all));
                                    assert(gst.rows == pre.rows);
                                    assert(gst.row == newrow);
                                    assert(csv_rows(s)[k].len() >= newrow.len());
                                    assert(csv_rows(s)[k][newrow.len() - 1] == newrow[newrow.len() - 1]);
                                    assert(!valid_utf8(newrow[newrow.len() - 1]));
                                    lemma_row_not_ok(csv_rows(s)[k], newrow.len() - 1);
                                    assert(k < total);
                                }
                                assert(k < scanned_row_count(total, sr, rc));
                                assert(!scanned_ok(s, sr, rc));
                            }
                            return Result::Err(DecodeError);
                        },
                    };
                    cell.clear();
                    row.push(decoded_cell);
                    proof {
                        assert(row_ok(newrow));
                        if record_end {
                            assert(gst.rows == pre.rows.push(newrow));
                            assert(forall|i: int|
                                0 <= i < gst.rows.len() ==> row_ok(#[trigger] gst.rows[i]));
                        } else {
                            assert(gst.row == newrow);
                            assert(forall|j: int|
                                0 <= j < gst.row.len() ==> valid_utf8(#[trigger] gst.row[j])
                                    && row@[j]@ == decode_utf8(gst.row[j]));
                        }
                    }
                    if record_end {
                        proof {
                            assert(row.deep_view() =~= decoded_row(newrow));
                        }
                        if Csv::should_process_row(row_idx, start_row, rows) {
                            let filtered = Csv::filter_row(&row, start_col, cols);
                            table.push(filtered);
                            proof {
                                lemma_table_window_push(pre.rows, newrow, sr, rc, sc, cc);
                                lemma_decode_slice_window(newrow, sc, cc);
                                assert(row_included(pre.rows.len() as int, sr, rc));
                                assert(table_window(gst.rows, sr, rc, sc, cc) == table_window(
                                    pre.rows,
                                    sr,
                                    rc,
                                    sc,
                                    cc,
                                ).push(slice_window(newrow, sc, cc)));
                                assert(filtered.deep_view() == slice_window(
                                    decoded_row(newrow),
                                    sc,
                                    cc,
                                ));
                                assert(filtered.deep_view() == decoded_row(
                                    slice_window(newrow, sc, cc),
                                ));
                                assert(decode_table(table_window(gst.rows, sr, rc, sc, cc))
                                    =~= decode_table(table_window(pre.rows, sr, rc, sc, cc)).push(
                                    decoded_row(slice_window(newrow, sc, cc)),
                                ));
                                assert(table.deep_view() =~= decode_table(
                                    table_window(pre.rows, sr, rc, sc, cc),
                                ).push(filtered.deep_view()));
                                assert(table.deep_view() == decode_table(
                                    table_window(gst.rows, sr, rc, sc, cc),
                                ));
                            }
                        } else {
                            proof {
                                lemma_table_window_push(pre.rows, newrow, sr, rc, sc, cc);
                                assert(table.deep_view() =~= decode_table(
                                    table_window(gst.rows, sr, rc, sc, cc),
                                ));
                            }
                        }
                        if Csv::should_stop_processing(row_idx, start_row, rows) {
                            proof {
                                let c: int = match rc {
                                    Option::Some(c0) => c0,
                                    Option::None => 0,
                                };
                                assert(row_idx == sr + c);
                                assert(gst.rows.len() == sr + c + 1);
                                if !(rdr.mode is Done) {
                                    lemma_run_rows_extend(gst, s.subrange(npos as int, s.len() as int));
                                    lemma_run_concat(
                                        csv_init(),
                                        s.subrange(0, npos as int),
                                        s.subrange(npos as int, s.len() as int),
                                    );
                                    assert(s.subrange(0, npos as int) + s.subrange(
                                        npos as int,
                                        s.len() as int,
                                    ) =~= s);
                                    let run_all = csv_run(gst, s.subrange(npos as int, s.len() as int));
                                    assert(csv_rows(s) == csv_finish(run_all));
                                    assert(rows_extend(csv_rows(s), gst.rows));
                                } else {
                                    assert(rows_extend(csv_rows(s), gst.rows));
                                }
                                lemma_table_window_extend(gst.rows, csv_rows(s), sr, c, sc, cc);
                                assert(table.deep_view() == decode_table(
                                    table_window(csv_rows(s), sr, rc, sc, cc),
                                ));
                                // every scanned row was decoded
                                assert(forall|i: int|
                                    0 <= i < gst.rows.len() ==> row_ok(#[trigger] csv_rows(s)[i]));
                                assert(scanned_row_count(csv_rows(s).len() as int, sr, rc) <= sr
                                    + c + 1);
                                assert(scanned_ok(s, sr, rc));
                            }
                            return Result::Ok(table);
                        }
                        proof {
                            // one more finished row fits in the consumed bytes
                            if !(rdr.mode is Done) {
                                lemma_run_rows_bound(csv_init(), s.subrange(0, pos as int));
                            } else {
                                lemma_run_rows_bound(csv_init(), s);
                            }
                            assert(row_idx + 1 <= s.len());
                        }
                        row_idx = row_idx + 1;
                        row = Vec::new();
                    }
                },
            }
        }
    }
    /// Whether the row at `row_idx` falls inside the row window.
    #[inline]
    fn should_process_row(row_idx: usize, starting_row: usize, rows: Option<usize>) -> (r:
        bool)
        ensures
            r == (row_idx >= starting_row && (match rows {
                Option::Some(rc) => (row_idx as int) < starting_row + rc,
                Option::None => true,
            })),
    {
        row_idx >= starting_row && (match rows {
            Option::Some(rc) => row_idx - starting_row < rc,
            Option::None => true,
        })
    }

    /// Whether the scan may stop: a row count is given and every row of the
    /// window has been seen.
    #[inline]
    fn should_stop_processing(row_idx: usize, starting_row: usize, rows: Option<usize>) -> (r:
        bool)
        ensures
            r == (match rows {
                Option::Some(rc) => row_idx as int >= starting_row + rc,
                Option::None => false,
            }),
    {
        match rows {
            Option::Some(rc) => row_idx >= starting_row && row_idx - starting_row >= rc,
            Option::None => false,
        }
    }

    /// The column window applied to one row, clamped: a window past the end
    /// of the row yields fewer, or zero, cells rather than an error.
    #[inline]
    fn filter_row(row: &Vec<String>, starting_col: usize, cols: Option<usize>) -> (r: Vec<
        String,
    >)
        ensures
            r.deep_view() == slice_window(row.deep_view(), starting_col as int, opt_int(cols)),
    {
        let lo = if starting_col <= row.len() {
            starting_col
        } else {
            row.len()
        };
        let hi = match cols {
            Option::Some(c) => {
                if c <= row.len() - lo {
                    lo + c
                } else {
                    row.len()
                }
            },
            Option::None => row.len(),
        };
        let mut r: Vec<String> = Vec::new();
        let mut k: usize = lo;
        while k < hi
            invariant
                lo <= k <= hi <= row@.len(),
                r@.len() == k - lo,
                forall|i: int| 0 <= i < r@.len() ==> #[trigger] r@[i] == row@[lo + i],
            decreases hi - k,
        {
            r.push(row[k].clone());
            k = k + 1;
        }
        proof {
            assert(r.deep_view() =~= slice_window(
                row.deep_view(),
                starting_col as int,
                opt_int(cols),
            ));
        }
        r
    }
}

} // verus!
