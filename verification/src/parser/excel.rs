//! Excel workbooks: each sheet rendered as tab-separated rows under a
//! `Sheet: <name>` heading.
use vstd::prelude::*;

use calamine::{
    open_workbook_auto_from_rs, open_workbook_from_rs, Data, Ods, Range, Reader, Sheets, Xls,
    Xlsb, Xlsx,
};
use std::io::Cursor;

use super::{
    excel_extension_list, excel_extensions, extension_listed, has_listed_extension, same_chars,
    DocumentError, DocumentParser,
};
use crate::path::{extension_of, path_extension};
use crate::text::{
    all_ws, chars_of, end_non_ws_before, is_ws, join_with, lemma_end_non_ws_before,
    lemma_trim_bounds, lemma_trim_props, push_char, push_range, push_str, trim, trim_range,
    trim_hi, trim_lo,
};

verus! {

#[verifier::external_type_specification]
#[verifier::external_body]
#[verifier::reject_recursive_types(RS)]
pub struct ExSheets<RS>(Sheets<RS>);

#[verifier::external_type_specification]
#[verifier::external_body]
#[verifier::reject_recursive_types(T)]
pub struct ExRange<T>(Range<T>);

#[verifier::external_type_specification]
#[verifier::external_body]
pub struct ExData(Data);

/// The workbook formats calamine reads.
#[derive(Clone, Copy, Debug, PartialEq, Eq, Structural)]
pub enum WorkbookFormat {
    Xls,
    Xlsx,
    Xlsb,
    Ods,
}

/// The cells of a sheet's used range, row by row, each as calamine
/// displays it (empty cells as nothing).
pub uninterp spec fn range_cells(range: Range<Data>) -> Seq<Seq<Seq<char>>>;

/// The sheet names of an open workbook, in workbook order.
pub uninterp spec fn workbook_sheet_names(workbook: Sheets<Cursor<Vec<u8>>>) -> Seq<Seq<char>>;

/// The sheets of an open workbook on which `Reader::worksheet_range`
/// returns rather than panicking, by name: the cells of the used range, or
/// calamine's error as it displays it.
pub uninterp spec fn workbook_sheets(workbook: Sheets<Cursor<Vec<u8>>>) -> Map<
    Seq<char>,
    Result<Seq<Seq<Seq<char>>>, Seq<char>>,
>;

/// What `calamine::open_workbook_from_rs` makes of `bytes` in the given
/// format: `None` when it panics on them, `Some(Err(message))` when it
/// reports an error (the message as calamine's `Error` displays it), else
/// the sheet names and sheets of the workbook, as
/// [`workbook_sheet_names`] and [`workbook_sheets`] give them.
pub uninterp spec fn workbook_as(bytes: Seq<u8>, format: WorkbookFormat) -> Option<
    Result<(Seq<Seq<char>>, Map<Seq<char>, Result<Seq<Seq<Seq<char>>>, Seq<char>>>), Seq<char>>,
>;

/// What `calamine::open_workbook_auto_from_rs` makes of `bytes`, in the
/// same form as [`workbook_as`].
pub uninterp spec fn workbook_in(bytes: Seq<u8>) -> Option<
    Result<(Seq<Seq<char>>, Map<Seq<char>, Result<Seq<Seq<Seq<char>>>, Seq<char>>>), Seq<char>>,
>;

/// The opened workbook `r` is the outcome described.
pub open spec fn opened_as(
    r: Result<Sheets<Cursor<Vec<u8>>>, String>,
    outcome: Option<Result<(Seq<Seq<char>>, Map<Seq<char>, Result<Seq<Seq<Seq<char>>>, Seq<char>>>), Seq<char>>>,
) -> bool {
    match outcome {
        Some(Ok((names, sheets))) => r matches Ok(w) && workbook_sheet_names(w) == names
            && workbook_sheets(w) == sheets,
        Some(Err(m)) => r matches Err(s) && s@ == m,
        None => true,
    }
}

/// `calamine::open_workbook_from_rs` as an `.xls` workbook; the error as
/// calamine's `Error` displays it.
#[verifier::external_body]
fn open_xls(bytes: &[u8]) -> (r: Result<Sheets<Cursor<Vec<u8>>>, String>)
    requires
        workbook_as(bytes@, WorkbookFormat::Xls) is Some,
    ensures
        opened_as(r, workbook_as(bytes@, WorkbookFormat::Xls)),
{
    match open_workbook_from_rs::<Xls<Cursor<Vec<u8>>>, Cursor<Vec<u8>>>(Cursor::new(bytes.to_vec())) {
        Ok(w) => Ok(Sheets::Xls(w)),
        Err(e) => Err(calamine::Error::Xls(e).to_string()),
    }
}

/// `calamine::open_workbook_from_rs` as an `.xlsx` workbook.
#[verifier::external_body]
fn open_xlsx(bytes: &[u8]) -> (r: Result<Sheets<Cursor<Vec<u8>>>, String>)
    requires
        workbook_as(bytes@, WorkbookFormat::Xlsx) is Some,
    ensures
        opened_as(r, workbook_as(bytes@, WorkbookFormat::Xlsx)),
{
    match open_workbook_from_rs::<Xlsx<Cursor<Vec<u8>>>, Cursor<Vec<u8>>>(Cursor::new(bytes.to_vec())) {
        Ok(w) => Ok(Sheets::Xlsx(w)),
        Err(e) => Err(calamine::Error::Xlsx(e).to_string()),
    }
}

/// `calamine::open_workbook_from_rs` as an `.xlsb` workbook.
#[verifier::external_body]
fn open_xlsb(bytes: &[u8]) -> (r: Result<Sheets<Cursor<Vec<u8>>>, String>)
    requires
        workbook_as(bytes@, WorkbookFormat::Xlsb) is Some,
    ensures
        opened_as(r, workbook_as(bytes@, WorkbookFormat::Xlsb)),
{
    match open_workbook_from_rs::<Xlsb<Cursor<Vec<u8>>>, Cursor<Vec<u8>>>(Cursor::new(bytes.to_vec())) {
        Ok(w) => Ok(Sheets::Xlsb(w)),
        Err(e) => Err(calamine::Error::Xlsb(e).to_string()),
    }
}

/// `calamine::open_workbook_from_rs` as an `.ods` workbook.
#[verifier::external_body]
fn open_ods(bytes: &[u8]) -> (r: Result<Sheets<Cursor<Vec<u8>>>, String>)
    requires
        workbook_as(bytes@, WorkbookFormat::Ods) is Some,
    ensures
        opened_as(r, workbook_as(bytes@, WorkbookFormat::Ods)),
{
    match open_workbook_from_rs::<Ods<Cursor<Vec<u8>>>, Cursor<Vec<u8>>>(Cursor::new(bytes.to_vec())) {
        Ok(w) => Ok(Sheets::Ods(w)),
        Err(e) => Err(calamine::Error::Ods(e).to_string()),
    }
}

/// `calamine::open_workbook_auto_from_rs`: the format detected from the
/// bytes.
#[verifier::external_body]
fn open_detected(bytes: &[u8]) -> (r: Result<Sheets<Cursor<Vec<u8>>>, String>)
    requires
        workbook_in(bytes@) is Some,
    ensures
        opened_as(r, workbook_in(bytes@)),
{
    match open_workbook_auto_from_rs(Cursor::new(bytes.to_vec())) {
        Ok(w) => Ok(w),
        Err(e) => Err(e.to_string()),
    }
}

/// `calamine::Reader::sheet_names`.
#[verifier::external_body]
fn sheet_names(workbook: &Sheets<Cursor<Vec<u8>>>) -> (r: Vec<String>)
    ensures
        r@.map_values(|s: String| s@) == workbook_sheet_names(*workbook),
{
    workbook.sheet_names()
}

/// `calamine::Reader::worksheet_range`: the used range of the named sheet,
/// or the error as calamine's `Error` displays it. Reading leaves the
/// workbook's sheets as they were.
#[verifier::external_body]
fn worksheet_range(workbook: &mut Sheets<Cursor<Vec<u8>>>, name: &str) -> (r: Result<Range<Data>, String>)
    requires
        workbook_sheets(*old(workbook)).contains_key(name@),
    ensures
        workbook_sheet_names(*final(workbook)) == workbook_sheet_names(*old(workbook)),
        workbook_sheets(*final(workbook)) == workbook_sheets(*old(workbook)),
        match workbook_sheets(*old(workbook))[name@] {
            Ok(cells) => r matches Ok(range) && range_cells(range) == cells,
            Err(m) => r matches Err(s) && s@ == m,
        },
{
    match workbook.worksheet_range(name) {
        Ok(range) => Ok(range),
        Err(e) => Err(e.to_string()),
    }
}

/// `calamine::Range::get_size`: the number of rows and of columns; every
/// row has that many cells.
#[verifier::external_body]
fn range_size(range: &Range<Data>) -> (r: (usize, usize))
    ensures
        r.0 == range_cells(*range).len(),
        forall|i: int| 0 <= i < r.0 ==> #[trigger] range_cells(*range)[i].len() == r.1,
{
    range.get_size()
}

/// `calamine::Range::get` and `Display` for the cell: its text.
#[verifier::external_body]
fn cell_text(range: &Range<Data>, row: usize, col: usize) -> (r: String)
    requires
        row < range_cells(*range).len(),
        col < range_cells(*range)[row as int].len(),
    ensures
        r@ == range_cells(*range)[row as int][col as int],
{
    match range.get((row, col)) {
        Some(cell) => cell.to_string(),
        None => String::new(),
    }
}

/// How the workbook at `path` opens: by its extension as written (`xls`,
/// `xla`; `xlsx`, `xlsm`, `xlam`; `xlsb`; `ods`), else by detecting the
/// format from the bytes, as `calamine::open_workbook_auto` does for a file.
pub open spec fn workbook_at(path: Seq<char>, bytes: Seq<u8>) -> Option<
    Result<(Seq<Seq<char>>, Map<Seq<char>, Result<Seq<Seq<Seq<char>>>, Seq<char>>>), Seq<char>>,
> {
    match path_extension(path) {
        Some(e) => if e == "xls"@ || e == "xla"@ {
            workbook_as(bytes, WorkbookFormat::Xls)
        } else if e == "xlsx"@ || e == "xlsm"@ || e == "xlam"@ {
            workbook_as(bytes, WorkbookFormat::Xlsx)
        } else if e == "xlsb"@ {
            workbook_as(bytes, WorkbookFormat::Xlsb)
        } else if e == "ods"@ {
            workbook_as(bytes, WorkbookFormat::Ods)
        } else {
            workbook_in(bytes)
        },
        None => workbook_in(bytes),
    }
}

/// Whether the extension is the given one.
fn is_ext(ext: &Vec<char>, w: &str) -> (r: bool)
    ensures
        r == (ext@ == w@),
{
    let v = chars_of(w);
    same_chars(ext, &v)
}

/// Opens the workbook at `path` from its bytes.
fn open_workbook(path: &str, bytes: &[u8]) -> (r: Result<Sheets<Cursor<Vec<u8>>>, String>)
    requires
        workbook_at(path@, bytes@) is Some,
    ensures
        opened_as(r, workbook_at(path@, bytes@)),
{
    match extension_of(path) {
        Some(e) => if is_ext(&e, "xls") || is_ext(&e, "xla") {
            open_xls(bytes)
        } else if is_ext(&e, "xlsx") || is_ext(&e, "xlsm") || is_ext(&e, "xlam") {
            open_xlsx(bytes)
        } else if is_ext(&e, "xlsb") {
            open_xlsb(bytes)
        } else if is_ext(&e, "ods") {
            open_ods(bytes)
        } else {
            open_detected(bytes)
        },
        None => open_detected(bytes),
    }
}

/// A sheet as read from a workbook: its name and its cells, row by row.
#[derive(Debug)]
pub struct Sheet {
    pub name: String,
    pub rows: Vec<Vec<String>>,
}

/// The cells of a sheet as text.
pub open spec fn sheet_cells(sheet: Sheet) -> Seq<Seq<Seq<char>>> {
    sheet.rows@.map_values(|row: Vec<String>| row@.map_values(|c: String| c@))
}

/// `s` without trailing whitespace (`str::trim_end`).
pub open spec fn trim_end(s: Seq<char>) -> Seq<char> {
    s.subrange(0, end_non_ws_before(s, s.len() as int))
}

/// A row as a line: its cells joined with tabs.
pub open spec fn row_line(row: Seq<Seq<char>>) -> Seq<char> {
    join_with(row, seq!['\t'])
}

/// The body of a sheet: each row that is not blank, without trailing
/// whitespace, on a line of its own.
pub open spec fn sheet_body(rows: Seq<Seq<Seq<char>>>) -> Seq<char>
    decreases rows.len(),
{
    if rows.len() == 0 {
        Seq::empty()
    } else {
        let line = row_line(rows.last());
        let before = sheet_body(rows.drop_last());
        if trim(line).len() > 0 {
            before + trim_end(line) + seq!['\n']
        } else {
            before
        }
    }
}

/// The workbook text before trailing whitespace is trimmed: each sheet with
/// a non-empty body under a `Sheet: <name>` heading, sheets separated by a
/// blank line.
pub open spec fn workbook_raw(names: Seq<Seq<char>>, cells: Seq<Seq<Seq<Seq<char>>>>) -> Seq<char>
    decreases names.len(),
{
    if names.len() == 0 {
        Seq::empty()
    } else {
        let n = (names.len() - 1) as int;
        let before = workbook_raw(names.drop_last(), cells.subrange(0, n));
        let body = sheet_body(cells[n]);
        if body.len() == 0 {
            before
        } else {
            let sep = if before.len() > 0 {
                seq!['\n']
            } else {
                Seq::empty()
            };
            before + sep + "Sheet: "@ + names[n] + seq!['\n'] + body
        }
    }
}

/// The text of a workbook made of the given sheets.
pub open spec fn workbook_text(names: Seq<Seq<char>>, cells: Seq<Seq<Seq<Seq<char>>>>) -> Seq<char> {
    trim_end(workbook_raw(names, cells))
}

/// A row is rendered from its first cell on: a row that is not blank adds
/// its cells joined with tabs, cut after its last non-whitespace character
/// and nothing else, so an empty first cell keeps its tab and every cell
/// stays in its column; a blank row adds nothing.
pub proof fn lemma_row_keeps_its_columns(rows: Seq<Seq<Seq<char>>>, row: Seq<Seq<char>>)
    ensures
        !all_ws(join_with(row, seq!['\t'])) ==> exists|k: int|
            {
                &&& 0 < k <= join_with(row, seq!['\t']).len()
                &&& sheet_body(rows.push(row)) == sheet_body(rows) + join_with(row, seq!['\t']).subrange(
                    0,
                    k,
                ) + seq!['\n']
                &&& !is_ws(join_with(row, seq!['\t'])[k - 1])
                &&& all_ws(
                    join_with(row, seq!['\t']).subrange(k, join_with(row, seq!['\t']).len() as int),
                )
            },
        all_ws(join_with(row, seq!['\t'])) ==> sheet_body(rows.push(row)) == sheet_body(rows),
{
    let line = join_with(row, seq!['\t']);
    let all = rows.push(row);
    assert(all.drop_last() =~= rows);
    assert(all.last() == row);
    lemma_trim_props(line);
    let k = end_non_ws_before(line, line.len() as int);
    lemma_end_non_ws_before(line, line.len() as int);
    if !all_ws(line) {
        if k == 0 {
            assert forall|j: int| 0 <= j < line.len() implies is_ws(#[trigger] line[j]) by {}
        }
        let rest = line.subrange(k, line.len() as int);
        assert forall|j: int| 0 <= j < rest.len() implies is_ws(#[trigger] rest[j]) by {
            assert(rest[j] == line[k + j]);
        }
        assert(sheet_body(all) == sheet_body(rows) + line.subrange(0, k) + seq!['\n']);
    }
}

/// The names of the sheets.
pub open spec fn sheet_names_of(sheets: Seq<Sheet>) -> Seq<Seq<char>> {
    sheets.map_values(|s: Sheet| s.name@)
}

/// The cells of the sheets.
pub open spec fn sheet_cells_of(sheets: Seq<Sheet>) -> Seq<Seq<Seq<Seq<char>>>> {
    sheets.map_values(|s: Sheet| sheet_cells(s))
}

/// Appends a row's cells, joined with tabs, to `line`.
fn push_row(line: &mut Vec<char>, row: &Vec<String>)
    ensures
        final(line)@ == old(line)@ + row_line(row@.map_values(|c: String| c@)),
{
    let ghost cells = row@.map_values(|c: String| c@);
    let mut j: usize = 0;
    proof {
        assert(cells.subrange(0, 0) =~= Seq::<Seq<char>>::empty());
        assert(old(line)@ + join_with(Seq::<Seq<char>>::empty(), seq!['\t']) =~= old(line)@);
    }
    while j < row.len()
        invariant
            cells == row@.map_values(|c: String| c@),
            j <= row@.len(),
            line@ == old(line)@ + join_with(cells.subrange(0, j as int), seq!['\t']),
        decreases row.len() - j,
    {
        let ghost before = line@;
        let ghost joined = join_with(cells.subrange(0, j as int), seq!['\t']);
        if j > 0 {
            line.push('\t');
        }
        let cs = chars_of(row[j].as_str());
        let mut k: usize = 0;
        let ghost mid = line@;
        while k < cs.len()
            invariant
                k <= cs@.len(),
                line@ == mid + cs@.subrange(0, k as int),
            decreases cs.len() - k,
        {
            line.push(cs[k]);
            proof {
                assert(cs@.subrange(0, k + 1) =~= cs@.subrange(0, k as int).push(cs@[k as int]));
            }
            k = k + 1;
        }
        proof {
            assert(cs@.subrange(0, cs@.len() as int) =~= cs@);
            let next = cells.subrange(0, j + 1);
            assert(next.drop_last() =~= cells.subrange(0, j as int));
            assert(next.last() == cs@);
            if j == 0 {
                assert(next =~= seq![cs@]);
                assert(line@ =~= old(line)@ + cs@);
            } else {
                assert(line@ =~= old(line)@ + (joined + seq!['\t'] + cs@));
            }
        }
        j = j + 1;
    }
    proof {
        assert(cells.subrange(0, row@.len() as int) =~= cells);
    }
}

/// The body of a sheet, rendered.
fn render_sheet_body(rows: &Vec<Vec<String>>) -> (r: Vec<char>)
    ensures
        r@ == sheet_body(rows@.map_values(|row: Vec<String>| row@.map_values(|c: String| c@))),
{
    let ghost all = rows@.map_values(|row: Vec<String>| row@.map_values(|c: String| c@));
    let mut body: Vec<char> = Vec::new();
    let mut i: usize = 0;
    proof {
        assert(all.subrange(0, 0) =~= Seq::<Seq<Seq<char>>>::empty());
    }
    while i < rows.len()
        invariant
            all == rows@.map_values(|row: Vec<String>| row@.map_values(|c: String| c@)),
            i <= rows@.len(),
            body@ == sheet_body(all.subrange(0, i as int)),
        decreases rows.len() - i,
    {
        let mut line: Vec<char> = Vec::new();
        push_row(&mut line, &rows[i]);
        proof {
            assert(Seq::<char>::empty() + row_line(all[i as int]) =~= row_line(all[i as int]));
            let next = all.subrange(0, i + 1);
            assert(next.drop_last() =~= all.subrange(0, i as int));
            assert(next.last() == all[i as int]);
        }
        let (lo, hi) = trim_range(&line, 0, line.len());
        proof {
            assert(line@.subrange(0, line@.len() as int) =~= line@);
            lemma_trim_bounds(line@);
        }
        if lo < hi {
            let ghost before = body@;
            let mut k: usize = 0;
            while k < hi
                invariant
                    k <= hi <= line@.len(),
                    body@ == before + line@.subrange(0, k as int),
                decreases hi - k,
            {
                body.push(line[k]);
                proof {
                    assert(line@.subrange(0, k + 1) =~= line@.subrange(0, k as int).push(
                        line@[k as int],
                    ));
                }
                k = k + 1;
            }
            body.push('\n');
            proof {
                assert(trim_hi(line@) == end_non_ws_before(line@, line@.len() as int));
                assert(body@ =~= before + trim_end(line@) + seq!['\n']);
            }
        }
        i = i + 1;
    }
    proof {
        assert(all.subrange(0, rows@.len() as int) =~= all);
    }
    body
}

/// Renders sheets as text: each sheet with at least one non-blank row gets
/// a `Sheet: <name>` heading followed by its non-blank rows as tab-separated
/// lines, sheets are separated by a blank line, and trailing whitespace is
/// trimmed.
pub fn render_workbook(sheets: &Vec<Sheet>) -> (r: String)
    ensures
        r@ == workbook_text(sheet_names_of(sheets@), sheet_cells_of(sheets@)),
{
    let ghost names = sheet_names_of(sheets@);
    let ghost cells = sheet_cells_of(sheets@);
    let mut text: Vec<char> = Vec::new();
    let mut i: usize = 0;
    proof {
        assert(names.subrange(0, 0) =~= Seq::<Seq<char>>::empty());
        reveal_strlit("Sheet: ");
    }
    while i < sheets.len()
        invariant
            names == sheet_names_of(sheets@),
            cells == sheet_cells_of(sheets@),
            i <= sheets@.len(),
            text@ == workbook_raw(names.subrange(0, i as int), cells.subrange(0, i as int)),
            "Sheet: "@ == seq!['S', 'h', 'e', 'e', 't', ':', ' '],
        decreases sheets.len() - i,
    {
        let sheet = &sheets[i];
        let body = render_sheet_body(&sheet.rows);
        proof {
            let nn = names.subrange(0, i + 1);
            let nc = cells.subrange(0, i + 1);
            assert(nn.drop_last() =~= names.subrange(0, i as int));
            assert(nc.subrange(0, i as int) =~= cells.subrange(0, i as int));
            assert(nn[i as int] == sheet.name@);
            assert(nc[i as int] == sheet_cells(*sheet));
        }
        if body.len() > 0 {
            let ghost before = text@;
            if text.len() > 0 {
                text.push('\n');
            }
            let ghost after_sep = text@;
            text.push('S');
            text.push('h');
            text.push('e');
            text.push('e');
            text.push('t');
            text.push(':');
            text.push(' ');
            let name = chars_of(sheet.name.as_str());
            let ghost mid = text@;
            let mut k: usize = 0;
            while k < name.len()
                invariant
                    k <= name@.len(),
                    text@ == mid + name@.subrange(0, k as int),
                decreases name.len() - k,
            {
                text.push(name[k]);
                proof {
                    assert(name@.subrange(0, k + 1) =~= name@.subrange(0, k as int).push(
                        name@[k as int],
                    ));
                }
                k = k + 1;
            }
            text.push('\n');
            let ghost mid2 = text@;
            let mut k: usize = 0;
            while k < body.len()
                invariant
                    k <= body@.len(),
                    text@ == mid2 + body@.subrange(0, k as int),
                decreases body.len() - k,
            {
                text.push(body[k]);
                proof {
                    assert(body@.subrange(0, k + 1) =~= body@.subrange(0, k as int).push(
                        body@[k as int],
                    ));
                }
                k = k + 1;
            }
            proof {
                assert(name@.subrange(0, name@.len() as int) =~= name@);
                assert(body@.subrange(0, body@.len() as int) =~= body@);
                let sep = if before.len() > 0 {
                    seq!['\n']
                } else {
                    Seq::<char>::empty()
                };
                assert(after_sep =~= before + sep);
                assert(text@ =~= before + sep + "Sheet: "@ + sheet.name@ + seq!['\n'] + body@);
            }
        }
        i = i + 1;
    }
    proof {
        assert(names.subrange(0, sheets@.len() as int) =~= names);
        assert(cells.subrange(0, sheets@.len() as int) =~= cells);
    }
    let end = trim_end_len(&text);
    let mut out = String::new();
    push_range(&mut out, &text, 0, end);
    proof {
        assert(Seq::<char>::empty() + text@.subrange(0, end as int) =~= text@.subrange(0, end as int));
    }
    out
}

/// The length of `v` without its trailing whitespace.
fn trim_end_len(v: &Vec<char>) -> (r: usize)
    ensures
        r as int == end_non_ws_before(v@, v@.len() as int),
        r <= v@.len(),
{
    let mut e = v.len();
    while e > 0 && crate::text::is_whitespace(v[e - 1])
        invariant
            e <= v@.len(),
            end_non_ws_before(v@, e as int) == end_non_ws_before(v@, v@.len() as int),
        decreases e,
    {
        e = e - 1;
    }
    e
}

/// calamine returns while the workbook's sheets are read in order: on each
/// sheet from position `k` on, up to and including the first whose range
/// calamine reports an error for.
pub open spec fn sheets_return(
    names: Seq<Seq<char>>,
    sheets: Map<Seq<char>, Result<Seq<Seq<Seq<char>>>, Seq<char>>>,
    k: int,
) -> bool
    decreases names.len() - k,
{
    if k < 0 || k >= names.len() {
        true
    } else if !sheets.contains_key(names[k]) {
        false
    } else if sheets[names[k]] is Err {
        true
    } else {
        sheets_return(names, sheets, k + 1)
    }
}

/// calamine returns on the workbook at `path` rather than panicking, while
/// it is opened and while its sheets are read.
pub open spec fn excel_returns_on(path: Seq<char>, contents: Seq<u8>) -> bool {
    match workbook_at(path, contents) {
        Some(Ok((names, sheets))) => sheets_return(names, sheets, 0),
        Some(Err(_)) => true,
        None => false,
    }
}

/// The workbook at `path` opens and all its sheets can be read.
pub open spec fn workbook_readable(path: Seq<char>, contents: Seq<u8>) -> bool {
    workbook_at(path, contents) matches Some(Ok((names, sheets))) && forall|k: int|
        0 <= k < names.len() ==> sheets.contains_key(#[trigger] names[k]) && sheets[names[k]] is Ok
}

/// The text of the workbook at `path`: every sheet, in workbook order,
/// rendered from its cells.
pub open spec fn excel_text(path: Seq<char>, contents: Seq<u8>) -> Seq<char> {
    match workbook_at(path, contents) {
        Some(Ok((names, sheets))) => workbook_text(
            names,
            names.map_values(|n: Seq<char>| sheets[n]->Ok_0),
        ),
        _ => Seq::empty(),
    }
}

/// The position of the first sheet, from position `k` on, whose range
/// calamine reports an error for.
pub open spec fn first_unreadable(
    names: Seq<Seq<char>>,
    sheets: Map<Seq<char>, Result<Seq<Seq<Seq<char>>>, Seq<char>>>,
    k: int,
) -> Option<int>
    decreases names.len() - k,
{
    if k < 0 || k >= names.len() {
        None
    } else if sheets[names[k]] is Err {
        Some(k)
    } else {
        first_unreadable(names, sheets, k + 1)
    }
}

/// The error reading the workbook at `path` gives: calamine's message on
/// opening it, under the path; else the first sheet it cannot read, by
/// name, with calamine's message.
pub open spec fn excel_error(path: Seq<char>, contents: Seq<u8>, e: DocumentError) -> bool {
    match workbook_at(path, contents) {
        Some(Err(m)) => e matches DocumentError::NotWorkbook(p, d) && p@ == path && d@ == m,
        Some(Ok((names, sheets))) => first_unreadable(names, sheets, 0) matches Some(k)
            && e matches DocumentError::UnreadableSheet(n, p, d) && n@ == names[k] && p@ == path
            && sheets[names[k]] == Err::<Seq<Seq<Seq<char>>>, Seq<char>>(d@),
        None => false,
    }
}

/// Sheets read so far, each readable, keep the reading going.
proof fn lemma_sheets_return_at(
    names: Seq<Seq<char>>,
    sheets: Map<Seq<char>, Result<Seq<Seq<Seq<char>>>, Seq<char>>>,
    i: int,
)
    requires
        sheets_return(names, sheets, 0),
        0 <= i <= names.len(),
        forall|k: int| 0 <= k < i ==> sheets.contains_key(#[trigger] names[k]) && sheets[names[k]] is Ok,
    ensures
        sheets_return(names, sheets, i),
        first_unreadable(names, sheets, 0) == first_unreadable(names, sheets, i),
    decreases i,
{
    if i > 0 {
        lemma_sheets_return_at(names, sheets, i - 1);
        assert(sheets.contains_key(names[i - 1]) && sheets[names[i - 1]] is Ok);
    }
}

/// Excel workbooks: `.xlsx`, `.xlsm`, `.xlsb` and `.xls`, ignoring ASCII
/// case.
pub struct ExcelParser;

impl DocumentParser for ExcelParser {
    open spec fn claims(&self, path: Seq<char>) -> bool {
        extension_listed(path, excel_extensions())
    }

    open spec fn returns_on(&self, path: Seq<char>, contents: Seq<u8>) -> bool {
        excel_returns_on(path, contents)
    }

    fn supports(&self, path: &str) -> (r: bool) {
        has_listed_extension(path, &excel_extension_list())
    }

    /// Renders each sheet as tab-separated rows under a `Sheet: <name>`
    /// heading, so cell adjacency survives into the embedded text.
    fn parse(&self, path: &str, contents: &[u8]) -> (r: Result<String, DocumentError>)
        ensures
            workbook_at(path@, contents@) matches Some(Err(_)) <==> r matches Err(
                DocumentError::NotWorkbook(_, _),
            ),
            r is Ok <==> workbook_readable(path@, contents@),
            r matches Ok(t) ==> t@ == excel_text(path@, contents@),
            r matches Err(e) ==> excel_error(path@, contents@, e),
            r matches Err(e) ==> e is NotWorkbook || e is UnreadableSheet,
    {
        let mut workbook = match open_workbook(path, contents) {
            Ok(w) => w,
            Err(detail) => return Err(DocumentError::NotWorkbook(path.to_string(), detail)),
        };
        let ghost wb_names = workbook_sheet_names(workbook);
        let ghost wb_sheets = workbook_sheets(workbook);
        assert(workbook_at(path@, contents@) == Some(Ok::<(Seq<Seq<char>>, Map<Seq<char>, Result<Seq<Seq<Seq<char>>>, Seq<char>>>), Seq<char>>((wb_names, wb_sheets))));
        let names = sheet_names(&workbook);
        let mut sheets: Vec<Sheet> = Vec::new();
        let mut i: usize = 0;
        while i < names.len()
            invariant
                workbook_at(path@, contents@) matches Some(Ok((ns, ss))) && ns == wb_names && ss == wb_sheets,
                sheets_return(wb_names, wb_sheets, 0),
                wb_names == names@.map_values(|s: String| s@),
                wb_names == workbook_sheet_names(workbook),
                wb_sheets == workbook_sheets(workbook),
                i <= names@.len(),
                sheet_names_of(sheets@) == wb_names.subrange(0, i as int),
                sheet_cells_of(sheets@) == wb_names.subrange(0, i as int).map_values(
                    |n: Seq<char>| wb_sheets[n]->Ok_0,
                ),
                forall|k: int|
                    0 <= k < i ==> wb_sheets.contains_key(#[trigger] wb_names[k])
                        && wb_sheets[wb_names[k]] is Ok,
            decreases names.len() - i,
        {
            let name = names[i].clone();
            assert(name@ == wb_names[i as int]);
            proof {
                lemma_sheets_return_at(wb_names, wb_sheets, i as int);
            }
            let range = match worksheet_range(&mut workbook, name.as_str()) {
                Ok(r) => r,
                Err(detail) => {
                    proof {
                        assert(wb_names.contains(name@));
                        if workbook_readable(path@, contents@) {
                            assert(wb_sheets[wb_names[i as int]] is Ok);
                        }
                    }
                    return Err(DocumentError::UnreadableSheet(name, path.to_string(), detail));
                },
            };
            let rows = read_rows(&range);
            let ghost before_names = sheet_names_of(sheets@);
            let ghost before_cells = sheet_cells_of(sheets@);
            sheets.push(Sheet { name, rows });
            proof {
                assert(sheet_names_of(sheets@) =~= before_names.push(wb_names[i as int]));
                assert(wb_names.subrange(0, i + 1) =~= wb_names.subrange(0, i as int).push(
                    wb_names[i as int],
                ));
                assert(sheet_cells_of(sheets@) =~= before_cells.push(wb_sheets[wb_names[i as int]]->Ok_0));
                assert(wb_names.subrange(0, i + 1).map_values(|n: Seq<char>| wb_sheets[n]->Ok_0)
                    =~= wb_names.subrange(0, i as int).map_values(|n: Seq<char>| wb_sheets[n]->Ok_0).push(
                    wb_sheets[wb_names[i as int]]->Ok_0,
                ));
            }
            i = i + 1;
        }
        proof {
            assert(wb_names.subrange(0, names@.len() as int) =~= wb_names);
        }
        let text = render_workbook(&sheets);
        Ok(text)
    }
}


/// All cells of a range as text, row by row.
fn read_rows(range: &Range<Data>) -> (r: Vec<Vec<String>>)
    ensures
        r@.map_values(|row: Vec<String>| row@.map_values(|c: String| c@)) == range_cells(*range),
{
    let (height, width) = range_size(range);
    let ghost grid = range_cells(*range);
    let mut rows: Vec<Vec<String>> = Vec::new();
    let mut i: usize = 0;
    while i < height
        invariant
            grid == range_cells(*range),
            height == grid.len(),
            forall|k: int| 0 <= k < height ==> #[trigger] grid[k].len() == width,
            i <= height,
            rows@.map_values(|row: Vec<String>| row@.map_values(|c: String| c@)) == grid.subrange(
                0,
                i as int,
            ),
        decreases height - i,
    {
        let mut row: Vec<String> = Vec::new();
        let mut j: usize = 0;
        assert(grid[i as int].len() == width);
        while j < width
            invariant
                grid == range_cells(*range),
                i < height == grid.len(),
                grid[i as int].len() == width,
                j <= width,
                row@.map_values(|c: String| c@) == grid[i as int].subrange(0, j as int),
            decreases width - j,
        {
            let cell = cell_text(range, i, j);
            let ghost before = row@.map_values(|c: String| c@);
            row.push(cell);
            proof {
                assert(row@.map_values(|c: String| c@) =~= before.push(cell@));
                assert(grid[i as int].subrange(0, j + 1) =~= grid[i as int].subrange(
                    0,
                    j as int,
                ).push(grid[i as int][j as int]));
            }
            j = j + 1;
        }
        let ghost before = rows@.map_values(|row: Vec<String>| row@.map_values(|c: String| c@));
        proof {
            assert(grid[i as int].subrange(0, width as int) =~= grid[i as int]);
        }
        rows.push(row);
        proof {
            assert(rows@.map_values(|row: Vec<String>| row@.map_values(|c: String| c@))
                =~= before.push(grid[i as int]));
            assert(grid.subrange(0, i + 1) =~= grid.subrange(0, i as int).push(grid[i as int]));
        }
        i = i + 1;
    }
    proof {
        assert(grid.subrange(0, height as int) =~= grid);
    }
    rows
}

} // verus!
