//! Reading openLCA process workbooks: entries of the XLSX archive, the rows
//! of a worksheet as its XML events give them, the General information sheet
//! and the header-keyed rows of the table sheets.
use vstd::prelude::*;

use crate::normalization::{opt_view, texts};
use crate::openlca_workbook::{cell_text, column_index, column_of, resolve_cell, resolve_xl_target, xl_target};
use crate::table::TextMap;
use crate::text::{eq_ignore_ascii_case, last_piece, lower, str_eq, to_ascii_lowercase, trim, trim_str};
use crate::xml::{XmlNode, XmlNodeError, attr_value, attr_views, derefs, local_name, named, preorder, trimmed};
use crate::xml_parse::{
    XmlEventKind, XmlKindView, kind_view, xml_event_kind, xml_event_reader, xml_read_event, xml_reader_input,
    xml_reader_reads, xml_start_attributes, xml_start_attributes_of, xml_start_name, xml_start_name_of,
};

verus! {

// ---------------------------------------------------------------------------
// Archive entries
// ---------------------------------------------------------------------------

/// Why a workbook could not be read.
#[derive(Debug)]
pub enum WorkbookError {
    /// The archive or an entry could not be read; the message.
    Zip(String),
    /// An entry's name leaves the archive, or it is a symbolic link.
    UnsafeEntry,
    /// An entry is larger than the limit.
    EntryTooLarge,
    /// An entry is no well-formed XML.
    Xml(XmlNodeError),
    /// A sheet relationship points outside `xl/`.
    UnsafeTarget,
    /// The workbook has no General information sheet.
    MissingGeneralInformation,
}

/// Of an entry of a ZIP archive (`ZipArchive::by_name`): whether its name stays
/// inside the archive (`enclosed_name`), whether it is a symbolic link and its
/// size; or the message of the error opening the archive or finding the entry.
pub uninterp spec fn zip_entry_facts(archive: Seq<u8>, name: Seq<char>) -> Result<(bool, bool, u64), Seq<char>>;

/// The content of an entry of a ZIP archive (`read_to_end`), or the message of
/// the error reading it.
pub uninterp spec fn zip_entry_content(archive: Seq<u8>, name: Seq<char>) -> Result<Seq<u8>, Seq<char>>;

#[verifier::external_body]
pub(crate) fn zip_entry_info(archive: &[u8], name: &str) -> (r: Result<(bool, bool, u64), String>)
    ensures
        match r {
            Ok(f) => zip_entry_facts(archive@, name@) == Ok::<(bool, bool, u64), Seq<char>>(f),
            Err(m) => zip_entry_facts(archive@, name@) == Err::<(bool, bool, u64), Seq<char>>(m@),
        },
{
    let mut zip = zip::ZipArchive::new(std::io::Cursor::new(archive)).map_err(|e| e.to_string())?;
    let file = zip.by_name(name).map_err(|e| e.to_string())?;
    Ok((file.enclosed_name().is_some(), file.is_symlink(), file.size()))
}

#[verifier::external_body]
fn zip_entry_bytes(archive: &[u8], name: &str) -> (r: Result<Vec<u8>, String>)
    ensures
        match r {
            Ok(b) => zip_entry_content(archive@, name@) == Ok::<Seq<u8>, Seq<char>>(b@),
            Err(m) => zip_entry_content(archive@, name@) == Err::<Seq<u8>, Seq<char>>(m@),
        },
{
    let mut zip = zip::ZipArchive::new(std::io::Cursor::new(archive)).map_err(|e| e.to_string())?;
    let mut file = zip.by_name(name).map_err(|e| e.to_string())?;
    let mut bytes = Vec::new();
    std::io::Read::read_to_end(&mut file, &mut bytes).map_err(|e| e.to_string())?;
    Ok(bytes)
}

/// What reading an entry of the workbook gives: its bytes where it stays
/// inside the archive, is no symbolic link and is at most `limit` bytes, or the
/// error that names why it could not be taken.
pub open spec fn entry_read(archive: Seq<u8>, name: Seq<char>, limit: u64, r: Result<Seq<u8>, WorkbookError>) -> bool {
    match zip_entry_facts(archive, name) {
        Err(m) => r matches Err(WorkbookError::Zip(x)) && x@ == m,
        Ok((enclosed, link, size)) => if !enclosed || link {
            r matches Err(WorkbookError::UnsafeEntry)
        } else if size > limit {
            r matches Err(WorkbookError::EntryTooLarge)
        } else {
            match zip_entry_content(archive, name) {
                Ok(b) => r == Ok::<Seq<u8>, WorkbookError>(b),
                Err(m) => r matches Err(WorkbookError::Zip(x)) && x@ == m,
            }
        },
    }
}

pub open spec fn bytes_result(r: Result<Vec<u8>, WorkbookError>) -> Result<Seq<u8>, WorkbookError> {
    match r {
        Ok(v) => Ok(v@),
        Err(e) => Err(e),
    }
}

/// The bytes of an entry of the workbook (see `entry_read`).
pub fn read_workbook_entry(archive: &[u8], name: &str, limit: u64) -> (r: Result<Vec<u8>, WorkbookError>)
    ensures
        entry_read(archive@, name@, limit, bytes_result(r)),
{
    let (enclosed, link, size) = match zip_entry_info(archive, name) {
        Ok(f) => f,
        Err(m) => {
            return Err(WorkbookError::Zip(m));
        },
    };
    if !enclosed || link {
        return Err(WorkbookError::UnsafeEntry);
    }
    if size > limit {
        return Err(WorkbookError::EntryTooLarge);
    }
    match zip_entry_bytes(archive, name) {
        Ok(b) => Ok(b),
        Err(m) => Err(WorkbookError::Zip(m)),
    }
}

// ---------------------------------------------------------------------------
// The rows of a worksheet
// ---------------------------------------------------------------------------

/// A row of a sheet: the text of each cell by column, none where the cell is
/// missing or blank.
pub open spec fn row_view(r: Vec<Option<String>>) -> Seq<Option<Seq<char>>> {
    r@.map_values(|c: Option<String>| opt_view(c))
}

pub open spec fn opt_row_view(o: Option<Vec<Option<String>>>) -> Option<Seq<Option<Seq<char>>>> {
    match o {
        Some(r) => Some(row_view(r)),
        None => None,
    }
}

pub open spec fn rows_view(rs: Seq<Vec<Option<String>>>) -> Seq<Seq<Option<Seq<char>>>> {
    rs.map_values(|r: Vec<Option<String>>| row_view(r))
}

/// Where a sheet scan stands: the names of the open elements, the row being
/// read, the column, type and value text of the cell being read, whether
/// value text is being read, and the rows read so far.
pub struct SheetScan {
    pub open: Seq<Seq<char>>,
    pub row: Option<Seq<Option<Seq<char>>>>,
    pub column: nat,
    pub cell_type: Seq<char>,
    pub cell_value: Seq<char>,
    pub in_value: bool,
    pub rows: Seq<Seq<Option<Seq<char>>>>,
}

/// The column and type a cell's attributes give: `r` (a cell reference) and
/// `t`, by their local names, a later one winning.
pub open spec fn cell_attributes(attrs: Seq<(Seq<char>, Seq<char>)>) -> (nat, Seq<char>)
    decreases attrs.len(),
{
    if attrs.len() == 0 {
        (0, Seq::empty())
    } else {
        let (column, cell_type) = cell_attributes(attrs.drop_last());
        let key = last_piece(attrs.last().0, ':');
        if key == "r"@ {
            (column_of(attrs.last().1), cell_type)
        } else if key == "t"@ {
            (column, attrs.last().1)
        } else {
            (column, cell_type)
        }
    }
}

/// A row with a cell set, padded with missing cells up to its column.
pub open spec fn put_cell(row: Seq<Option<Seq<char>>>, column: nat, v: Option<Seq<char>>) -> Seq<Option<Seq<char>>> {
    let padded = if row.len() <= column {
        row + Seq::new((column + 1 - row.len()) as nat, |i: int| None::<Seq<char>>)
    } else {
        row
    };
    padded.update(column as int, v)
}

/// What the event at read number `i` does to a sheet scan: a `row` start opens
/// a row, a `c` start a cell (its attributes read), a `v` or `t` start value
/// text, which text then extends; their ends close them, a cell setting its
/// text (see `cell_text`) in the open row and a row joining the rows. Empty
/// elements, CDATA and other events change nothing.
pub open spec fn sheet_step(s: SheetScan, bytes: Seq<u8>, i: nat, shared: Seq<Seq<char>>) -> Result<SheetScan, XmlNodeError> {
    match xml_event_kind(bytes, i) {
        XmlKindView::Start => {
            let name = last_piece(xml_start_name(bytes, i), ':');
            let s1 = SheetScan { open: s.open.push(name), ..s };
            if name == "row"@ {
                Ok(SheetScan { row: Some(Seq::empty()), ..s1 })
            } else if name == "c"@ {
                match xml_start_attributes(bytes, i) {
                    Ok(a) => Ok(SheetScan {
                        column: cell_attributes(a).0,
                        cell_type: cell_attributes(a).1,
                        cell_value: Seq::empty(),
                        ..s1
                    }),
                    Err(e) => Err(e),
                }
            } else if name == "v"@ || name == "t"@ {
                Ok(SheetScan { in_value: true, ..s1 })
            } else {
                Ok(s1)
            }
        },
        XmlKindView::Text(t) => if s.in_value {
            Ok(SheetScan { cell_value: s.cell_value + t, ..s })
        } else {
            Ok(s)
        },
        XmlKindView::End => if s.open.len() == 0 {
            Ok(s)
        } else {
            let name = s.open.last();
            let s1 = SheetScan { open: s.open.drop_last(), ..s };
            if name == "v"@ || name == "t"@ {
                Ok(SheetScan { in_value: false, ..s1 })
            } else if name == "c"@ {
                match s.row {
                    Some(r) => Ok(SheetScan {
                        row: Some(put_cell(r, s.column, cell_text(s.cell_type, s.cell_value, shared))),
                        ..s1
                    }),
                    None => Ok(s1),
                }
            } else if name == "row"@ {
                match s.row {
                    Some(r) => Ok(SheetScan { row: None, rows: s.rows.push(r), ..s1 }),
                    None => Ok(s1),
                }
            } else {
                Ok(s1)
            }
        },
        _ => Ok(s),
    }
}

pub open spec fn empty_scan() -> SheetScan {
    SheetScan {
        open: Seq::empty(),
        row: None,
        column: 0,
        cell_type: Seq::empty(),
        cell_value: Seq::empty(),
        in_value: false,
        rows: Seq::empty(),
    }
}

/// The scan after the first `n` events.
pub open spec fn sheet_scan(bytes: Seq<u8>, n: nat, shared: Seq<Seq<char>>) -> Result<SheetScan, XmlNodeError>
    decreases n,
{
    if n == 0 {
        Ok(empty_scan())
    } else {
        match sheet_scan(bytes, (n - 1) as nat, shared) {
            Ok(s) => sheet_step(s, bytes, (n - 1) as nat, shared),
            Err(e) => Err(e),
        }
    }
}

pub open spec fn ends_sheet(k: XmlKindView) -> bool {
    k is Eof || k is Failed
}

/// No read before read number `m` ended the sheet or failed, and no event was
/// refused.
pub open spec fn sheet_runs_through(bytes: Seq<u8>, m: nat, shared: Seq<Seq<char>>) -> bool {
    forall|i: nat| i < m ==> !ends_sheet(#[trigger] xml_event_kind(bytes, i)) && sheet_scan(bytes, i + 1, shared) is Ok
}

/// The scan ends at read number `n` (at most the sheet's length).
pub open spec fn sheet_ends_at(bytes: Seq<u8>, n: nat, shared: Seq<Seq<char>>) -> bool {
    &&& n <= bytes.len()
    &&& sheet_runs_through(bytes, n, shared)
    &&& (sheet_scan(bytes, n + 1, shared) is Err || ends_sheet(xml_event_kind(bytes, n)))
}

/// The rows of a scan that ends at read number `n`, or the error that ended it.
pub open spec fn sheet_result(bytes: Seq<u8>, n: nat, shared: Seq<Seq<char>>) -> Result<Seq<Seq<Option<Seq<char>>>>, XmlNodeError> {
    match sheet_scan(bytes, n, shared) {
        Err(e) => Err(e),
        Ok(s) => match xml_event_kind(bytes, n) {
            XmlKindView::Eof => Ok(s.rows),
            XmlKindView::Failed(e) => Err(e),
            _ => match sheet_step(s, bytes, n, shared) {
                Err(e) => Err(e),
                Ok(_) => Ok(s.rows),
            },
        },
    }
}

fn set_cell(row: &mut Vec<Option<String>>, column: usize, v: Option<String>)
    ensures
        row_view(*final(row)) == put_cell(row_view(*old(row)), column as nat, opt_view(v)),
{
    let ghost start = row_view(*row);
    while row.len() <= column
        invariant
            start.len() <= row@.len(),
            start.len() <= column + 1 ==> row@.len() <= column + 1,
            start.len() > column + 1 ==> row@.len() == start.len(),
            row_view(*row) == start + Seq::new((row@.len() - start.len()) as nat, |i: int| None::<Seq<char>>),
        decreases column + 1 - row@.len(),
    {
        let ghost before = row_view(*row);
        row.push(None);
        assert(row_view(*row) =~= before.push(None));
        assert(row_view(*row) =~= start + Seq::new((row@.len() - start.len()) as nat, |i: int| None::<Seq<char>>));
    }
    let ghost padded = row_view(*row);
    assert(padded =~= (if start.len() <= column as nat {
        start + Seq::new((column + 1 - start.len()) as nat, |i: int| None::<Seq<char>>)
    } else {
        start
    }));
    let ghost vv = opt_view(v);
    row.set(column, v);
    assert(row_view(*row) =~= padded.update(column as int, vv));
}

pub open spec fn rows_result(r: Result<Vec<Vec<Option<String>>>, XmlNodeError>) -> Result<Seq<Seq<Option<Seq<char>>>>, XmlNodeError> {
    match r {
        Ok(v) => Ok(rows_view(v@)),
        Err(e) => Err(e),
    }
}

/// What a scan of a worksheet may give: the result of a scan that ends at some
/// read number, or `EventLimit` where no read up to the sheet's length ends it.
pub open spec fn sheet_reads_to(bytes: Seq<u8>, shared: Seq<Seq<char>>, r: Result<Seq<Seq<Option<Seq<char>>>>, XmlNodeError>) -> bool {
    ||| exists|n: nat| sheet_ends_at(bytes, n, shared) && r == sheet_result(bytes, n, shared)
    ||| sheet_runs_through(bytes, (bytes.len() + 1) as nat, shared) && r == Err::<Seq<Seq<Option<Seq<char>>>>, XmlNodeError>(XmlNodeError::EventLimit)
}

/// The rows of a worksheet, read from its XML events in document order (see
/// `sheet_ends_at` and `sheet_result`); a sheet that would need more reads
/// than it has bytes is refused with `EventLimit`.
pub fn sheet_rows(bytes: &[u8], shared: &Vec<String>) -> (r: Result<Vec<Vec<Option<String>>>, XmlNodeError>)
    ensures
        sheet_reads_to(bytes@, texts(shared@), rows_result(r)),
{
    let ghost sh = texts(shared@);
    let mut reader = xml_event_reader(bytes);
    let mut open: Vec<String> = Vec::new();
    let mut row: Option<Vec<Option<String>>> = None;
    let mut column: usize = 0;
    let mut cell_type = String::new();
    let mut cell_value = String::new();
    let mut in_value = false;
    let mut rows: Vec<Vec<Option<String>>> = Vec::new();
    let mut count: usize = 0;
    proof {
        reveal_strlit("row");
        reveal_strlit("c");
        reveal_strlit("v");
        reveal_strlit("t");
        assert(open@.map_values(|s: String| s@) =~= Seq::<Seq<char>>::empty());
        assert(rows_view(rows@) =~= Seq::<Seq<Option<Seq<char>>>>::empty());
        assert(cell_type@ =~= Seq::<char>::empty());
        assert(cell_value@ =~= Seq::<char>::empty());
    }
    loop
        invariant
            xml_reader_input(reader) == bytes@,
            xml_reader_reads(reader) == count,
            count <= bytes@.len(),
            sh == texts(shared@),
            sheet_scan(bytes@, count as nat, sh) == Ok::<SheetScan, XmlNodeError>(SheetScan {
                open: open@.map_values(|s: String| s@),
                row: opt_row_view(row),
                column: column as nat,
                cell_type: cell_type@,
                cell_value: cell_value@,
                in_value,
                rows: rows_view(rows@),
            }),
            sheet_runs_through(bytes@, count as nat, sh),
            "row"@ == seq!['r', 'o', 'w'],
            "c"@ == seq!['c'],
            "v"@ == seq!['v'],
            "t"@ == seq!['t'],
        decreases bytes@.len() - count,
    {
        let ghost s = SheetScan {
            open: open@.map_values(|s: String| s@),
            row: opt_row_view(row),
            column: column as nat,
            cell_type: cell_type@,
            cell_value: cell_value@,
            in_value,
            rows: rows_view(rows@),
        };
        let ghost i = count as nat;
        let k = xml_read_event(&mut reader);
        assert(sheet_scan(bytes@, i + 1, sh) == sheet_step(s, bytes@, i, sh));
        match k {
            XmlEventKind::Eof => {
                assert(sheet_ends_at(bytes@, i, sh));
                return Ok(rows);
            },
            XmlEventKind::Failed(e) => {
                assert(sheet_ends_at(bytes@, i, sh));
                return Err(e);
            },
            XmlEventKind::Start => {
                let qualified = xml_start_name_of(&reader);
                let name = local_name(qualified.as_str());
                let ghost open_before = open@;
                if str_eq(name.as_str(), "c") {
                    let attrs = match xml_start_attributes_of(&reader) {
                        Ok(a) => a,
                        Err(e) => {
                            assert(sheet_ends_at(bytes@, i, sh));
                            return Err(e);
                        },
                    };
                    let mut c: usize = 0;
                    let mut t = String::new();
                    let mut j: usize = 0;
                    proof {
                        assert(t@ =~= Seq::<char>::empty());
                        assert(attr_views(attrs@).subrange(0, 0) =~= Seq::<(Seq<char>, Seq<char>)>::empty());
                    }
                    while j < attrs.len()
                        invariant
                            j <= attrs@.len(),
                            cell_attributes(attr_views(attrs@).subrange(0, j as int)) == (c as nat, t@),
                        decreases attrs@.len() - j,
                    {
                        let ghost sub = attr_views(attrs@).subrange(0, j + 1);
                        assert(sub.drop_last() =~= attr_views(attrs@).subrange(0, j as int));
                        assert(sub.last() == (attrs@[j as int].0@, attrs@[j as int].1@));
                        let key = local_name(attrs[j].0.as_str());
                        if str_eq(key.as_str(), "r") {
                            c = column_index(attrs[j].1.as_str());
                        } else if str_eq(key.as_str(), "t") {
                            t = attrs[j].1.clone();
                        }
                        j = j + 1;
                    }
                    assert(attr_views(attrs@).subrange(0, attrs@.len() as int) =~= attr_views(attrs@));
                    column = c;
                    cell_type = t;
                    cell_value = String::new();
                    proof {
                        assert(cell_value@ =~= Seq::<char>::empty());
                    }
                } else if str_eq(name.as_str(), "row") {
                    let fresh: Vec<Option<String>> = Vec::new();
                    proof {
                        assert(row_view(fresh) =~= Seq::<Option<Seq<char>>>::empty());
                    }
                    row = Some(fresh);
                } else if str_eq(name.as_str(), "v") || str_eq(name.as_str(), "t") {
                    in_value = true;
                }
                open.push(name);
                proof {
                    assert(open@.map_values(|s: String| s@) =~= open_before.map_values(|s: String| s@).push(
                        last_piece(xml_start_name(bytes@, i), ':'),
                    ));
                }
            },
            XmlEventKind::Text(t) => {
                if in_value {
                    cell_value = crate::text::concat(cell_value.as_str(), t.as_str());
                }
            },
            XmlEventKind::End => {
                if open.len() > 0 {
                    let ghost open_before = open@;
                    let name = open.pop().unwrap();
                    proof {
                        assert(open@.map_values(|s: String| s@) =~= open_before.map_values(|s: String| s@).drop_last());
                    }
                    if str_eq(name.as_str(), "v") || str_eq(name.as_str(), "t") {
                        in_value = false;
                    } else if str_eq(name.as_str(), "c") {
                        match row {
                            Some(mut r) => {
                                let v = resolve_cell(cell_type.as_str(), cell_value.as_str(), shared);
                                set_cell(&mut r, column, v);
                                row = Some(r);
                            },
                            None => {},
                        }
                    } else if str_eq(name.as_str(), "row") {
                        match row {
                            Some(r) => {
                                let ghost before = rows_view(rows@);
                                let ghost rv = row_view(r);
                                rows.push(r);
                                proof {
                                    assert(rows_view(rows@) =~= before.push(rv));
                                }
                                row = None;
                            },
                            None => {},
                        }
                    }
                }
            },
            _ => {},
        }
        assert(sheet_scan(bytes@, i + 1, sh) == Ok::<SheetScan, XmlNodeError>(SheetScan {
            open: open@.map_values(|s: String| s@),
            row: opt_row_view(row),
            column: column as nat,
            cell_type: cell_type@,
            cell_value: cell_value@,
            in_value,
            rows: rows_view(rows@),
        }));
        assert(sheet_runs_through(bytes@, i + 1, sh)) by {
            assert forall|j: nat| j < i + 1 implies !ends_sheet(#[trigger] xml_event_kind(bytes@, j))
                && sheet_scan(bytes@, j + 1, sh) is Ok by {
                if j < i {
                }
            }
        }
        if count == bytes.len() {
            return Err(XmlNodeError::EventLimit);
        }
        count = count + 1;
    }
}

// ---------------------------------------------------------------------------
// The General information sheet and the table sheets
// ---------------------------------------------------------------------------

pub open spec fn cell_at(row: Seq<Option<Seq<char>>>, i: int) -> Option<Seq<char>> {
    if 0 <= i < row.len() {
        row[i]
    } else {
        None
    }
}

pub open spec fn text_views(m: Map<Seq<char>, String>) -> Map<Seq<char>, Seq<char>> {
    m.map_values(|s: String| s@)
}

/// The fields of the General information sheet: after the row whose first
/// cell reads `General information` (in any ASCII case, trimmed), each row
/// with a non-blank first cell and a second cell gives that second cell,
/// trimmed, under the first in lower case; a later row wins.
pub open spec fn general_scan(rows: Seq<Seq<Option<Seq<char>>>>) -> (bool, Map<Seq<char>, Seq<char>>)
    decreases rows.len(),
{
    if rows.len() == 0 {
        (false, Map::empty())
    } else {
        let (found, m) = general_scan(rows.drop_last());
        let row = rows.last();
        if !found {
            (
                match cell_at(row, 0) {
                    Some(v) => lower(trim(v)) == lower("general information"@),
                    None => false,
                },
                m,
            )
        } else {
            let field = match cell_at(row, 0) {
                Some(v) => trim(v),
                None => Seq::empty(),
            };
            if field.len() == 0 {
                (found, m)
            } else {
                match cell_at(row, 1) {
                    Some(v) => (found, m.insert(lower(field), trim(v))),
                    None => (found, m),
                }
            }
        }
    }
}

fn cell_ref(row: &Vec<Option<String>>, i: usize) -> (r: Option<&str>)
    ensures
        crate::normalization::opt_str(r) == cell_at(row_view(*row), i as int),
{
    if i < row.len() {
        match &row[i] {
            Some(s) => Some(s.as_str()),
            None => None,
        }
    } else {
        None
    }
}

/// The fields of the General information sheet (see `general_scan`).
pub fn general_information(rows: &Vec<Vec<Option<String>>>) -> (r: TextMap<String>)
    ensures
        text_views(r.view()) == general_scan(rows_view(rows@)).1,
{
    let ghost rv = rows_view(rows@);
    let mut found = false;
    let mut m: TextMap<String> = TextMap::new();
    let mut i: usize = 0;
    assert(rv.subrange(0, 0) =~= Seq::<Seq<Option<Seq<char>>>>::empty());
    assert(text_views(m.view()) =~= Map::<Seq<char>, Seq<char>>::empty());
    while i < rows.len()
        invariant
            i <= rows@.len(),
            rv == rows_view(rows@),
            general_scan(rv.subrange(0, i as int)) == (found, text_views(m.view())),
        decreases rows@.len() - i,
    {
        let ghost sub = rv.subrange(0, i + 1);
        assert(sub.drop_last() =~= rv.subrange(0, i as int));
        assert(sub.last() == row_view(rows@[i as int]));
        let row = &rows[i];
        if !found {
            found = match cell_ref(row, 0) {
                Some(v) => eq_ignore_ascii_case(trim_str(v).as_str(), "general information"),
                None => false,
            };
        } else {
            let field = match cell_ref(row, 0) {
                Some(v) => trim_str(v),
                None => {
                    let e = String::new();
                    assert(e@ =~= Seq::<char>::empty());
                    e
                },
            };
            if !field.as_str().is_empty() {
                match cell_ref(row, 1) {
                    Some(v) => {
                        let ghost before = m.view();
                        let key = to_ascii_lowercase(field.as_str());
                        let value = trim_str(v);
                        m.insert(key, value);
                        assert(text_views(m.view()) =~= text_views(before).insert(lower(field@), trim(v@)));
                    },
                    None => {},
                }
            }
        }
        i = i + 1;
    }
    assert(rv.subrange(0, rows@.len() as int) =~= rv);
    m
}

pub open spec fn any_cell(row: Seq<Option<Seq<char>>>) -> bool {
    exists|i: int| 0 <= i < row.len() && row[i] is Some
}

/// The header of a table sheet: each cell trimmed in lower case, a missing
/// cell an empty header.
pub open spec fn header_of(row: Seq<Option<Seq<char>>>) -> Seq<Seq<char>> {
    row.map_values(|c: Option<Seq<char>>| match c {
        Some(v) => lower(trim(v)),
        None => lower(trim(Seq::empty())),
    })
}

/// A row of a table sheet by its headers: each non-empty header with a cell
/// gives the cell, trimmed; a later column with the same header wins.
pub open spec fn keyed_row(headers: Seq<Seq<char>>, row: Seq<Option<Seq<char>>>) -> Map<Seq<char>, Seq<char>>
    decreases headers.len(),
{
    if headers.len() == 0 {
        Map::empty()
    } else {
        let m = keyed_row(headers.drop_last(), row);
        let i = headers.len() - 1;
        if headers.last().len() > 0 {
            match cell_at(row, i) {
                Some(v) => m.insert(headers.last(), trim(v)),
                None => m,
            }
        } else {
            m
        }
    }
}

/// The rows of a table sheet: the first row with a cell is the header; each
/// later row with a cell gives its cells by header (see `keyed_row`).
pub open spec fn table_scan(rows: Seq<Seq<Option<Seq<char>>>>) -> (Option<Seq<Seq<char>>>, Seq<Map<Seq<char>, Seq<char>>>)
    decreases rows.len(),
{
    if rows.len() == 0 {
        (None, Seq::empty())
    } else {
        let (headers, items) = table_scan(rows.drop_last());
        let row = rows.last();
        match headers {
            None => if any_cell(row) {
                (Some(header_of(row)), items)
            } else {
                (None, items)
            },
            Some(h) => if any_cell(row) {
                (Some(h), items.push(keyed_row(h, row)))
            } else {
                (Some(h), items)
            },
        }
    }
}

fn has_cell(row: &Vec<Option<String>>) -> (r: bool)
    ensures
        r == any_cell(row_view(*row)),
{
    let mut i: usize = 0;
    while i < row.len()
        invariant
            i <= row@.len(),
            forall|j: int| 0 <= j < i ==> row_view(*row)[j] is None,
        decreases row@.len() - i,
    {
        if row[i].is_some() {
            assert(row_view(*row)[i as int] is Some);
            return true;
        }
        i = i + 1;
    }
    false
}

fn header_row(row: &Vec<Option<String>>) -> (r: Vec<String>)
    ensures
        r@.map_values(|s: String| s@) == header_of(row_view(*row)),
{
    let mut out: Vec<String> = Vec::new();
    let mut i: usize = 0;
    while i < row.len()
        invariant
            i <= row@.len(),
            out@.map_values(|s: String| s@) == header_of(row_view(*row)).subrange(0, i as int),
        decreases row@.len() - i,
    {
        let ghost before = out@.map_values(|s: String| s@);
        proof {
            reveal_strlit("");
        }
        let cell = match &row[i] {
            Some(v) => v.as_str(),
            None => "",
        };
        assert(cell@ == match row_view(*row)[i as int] {
            Some(v) => v,
            None => Seq::<char>::empty(),
        });
        let h = to_ascii_lowercase(trim_str(cell).as_str());
        assert(header_of(row_view(*row))[i as int] == h@);
        let ghost hv = h@;
        out.push(h);
        assert(out@.map_values(|s: String| s@) =~= before.push(hv));
        assert(header_of(row_view(*row)).subrange(0, i + 1) =~= header_of(row_view(*row)).subrange(0, i as int).push(
            header_of(row_view(*row))[i as int],
        ));
        i = i + 1;
    }
    assert(header_of(row_view(*row)).subrange(0, row@.len() as int) =~= header_of(row_view(*row)));
    out
}

fn keyed(headers: &Vec<String>, row: &Vec<Option<String>>) -> (r: TextMap<String>)
    ensures
        text_views(r.view()) == keyed_row(headers@.map_values(|s: String| s@), row_view(*row)),
{
    let ghost hv = headers@.map_values(|s: String| s@);
    let mut m: TextMap<String> = TextMap::new();
    let mut i: usize = 0;
    assert(hv.subrange(0, 0) =~= Seq::<Seq<char>>::empty());
    assert(text_views(m.view()) =~= Map::<Seq<char>, Seq<char>>::empty());
    while i < headers.len()
        invariant
            i <= headers@.len(),
            hv == headers@.map_values(|s: String| s@),
            text_views(m.view()) == keyed_row(hv.subrange(0, i as int), row_view(*row)),
        decreases headers@.len() - i,
    {
        let ghost sub = hv.subrange(0, i + 1);
        assert(sub.drop_last() =~= hv.subrange(0, i as int));
        assert(sub.last() == headers@[i as int]@);
        if !headers[i].as_str().is_empty() {
            match cell_ref(row, i) {
                Some(v) => {
                    let ghost before = m.view();
                    m.insert(headers[i].clone(), trim_str(v));
                    assert(text_views(m.view()) =~= text_views(before).insert(headers@[i as int]@, trim(v@)));
                },
                None => {},
            }
        }
        i = i + 1;
    }
    assert(hv.subrange(0, headers@.len() as int) =~= hv);
    m
}

pub open spec fn keyed_views(v: Seq<TextMap<String>>) -> Seq<Map<Seq<char>, Seq<char>>> {
    v.map_values(|m: TextMap<String>| text_views(m.view()))
}

/// The rows of a table sheet by their headers (see `table_scan`).
pub fn table_rows(rows: &Vec<Vec<Option<String>>>) -> (r: Vec<TextMap<String>>)
    ensures
        keyed_views(r@) == table_scan(rows_view(rows@)).1,
{
    let ghost rv = rows_view(rows@);
    let mut headers: Option<Vec<String>> = None;
    let mut out: Vec<TextMap<String>> = Vec::new();
    let mut i: usize = 0;
    assert(rv.subrange(0, 0) =~= Seq::<Seq<Option<Seq<char>>>>::empty());
    assert(keyed_views(out@) =~= Seq::<Map<Seq<char>, Seq<char>>>::empty());
    while i < rows.len()
        invariant
            i <= rows@.len(),
            rv == rows_view(rows@),
            table_scan(rv.subrange(0, i as int)).1 == keyed_views(out@),
            table_scan(rv.subrange(0, i as int)).0 == match headers {
                Some(h) => Some(h@.map_values(|s: String| s@)),
                None => None,
            },
        decreases rows@.len() - i,
    {
        let ghost sub = rv.subrange(0, i + 1);
        assert(sub.drop_last() =~= rv.subrange(0, i as int));
        assert(sub.last() == row_view(rows@[i as int]));
        let row = &rows[i];
        if has_cell(row) {
            match &headers {
                None => {
                    headers = Some(header_row(row));
                },
                Some(h) => {
                    let ghost before = keyed_views(out@);
                    let item = keyed(h, row);
                    let ghost iv = text_views(item.view());
                    out.push(item);
                    assert(keyed_views(out@) =~= before.push(iv));
                },
            }
        }
        i = i + 1;
    }
    assert(rv.subrange(0, rows@.len() as int) =~= rv);
    out
}

// ---------------------------------------------------------------------------
// The workbook's sheets and shared strings
// ---------------------------------------------------------------------------

/// The relationship targets of a workbook by id: each `Relationship` element
/// with an `Id` and a `Target`, in document order, a later one winning.
pub open spec fn relationship_targets(nodes: Seq<XmlNode>) -> Map<Seq<char>, Seq<char>>
    decreases nodes.len(),
{
    if nodes.len() == 0 {
        Map::empty()
    } else {
        let m = relationship_targets(nodes.drop_last());
        let n = nodes.last();
        match (attr_value(n.attributes@, "Id"@), attr_value(n.attributes@, "Target"@)) {
            (Some(id), Some(target)) => m.insert(id, target),
            _ => m,
        }
    }
}

/// The archive path of each sheet by name: each `sheet` element with a `name`
/// and an `id` that a relationship has, its target resolved under `xl/` (see
/// `xl_target`), a later one winning; none where a target leaves `xl/`.
pub open spec fn sheet_paths(sheets: Seq<XmlNode>, targets: Map<Seq<char>, Seq<char>>) -> Option<Map<Seq<char>, Seq<char>>>
    decreases sheets.len(),
{
    if sheets.len() == 0 {
        Some(Map::empty())
    } else {
        match sheet_paths(sheets.drop_last(), targets) {
            None => None,
            Some(m) => {
                let n = sheets.last();
                match (attr_value(n.attributes@, "name"@), attr_value(n.attributes@, "id"@)) {
                    (Some(name), Some(id)) => if targets.dom().contains(id) {
                        match xl_target(targets[id]) {
                            Some(p) => Some(m.insert(name, p)),
                            None => None,
                        }
                    } else {
                        Some(m)
                    },
                    _ => Some(m),
                }
            },
        }
    }
}

/// The layout of a workbook: its sheets' archive paths by name.
pub open spec fn layout_of(workbook: XmlNode, relationships: XmlNode) -> Option<Map<Seq<char>, Seq<char>>> {
    sheet_paths(
        named(preorder(workbook), "sheet"@),
        relationship_targets(named(preorder(relationships), "Relationship"@)),
    )
}

/// The sheets' archive paths by name (see `layout_of`).
pub fn workbook_layout(workbook: &XmlNode, relationships: &XmlNode) -> (r: Result<TextMap<String>, WorkbookError>)
    ensures
        match layout_of(*workbook, *relationships) {
            Some(m) => r matches Ok(t) && text_views(t.view()) == m,
            None => r matches Err(WorkbookError::UnsafeTarget),
        },
{
    let rels = relationships.descendants_named("Relationship").remaining();
    let ghost rv = derefs(rels@);
    let mut targets: TextMap<String> = TextMap::new();
    let mut i: usize = 0;
    assert(rv.subrange(0, 0) =~= Seq::<XmlNode>::empty());
    assert(text_views(targets.view()) =~= Map::<Seq<char>, Seq<char>>::empty());
    while i < rels.len()
        invariant
            i <= rels@.len(),
            rv == derefs(rels@),
            rv == named(preorder(*relationships), "Relationship"@),
            text_views(targets.view()) == relationship_targets(rv.subrange(0, i as int)),
        decreases rels@.len() - i,
    {
        let ghost sub = rv.subrange(0, i + 1);
        assert(sub.drop_last() =~= rv.subrange(0, i as int));
        assert(sub.last() == *rels@[i as int]);
        let n = rels[i];
        match (n.attr("Id"), n.attr("Target")) {
            (Some(id), Some(target)) => {
                let ghost before = targets.view();
                targets.insert(String::from_str(id), String::from_str(target));
                assert(text_views(targets.view()) =~= text_views(before).insert(id@, target@));
            },
            _ => {},
        }
        i = i + 1;
    }
    assert(rv.subrange(0, rels@.len() as int) =~= rv);
    let ghost tv = text_views(targets.view());
    assert(tv == relationship_targets(named(preorder(*relationships), "Relationship"@)));
    let sheets = workbook.descendants_named("sheet").remaining();
    let ghost sv = derefs(sheets@);
    let mut out: TextMap<String> = TextMap::new();
    let mut j: usize = 0;
    assert(sv.subrange(0, 0) =~= Seq::<XmlNode>::empty());
    assert(text_views(out.view()) =~= Map::<Seq<char>, Seq<char>>::empty());
    while j < sheets.len()
        invariant
            j <= sheets@.len(),
            sv == derefs(sheets@),
            tv == text_views(targets.view()),
            tv == relationship_targets(named(preorder(*relationships), "Relationship"@)),
            sv == named(preorder(*workbook), "sheet"@),
            sheet_paths(sv.subrange(0, j as int), tv) == Some(text_views(out.view())),
        decreases sheets@.len() - j,
    {
        let ghost sub = sv.subrange(0, j + 1);
        assert(sub.drop_last() =~= sv.subrange(0, j as int));
        assert(sub.last() == *sheets@[j as int]);
        let n = sheets[j];
        match (n.attr("name"), n.attr("id")) {
            (Some(name), Some(id)) => {
                match targets.get(id) {
                    Some(target) => {
                        match resolve_xl_target(target.as_str()) {
                            Ok(p) => {
                                let ghost before = out.view();
                                out.insert(String::from_str(name), p);
                                assert(text_views(out.view()) =~= text_views(before).insert(name@, xl_target(tv[id@])->0));
                            },
                            Err(_) => {
                                proof {
                                    assert(tv.dom().contains(id@) && tv[id@] == target@);
                                    assert(xl_target(target@) is None);
                                    assert(sheet_paths(sub, tv) is None);
                                    lemma_sheet_paths_stay_none(sv, tv, j + 1);
                                }
                                return Err(WorkbookError::UnsafeTarget);
                            },
                        }
                    },
                    None => {},
                }
            },
            _ => {},
        }
        j = j + 1;
    }
    assert(sv.subrange(0, sheets@.len() as int) =~= sv);
    Ok(out)
}

/// Once a target is refused, the layout stays refused.
proof fn lemma_sheet_paths_stay_none(s: Seq<XmlNode>, t: Map<Seq<char>, Seq<char>>, k: int)
    requires
        0 <= k <= s.len(),
        sheet_paths(s.subrange(0, k), t) is None,
    ensures
        sheet_paths(s, t) is None,
    decreases s.len() - k,
{
    if k < s.len() {
        let sub = s.subrange(0, k + 1);
        assert(sub.drop_last() =~= s.subrange(0, k));
        lemma_sheet_paths_stay_none(s, t, k + 1);
    } else {
        assert(s.subrange(0, k) =~= s);
    }
}

/// The trimmed texts of a list of `t` elements, joined.
pub open spec fn joined_texts(nodes: Seq<XmlNode>) -> Seq<char>
    decreases nodes.len(),
{
    if nodes.len() == 0 {
        Seq::empty()
    } else {
        joined_texts(nodes.drop_last()) + match trimmed(nodes.last().text@) {
            Some(t) => t,
            None => Seq::empty(),
        }
    }
}

/// The shared strings of a workbook: for each `si` element, the trimmed texts
/// of its `t` elements, joined.
pub open spec fn shared_strings_of(root: XmlNode) -> Seq<Seq<char>> {
    named(preorder(root), "si"@).map_values(|n: XmlNode| joined_texts(named(preorder(n), "t"@)))
}

fn joined_text(item: &XmlNode) -> (r: String)
    ensures
        r@ == joined_texts(named(preorder(*item), "t"@)),
{
    let ts = item.descendants_named("t").remaining();
    let ghost tv = derefs(ts@);
    let mut out = String::new();
    let mut i: usize = 0;
    assert(tv.subrange(0, 0) =~= Seq::<XmlNode>::empty());
    assert(out@ =~= Seq::<char>::empty());
    while i < ts.len()
        invariant
            i <= ts@.len(),
            tv == derefs(ts@),
            out@ == joined_texts(tv.subrange(0, i as int)),
        decreases ts@.len() - i,
    {
        let ghost sub = tv.subrange(0, i + 1);
        assert(sub.drop_last() =~= tv.subrange(0, i as int));
        assert(sub.last() == *ts@[i as int]);
        match ts[i].trimmed_text() {
            Some(t) => {
                out = crate::text::concat(out.as_str(), t.as_str());
            },
            None => {
                assert(out@ + Seq::<char>::empty() =~= out@);
            },
        }
        i = i + 1;
    }
    assert(tv.subrange(0, ts@.len() as int) =~= tv);
    out
}

/// The shared strings of a workbook (see `shared_strings_of`).
pub fn shared_strings(root: &XmlNode) -> (r: Vec<String>)
    ensures
        texts(r@) == shared_strings_of(*root),
{
    let items = root.descendants_named("si").remaining();
    let ghost iv = derefs(items@);
    let mut out: Vec<String> = Vec::new();
    let mut i: usize = 0;
    while i < items.len()
        invariant
            i <= items@.len(),
            iv == derefs(items@),
            out@.map_values(|s: String| s@) == iv.subrange(0, i as int).map_values(
                |n: XmlNode| joined_texts(named(preorder(n), "t"@)),
            ),
        decreases items@.len() - i,
    {
        let ghost before = out@.map_values(|s: String| s@);
        let t = joined_text(items[i]);
        let ghost tv = t@;
        out.push(t);
        assert(out@.map_values(|s: String| s@) =~= before.push(tv));
        assert(iv.subrange(0, i + 1).map_values(|n: XmlNode| joined_texts(named(preorder(n), "t"@))) =~= iv.subrange(
            0,
            i as int,
        ).map_values(|n: XmlNode| joined_texts(named(preorder(n), "t"@))).push(tv));
        i = i + 1;
    }
    assert(iv.subrange(0, items@.len() as int) =~= iv);
    out
}

} // verus!
