//! SimaPro CSV exports: the text of an export, its separator, its process
//! blocks and their sections, and the exchanges and entities each block yields.
use vstd::prelude::*;

use crate::json::JsonValue;
use crate::model::CanonicalEntity;
use crate::text::{
    chars_of, concat, concat3, decimal, decimal_string, ends_with, lower, owned, split,
    split_chars, starts_with, str_eq, string_of, to_ascii_lowercase, trim, trim_chars, trim_str,
};
use crate::writers::{stable_id, uuid_v5_url};
use vstd::string::StringSliceAdditionalSpecFns;

verus! {

/// The text that the Windows-1252 decoder (with byte-order-mark sniffing) gives
/// for some bytes.
pub uninterp spec fn windows_1252(bytes: Seq<u8>) -> Seq<char>;

/// `encoding_rs::WINDOWS_1252.decode`: the decoded text, which depends on the
/// bytes alone (a leading UTF-8 or UTF-16 byte-order mark selects that
/// encoding instead, and is dropped). The decoder's buffer size for the input
/// must fit a `usize`.
#[verifier::external_body]
fn decode_windows_1252(bytes: &[u8]) -> (r: String)
    requires
        bytes@.len() <= usize::MAX / 4,
    ensures
        r@ == windows_1252(bytes@),
{
    let (text, _, _) = encoding_rs::WINDOWS_1252.decode(bytes);
    text.into_owned()
}

/// The text of a SimaPro export.
pub fn decode_export(bytes: &[u8]) -> (r: String)
    requires
        bytes@.len() <= usize::MAX / 4,
    ensures
        r@ == windows_1252(bytes@),
{
    decode_windows_1252(bytes)
}

/// The lines of a text as `str::lines` gives them: split at `\n`, a `\r`
/// before a `\n` dropped, and no empty line after a final `\n`.
pub open spec fn text_lines(s: Seq<char>) -> Seq<Seq<char>> {
    let parts = split(s, '\n');
    let n = parts.len();
    let kept = if parts.last().len() == 0 { (n - 1) as nat } else { n as nat };
    Seq::new(kept, |i: int| if i < n - 1 && parts[i].len() > 0 && parts[i].last() == '\r' {
        parts[i].drop_last()
    } else {
        parts[i]
    })
}

/// `str::lines`.
pub fn lines_of(text: &str) -> (r: Vec<String>)
    ensures
        r@.map_values(|l: String| l@) == text_lines(text@),
{
    let c = chars_of(text);
    let parts = split_chars(c.as_slice(), '\n');
    let ghost pv = parts@.map_values(|v: Vec<char>| v@);
    proof {
        crate::text::lemma_split_nonempty(text@, '\n');
    }
    let n = parts.len();
    let kept = if parts[n - 1].len() == 0 {
        n - 1
    } else {
        n
    };
    assert(pv.last() == parts@[n - 1]@);
    let mut out: Vec<String> = Vec::new();
    let mut i: usize = 0;
    while i < kept
        invariant
            i <= kept <= n,
            n == parts@.len(),
            n == pv.len(),
            pv == parts@.map_values(|v: Vec<char>| v@),
            pv == split(text@, '\n'),
            kept == (if pv.last().len() == 0 { (n - 1) as nat } else { n as nat }),
            out@.map_values(|l: String| l@) == text_lines(text@).subrange(0, i as int),
        decreases kept - i,
    {
        let part = &parts[i];
        assert(pv[i as int] == part@);
        let line = if i < n - 1 && part.len() > 0 && part[part.len() - 1] == '\r' {
            let mut v: Vec<char> = Vec::new();
            let mut k: usize = 0;
            while k < part.len() - 1
                invariant
                    part@.len() > 0,
                    k <= part@.len() - 1,
                    v@ == part@.subrange(0, k as int),
                decreases part@.len() - 1 - k,
            {
                v.push(part[k]);
                k = k + 1;
                assert(v@ =~= part@.subrange(0, k as int));
            }
            assert(v@ =~= part@.drop_last());
            string_of(v.as_slice())
        } else {
            string_of(part.as_slice())
        };
        let ghost before = out@.map_values(|l: String| l@);
        assert(line@ == text_lines(text@)[i as int]);
        out.push(line);
        assert(out@.map_values(|l: String| l@) =~= before.push(text_lines(text@)[i as int]));
        i = i + 1;
        assert(out@.map_values(|l: String| l@) =~= text_lines(text@).subrange(0, i as int));
    }
    assert(text_lines(text@).subrange(0, kept as int) =~= text_lines(text@));
    out
}

/// The separator that a `{CSV separator: ...}` line declares, if it is one.
pub open spec fn declared_separator(line: Seq<char>) -> Option<char> {
    if line.len() >= 16 && starts_with(line, "{CSV separator:"@) && line.last() == '}' {
        let v = trim(line.subrange(15, line.len() - 1));
        if lower(v) == "semicolon"@ {
            Some(';')
        } else if lower(v) == "comma"@ {
            Some(',')
        } else if v.len() > 0 {
            Some(v[0])
        } else {
            None
        }
    } else {
        None
    }
}

/// The first separator declared in the first lines, from line `i` on.
pub open spec fn first_declared(lines: Seq<Seq<char>>, i: int) -> Option<char>
    decreases lines.len() - i,
{
    if i >= lines.len() || i >= 30 {
        None
    } else {
        match declared_separator(lines[i]) {
            Some(c) => Some(c),
            None => first_declared(lines, i + 1),
        }
    }
}

/// The separator of an export: the first one declared in its first thirty
/// lines, or `;`.
pub open spec fn separator_of(lines: Seq<Seq<char>>) -> char {
    match first_declared(lines, 0) {
        Some(c) => c,
        None => ';',
    }
}

fn declared_separator_of(line: &str) -> (r: Option<char>)
    ensures
        r == declared_separator(line@),
{
    let c = chars_of(line);
    let prefix = chars_of("{CSV separator:");
    proof {
        reveal_strlit("{CSV separator:");
        assert(prefix@.len() == 15);
    }
    if c.len() < 16 || c[c.len() - 1] != '}' {
        return None;
    }
    let mut k: usize = 0;
    while k < 15
        invariant
            k <= 15,
            c@ == line@,
            c@.len() >= 16,
            prefix@ == "{CSV separator:"@,
            prefix@.len() == 15,
            forall|m: int| 0 <= m < k ==> c@[m] == prefix@[m],
        decreases 15 - k,
    {
        if c[k] != prefix[k] {
            proof {
                assert(c@.subrange(0, 15)[k as int] != prefix@[k as int]);
            }
            return None;
        }
        k = k + 1;
    }
    assert(c@.subrange(0, 15) =~= prefix@);
    let mut inner: Vec<char> = Vec::new();
    let mut m: usize = 15;
    while m < c.len() - 1
        invariant
            15 <= m <= c@.len() - 1,
            c@.len() >= 16,
            inner@ == c@.subrange(15, m as int),
        decreases c@.len() - 1 - m,
    {
        inner.push(c[m]);
        m = m + 1;
        assert(inner@ =~= c@.subrange(15, m as int));
    }
    let v = trim_chars(inner.as_slice());
    let text = string_of(v.as_slice());
    let l = to_ascii_lowercase(text.as_str());
    if str_eq(l.as_str(), "semicolon") {
        Some(';')
    } else if str_eq(l.as_str(), "comma") {
        Some(',')
    } else if v.len() > 0 {
        Some(v[0])
    } else {
        None
    }
}

/// The separator of an export's lines.
pub fn separator(lines: &Vec<String>) -> (r: char)
    ensures
        r == separator_of(lines@.map_values(|l: String| l@)),
{
    let ghost lv = lines@.map_values(|l: String| l@);
    let mut i: usize = 0;
    while i < lines.len() && i < 30
        invariant
            i <= lines@.len(),
            lv == lines@.map_values(|l: String| l@),
            first_declared(lv, 0) == first_declared(lv, i as int),
        decreases lines@.len() - i,
    {
        assert(lv[i as int] == lines@[i as int]@);
        match declared_separator_of(lines[i].as_str()) {
            Some(c) => return c,
            None => {},
        }
        i = i + 1;
    }
    ';'
}

// ---------------------------------------------------------------------------
// Process blocks
// ---------------------------------------------------------------------------

/// A section of a process block: its heading and its rows.
#[derive(Debug)]
pub struct Section {
    pub name: String,
    pub rows: Vec<String>,
}

/// A process block and its position among the export's blocks (from 1).
#[derive(Debug)]
pub struct ProcessBlock {
    pub index: usize,
    pub sections: Vec<Section>,
}

pub open spec fn texts(v: Seq<String>) -> Seq<Seq<char>> {
    v.map_values(|s: String| s@)
}

pub open spec fn section_view(s: Section) -> (Seq<char>, Seq<Seq<char>>) {
    (s.name@, texts(s.rows@))
}

pub open spec fn section_views(v: Seq<Section>) -> Seq<(Seq<char>, Seq<Seq<char>>)> {
    v.map_values(|s: Section| section_view(s))
}

pub open spec fn block_views(v: Seq<ProcessBlock>) -> Seq<(nat, Seq<(Seq<char>, Seq<Seq<char>>)>)> {
    v.map_values(|b: ProcessBlock| (b.index as nat, section_views(b.sections@)))
}

/// The rows of a section from line `j`: trimmed lines up to a blank line or
/// `End`, which is consumed; then the next line, and whether `End` closed the
/// rows.
pub open spec fn rows_from(lines: Seq<Seq<char>>, j: int) -> (Seq<Seq<char>>, int, bool)
    decreases lines.len() - j,
{
    if j < 0 || j >= lines.len() {
        (Seq::empty(), j, false)
    } else {
        let row = trim(lines[j]);
        if row.len() == 0 {
            (Seq::empty(), j + 1, false)
        } else if row == "End"@ {
            (Seq::empty(), j + 1, true)
        } else {
            let r = rows_from(lines, j + 1);
            (seq![row] + r.0, r.1, r.2)
        }
    }
}

pub proof fn lemma_rows_from_bounds(lines: Seq<Seq<char>>, j: int)
    requires
        0 <= j <= lines.len(),
    ensures
        j <= rows_from(lines, j).1 <= lines.len(),
        j < lines.len() ==> rows_from(lines, j).1 > j,
    decreases lines.len() - j,
{
    if j < lines.len() {
        lemma_rows_from_bounds(lines, j + 1);
    }
}

/// The position of the first section with a heading.
pub open spec fn section_index(secs: Seq<(Seq<char>, Seq<Seq<char>>)>, name: Seq<char>) -> Option<int>
    decreases secs.len(),
{
    if secs.len() == 0 {
        None
    } else if secs.last().0 == name && section_index(secs.drop_last(), name) is None {
        Some(secs.len() - 1)
    } else {
        section_index(secs.drop_last(), name)
    }
}

/// A section read again replaces the rows of the earlier one with its heading;
/// a new heading is added at the end.
pub open spec fn put_section(
    secs: Seq<(Seq<char>, Seq<Seq<char>>)>,
    name: Seq<char>,
    rows: Seq<Seq<char>>,
) -> Seq<(Seq<char>, Seq<Seq<char>>)> {
    match section_index(secs, name) {
        Some(i) => secs.update(i, (name, rows)),
        None => secs.push((name, rows)),
    }
}

/// The sections of a block from line `j`, up to its `End` line (consumed) or
/// the end of the text; then the next line, and whether the text ended.
pub open spec fn body_from(
    lines: Seq<Seq<char>>,
    j: int,
    secs: Seq<(Seq<char>, Seq<Seq<char>>)>,
) -> (Seq<(Seq<char>, Seq<Seq<char>>)>, int, bool)
    decreases lines.len() - j,
{
    if j < 0 || j >= lines.len() {
        (secs, j, true)
    } else {
        let line = trim(lines[j]);
        if line == "End"@ {
            (secs, j + 1, false)
        } else if line.len() == 0 {
            body_from(lines, j + 1, secs)
        } else {
            let r = rows_from(lines, j + 1);
            let next = put_section(secs, line, r.0);
            if r.2 {
                (next, r.1, false)
            } else {
                proof {
                    lemma_rows_from_bounds(lines, j + 1);
                }
                body_from(lines, r.1, next)
            }
        }
    }
}

pub proof fn lemma_body_from_bounds(lines: Seq<Seq<char>>, j: int, secs: Seq<(Seq<char>, Seq<Seq<char>>)>)
    requires
        0 <= j <= lines.len(),
    ensures
        j <= body_from(lines, j, secs).1 <= lines.len(),
        j < lines.len() ==> body_from(lines, j, secs).1 > j,
    decreases lines.len() - j,
{
    if j < lines.len() {
        let line = trim(lines[j]);
        if line == "End"@ {
        } else if line.len() == 0 {
            lemma_body_from_bounds(lines, j + 1, secs);
        } else {
            lemma_rows_from_bounds(lines, j + 1);
            let r = rows_from(lines, j + 1);
            if !r.2 {
                lemma_body_from_bounds(lines, r.1, put_section(secs, line, r.0));
            }
        }
    }
}

/// The process blocks from line `i`, numbered after `count`: each begins at a
/// `Process` line; a block that runs to the end of the text is the last.
pub open spec fn blocks_from(lines: Seq<Seq<char>>, i: int, count: nat) -> Seq<(nat, Seq<(Seq<char>, Seq<Seq<char>>)>)>
    decreases lines.len() - i,
{
    if i < 0 || i >= lines.len() {
        Seq::empty()
    } else if trim(lines[i]) != "Process"@ {
        blocks_from(lines, i + 1, count)
    } else {
        let b = body_from(lines, i + 1, Seq::empty());
        let block = (count + 1, b.0);
        if b.2 {
            seq![block]
        } else {
            proof {
                lemma_body_from_bounds(lines, i + 1, Seq::empty());
            }
            seq![block] + blocks_from(lines, b.1, count + 1)
        }
    }
}

/// The rows of a section from line `j` (see `rows_from`).
fn read_rows(lines: &Vec<String>, j: usize) -> (r: (Vec<String>, usize, bool))
    requires
        j <= lines@.len(),
    ensures
        (texts(r.0@), r.1 as int, r.2) == rows_from(texts(lines@), j as int),
{
    let ghost lv = texts(lines@);
    let mut acc: Vec<String> = Vec::new();
    let mut k: usize = j;
    assert(texts(acc@) + rows_from(lv, j as int).0 =~= rows_from(lv, j as int).0);
    loop
        invariant
            j <= k <= lines@.len(),
            lv == texts(lines@),
            rows_from(lv, j as int) == (texts(acc@) + rows_from(lv, k as int).0, rows_from(lv, k as int).1, rows_from(lv, k as int).2),
        decreases lines@.len() - k,
    {
        if k >= lines.len() {
            assert(texts(acc@) + Seq::<Seq<char>>::empty() =~= texts(acc@));
            return (acc, k, false);
        }
        assert(lv[k as int] == lines@[k as int]@);
        let row = trim_str(lines[k].as_str());
        if row.as_str().is_empty() {
            assert(row@.len() == 0);
            assert(texts(acc@) + Seq::<Seq<char>>::empty() =~= texts(acc@));
            return (acc, k + 1, false);
        }
        if str_eq(row.as_str(), "End") {
            assert(texts(acc@) + Seq::<Seq<char>>::empty() =~= texts(acc@));
            return (acc, k + 1, true);
        }
        let ghost before = texts(acc@);
        let ghost tail = rows_from(lv, k + 1).0;
        acc.push(row);
        assert(texts(acc@) =~= before.push(trim(lv[k as int])));
        assert(before + (seq![trim(lv[k as int])] + tail) =~= texts(acc@) + tail);
        k = k + 1;
    }
}

/// Adds a section (see `put_section`).
fn put_section_into(secs: &mut Vec<Section>, name: String, rows: Vec<String>)
    ensures
        section_views(final(secs)@) == put_section(section_views(old(secs)@), name@, texts(rows@)),
{
    let ghost sv = section_views(secs@);
    let mut i: usize = 0;
    while i < secs.len()
        invariant
            i <= secs@.len(),
            sv == section_views(secs@),
            *secs == *old(secs),
            forall|k: int| 0 <= k < i ==> (#[trigger] secs@[k]).name@ != name@,
        decreases secs@.len() - i,
    {
        if str_eq(secs[i].name.as_str(), name.as_str()) {
            proof {
                lemma_section_index_first(sv, name@, i as int);
            }
            let ghost new_section = (name@, texts(rows@));
            secs.set(i, Section { name, rows });
            assert(section_views(secs@) =~= sv.update(i as int, new_section));
            return;
        }
        i = i + 1;
    }
    proof {
        lemma_section_index_none(sv, name@);
    }
    let ghost new_section = (name@, texts(rows@));
    secs.push(Section { name, rows });
    assert(section_views(secs@) =~= sv.push(new_section));
}

proof fn lemma_section_index_first(secs: Seq<(Seq<char>, Seq<Seq<char>>)>, name: Seq<char>, i: int)
    requires
        0 <= i < secs.len(),
        secs[i].0 == name,
        forall|k: int| 0 <= k < i ==> #[trigger] secs[k].0 != name,
    ensures
        section_index(secs, name) == Some(i),
    decreases secs.len(),
{
    if i < secs.len() - 1 {
        lemma_section_index_first(secs.drop_last(), name, i);
    } else {
        lemma_section_index_none(secs.drop_last(), name);
    }
}

proof fn lemma_section_index_none(secs: Seq<(Seq<char>, Seq<Seq<char>>)>, name: Seq<char>)
    requires
        forall|k: int| 0 <= k < secs.len() ==> #[trigger] secs[k].0 != name,
    ensures
        section_index(secs, name) is None,
    decreases secs.len(),
{
    if secs.len() > 0 {
        lemma_section_index_none(secs.drop_last(), name);
    }
}

/// The sections of a block from line `j` (see `body_from`).
fn read_body(lines: &Vec<String>, j: usize) -> (r: (Vec<Section>, usize, bool))
    requires
        j <= lines@.len(),
    ensures
        (section_views(r.0@), r.1 as int, r.2) == body_from(texts(lines@), j as int, Seq::empty()),
{
    let ghost lv = texts(lines@);
    let mut secs: Vec<Section> = Vec::new();
    let mut k: usize = j;
    assert(section_views(secs@) =~= Seq::<(Seq<char>, Seq<Seq<char>>)>::empty());
    loop
        invariant
            j <= k <= lines@.len(),
            lv == texts(lines@),
            body_from(lv, j as int, Seq::empty()) == body_from(lv, k as int, section_views(secs@)),
        decreases lines@.len() - k,
    {
        if k >= lines.len() {
            return (secs, k, true);
        }
        assert(lv[k as int] == lines@[k as int]@);
        let line = trim_str(lines[k].as_str());
        if str_eq(line.as_str(), "End") {
            return (secs, k + 1, false);
        }
        if line.as_str().is_empty() {
            assert(line@.len() == 0);
            k = k + 1;
        } else {
            proof {
                lemma_rows_from_bounds(lv, k + 1);
            }
            let (rows, next, ended) = read_rows(lines, k + 1);
            put_section_into(&mut secs, line, rows);
            if ended {
                return (secs, next, false);
            }
            k = next;
        }
    }
}

/// The process blocks of an export's lines (see `blocks_from`).
pub fn process_blocks(lines: &Vec<String>) -> (r: Vec<ProcessBlock>)
    ensures
        block_views(r@) == blocks_from(texts(lines@), 0, 0),
{
    let ghost lv = texts(lines@);
    let mut blocks: Vec<ProcessBlock> = Vec::new();
    let mut i: usize = 0;
    let mut count: usize = 0;
    assert(block_views(blocks@) + blocks_from(lv, 0, 0) =~= blocks_from(lv, 0, 0));
    while i < lines.len()
        invariant
            i <= lines@.len(),
            count <= i,
            lv == texts(lines@),
            blocks_from(lv, 0, 0) == block_views(blocks@) + blocks_from(lv, i as int, count as nat),
        decreases lines@.len() - i,
    {
        assert(lv[i as int] == lines@[i as int]@);
        let head = trim_str(lines[i].as_str());
        if !str_eq(head.as_str(), "Process") {
            i = i + 1;
        } else {
            proof {
                lemma_body_from_bounds(lv, i + 1, Seq::empty());
            }
            let (sections, next, eof) = read_body(lines, i + 1);
            let ghost before = block_views(blocks@);
            let ghost block = ((count + 1) as nat, section_views(sections@));
            blocks.push(ProcessBlock { index: count + 1, sections });
            assert(block_views(blocks@) =~= before.push(block));
            if eof {
                assert(before + seq![block] =~= before.push(block));
                return blocks;
            }
            assert(before + (seq![block] + blocks_from(lv, next as int, (count + 1) as nat)) =~= block_views(blocks@) + blocks_from(lv, next as int, (count + 1) as nat));
            count = count + 1;
            i = next;
        }
    }
    assert(block_views(blocks@) + Seq::empty() =~= block_views(blocks@));
    blocks
}

// ---------------------------------------------------------------------------
// Exchanges and entities
// ---------------------------------------------------------------------------

/// Where a section's rows keep the amount and the unit, and whether its flows
/// are inputs.
pub open spec fn exchange_layout(section: Seq<char>) -> Option<(int, int, bool)> {
    if section == "Products"@ || section == "Avoided products"@ {
        Some((2, 1, false))
    } else if section == "Materials/fuels"@ || section == "Electricity/heat"@ {
        Some((2, 1, true))
    } else if section == "Resources"@ || section == "Waste to treatment"@ {
        Some((3, 2, true))
    } else if section == "Emissions to air"@ || section == "Emissions to water"@ || section
        == "Emissions to soil"@ || section == "Final waste flows"@ || section
        == "Non material emissions"@ || section == "Social issues"@ || section
        == "Economic issues"@ {
        Some((3, 2, false))
    } else {
        None
    }
}

pub fn exchange_indexes(section: &str) -> (r: Option<(usize, usize, bool)>)
    ensures
        match r {
            Some((a, u, i)) => exchange_layout(section@) == Some((a as int, u as int, i)),
            None => exchange_layout(section@) is None,
        },
{
    if str_eq(section, "Products") || str_eq(section, "Avoided products") {
        Some((2, 1, false))
    } else if str_eq(section, "Materials/fuels") || str_eq(section, "Electricity/heat") {
        Some((2, 1, true))
    } else if str_eq(section, "Resources") || str_eq(section, "Waste to treatment") {
        Some((3, 2, true))
    } else if str_eq(section, "Emissions to air") || str_eq(section, "Emissions to water")
        || str_eq(section, "Emissions to soil") || str_eq(section, "Final waste flows") || str_eq(
        section,
        "Non material emissions",
    ) || str_eq(section, "Social issues") || str_eq(section, "Economic issues") {
        Some((3, 2, false))
    } else {
        None
    }
}

/// The flow type of a section's flows.
pub open spec fn section_flow_type(section: Seq<char>) -> Seq<char> {
    if section == "Final waste flows"@ || section == "Waste to treatment"@ {
        "WASTE_FLOW"@
    } else if section == "Resources"@ || section == "Emissions to air"@ || section
        == "Emissions to water"@ || section == "Emissions to soil"@ || section
        == "Non material emissions"@ || section == "Social issues"@ || section
        == "Economic issues"@ {
        "ELEMENTARY_FLOW"@
    } else {
        "PRODUCT_FLOW"@
    }
}

pub fn flow_type(section: &str) -> (r: &'static str)
    ensures
        r@ == section_flow_type(section@),
{
    if str_eq(section, "Final waste flows") || str_eq(section, "Waste to treatment") {
        "WASTE_FLOW"
    } else if str_eq(section, "Resources") || str_eq(section, "Emissions to air") || str_eq(
        section,
        "Emissions to water",
    ) || str_eq(section, "Emissions to soil") || str_eq(section, "Non material emissions")
        || str_eq(section, "Social issues") || str_eq(section, "Economic issues") {
        "ELEMENTARY_FLOW"
    } else {
        "PRODUCT_FLOW"
    }
}

/// The first row of the first section with a heading.
pub open spec fn first_row(secs: Seq<(Seq<char>, Seq<Seq<char>>)>, key: Seq<char>) -> Option<Seq<char>>
    decreases secs.len(),
{
    if secs.len() == 0 {
        None
    } else if secs[0].0 == key {
        if secs[0].1.len() > 0 {
            Some(secs[0].1[0])
        } else {
            None
        }
    } else {
        first_row(secs.drop_first(), key)
    }
}

pub fn first<'a>(sections: &'a Vec<Section>, key: &str) -> (r: Option<&'a str>)
    ensures
        match r {
            Some(v) => first_row(section_views(sections@), key@) == Some(v@),
            None => first_row(section_views(sections@), key@) is None,
        },
{
    let ghost sv = section_views(sections@);
    let mut i: usize = 0;
    assert(sv.subrange(0, sv.len() as int) =~= sv);
    while i < sections.len()
        invariant
            i <= sections@.len(),
            sv == section_views(sections@),
            first_row(sv, key@) == first_row(sv.subrange(i as int, sv.len() as int), key@),
        decreases sections@.len() - i,
    {
        let ghost rest = sv.subrange(i as int, sv.len() as int);
        assert(rest[0] == section_view(sections@[i as int]));
        assert(rest.drop_first() =~= sv.subrange(i + 1, sv.len() as int));
        if str_eq(sections[i].name.as_str(), key) {
            if sections[i].rows.len() > 0 {
                assert(texts(sections@[i as int].rows@)[0] == sections@[i as int].rows@[0]@);
                return Some(sections[i].rows[0].as_str());
            }
            return None;
        }
        i = i + 1;
    }
    None
}

/// One exchange row of a section. The amount is the text of the amount field,
/// or `0` when the row has none.
#[derive(Debug)]
pub struct SimaProExchange {
    pub internal_id: usize,
    pub flow_name: String,
    pub is_input: bool,
    pub amount_text: String,
    pub unit_name: Option<String>,
}

/// A field of a row: trimmed, with DEL characters standing for line breaks.
pub open spec fn field(part: Seq<char>) -> Seq<char> {
    trim(part).map_values(|c: char| if c == '\u{7f}' { '\n' } else { c })
}

pub open spec fn fields(row: Seq<char>, sep: char) -> Seq<Seq<char>> {
    split(row, sep).map_values(|p: Seq<char>| field(p))
}

fn field_of(part: &Vec<char>) -> (r: String)
    ensures
        r@ == field(part@),
{
    let t = trim_chars(part.as_slice());
    let mut out: Vec<char> = Vec::new();
    let mut i: usize = 0;
    while i < t.len()
        invariant
            i <= t@.len(),
            out@ == t@.subrange(0, i as int).map_values(|c: char| if c == '\u{7f}' { '\n' } else { c }),
        decreases t@.len() - i,
    {
        let c = t[i];
        out.push(if c == '\u{7f}' { '\n' } else { c });
        i = i + 1;
        assert(out@ =~= t@.subrange(0, i as int).map_values(|c: char| if c == '\u{7f}' { '\n' } else { c }));
    }
    assert(t@.subrange(0, t@.len() as int) =~= t@);
    string_of(out.as_slice())
}

/// The exchange a row of a section describes: only sections with an exchange
/// layout have exchanges, and a row without a flow name has none.
pub fn exchange(section: &str, row: &str, separator: char, row_index: usize) -> (r: Option<SimaProExchange>)
    ensures
        match exchange_layout(section@) {
            None => r is None,
            Some((a, u, input)) => {
                let f = fields(row@, separator);
                if f[0].len() == 0 {
                    r is None
                } else {
                    r matches Some(x) && x.internal_id == row_index && x.flow_name@ == f[0]
                        && x.is_input == input
                        && x.amount_text@ == (if a < f.len() { f[a] } else { "0"@ })
                        && (if u < f.len() { x.unit_name matches Some(n) && n@ == f[u] } else { x.unit_name is None })
                }
            },
        },
{
    let (amount_index, unit_index, is_input) = match exchange_indexes(section) {
        Some(layout) => layout,
        None => return None,
    };
    let c = chars_of(row);
    let parts = split_chars(c.as_slice(), separator);
    proof {
        crate::text::lemma_split_nonempty(row@, separator);
    }
    let ghost f = fields(row@, separator);
    assert(parts@[0]@ == split(row@, separator)[0]);
    let name = field_of(&parts[0]);
    if name.as_str().is_empty() {
        assert(name@.len() == 0);
        return None;
    }
    let amount_text = if amount_index < parts.len() {
        assert(parts@[amount_index as int]@ == split(row@, separator)[amount_index as int]);
        field_of(&parts[amount_index])
    } else {
        owned("0")
    };
    let unit_name = if unit_index < parts.len() {
        assert(parts@[unit_index as int]@ == split(row@, separator)[unit_index as int]);
        Some(field_of(&parts[unit_index]))
    } else {
        None
    };
    Some(SimaProExchange { internal_id: row_index, flow_name: name, is_input, amount_text, unit_name })
}

/// The name of a block's process: its first `Process name` row, or a name made
/// from its position.
pub open spec fn process_name_of(secs: Seq<(Seq<char>, Seq<Seq<char>>)>, index: nat) -> Seq<char> {
    match first_row(secs, "Process name"@) {
        Some(n) => n,
        None => "SimaPro process "@ + decimal(index),
    }
}

/// The process entity of a block of an export entry with key `source`: its
/// identity is derived from the entry, the block's position and its name, and
/// its description is the first `Comment` row.
pub fn process_entity(sections: &Vec<Section>, source: &str, index: usize) -> (r: CanonicalEntity)
    ensures
        ({
            let secs = section_views(sections@);
            let name = process_name_of(secs, index as nat);
            &&& r.entity_type@ == "processes"@
            &&& r.name matches Some(n) && n@ == name
            &&& r.internal_id@ == uuid_v5_url(vstd::utf8::encode_utf8("simapro/process/"@ + source@ + "/"@ + decimal(index as nat) + "/"@ + name))
            &&& r.external_id is None
            &&& r.category_path@.len() == 0
            &&& r.raw.member_text("description"@) == Some(match first_row(secs, "Comment"@) {
                Some(c) => c,
                None => "Imported from SimaPro CSV."@,
            })
        }),
{
    let name = match first(sections, "Process name") {
        Some(n) => owned(n),
        None => concat("SimaPro process ", decimal_string(index as u64).as_str()),
    };
    let head = concat3("simapro/process/", source, "/");
    let mid = concat3(head.as_str(), decimal_string(index as u64).as_str(), "/");
    let seed = concat(mid.as_str(), name.as_str());
    let id = stable_id(seed.as_str());
    proof {
        assert(seed@ == "simapro/process/"@ + source@ + "/"@ + decimal(index as nat) + "/"@ + name@);
    }
    let description = match first(sections, "Comment") {
        Some(c) => owned(c),
        None => owned("Imported from SimaPro CSV."),
    };
    let mut raw: Vec<(String, JsonValue)> = Vec::new();
    raw.push((owned("description"), JsonValue::String(description)));
    let raw = JsonValue::Object(raw);
    proof {
        crate::json::lemma_member_index(raw->Object_0@, "description"@);
    }
    CanonicalEntity {
        entity_type: owned("processes"),
        internal_id: id,
        external_id: None,
        name: Some(name),
        category_path: Vec::new(),
        raw,
    }
}

/// The flow entity of an exchange of a section: its identity is derived from
/// the entry, the section and the flow name; its category is the section; its
/// source fields are the section's flow type and the exchange's unit.
pub fn flow_entity(section: &str, exchange: &SimaProExchange, source: &str) -> (r: CanonicalEntity)
    ensures
        r.entity_type@ == "flows"@,
        r.name matches Some(n) && n@ == exchange.flow_name@,
        r.internal_id@ == uuid_v5_url(vstd::utf8::encode_utf8("simapro/flow/"@ + source@ + "/"@ + section@ + "/"@ + exchange.flow_name@)),
        r.external_id is None,
        texts(r.category_path@) == seq![section@],
        r.raw.member_text("flowType"@) == Some(section_flow_type(section@)),
        r.raw.member("unitName"@) == Some(match exchange.unit_name {
            Some(u) => JsonValue::String(u),
            None => JsonValue::Null,
        }),
{
    let head = concat3("simapro/flow/", source, "/");
    let mid = concat3(head.as_str(), section, "/");
    let seed = concat(mid.as_str(), exchange.flow_name.as_str());
    let id = stable_id(seed.as_str());
    let unit = match &exchange.unit_name {
        Some(u) => JsonValue::String(u.clone()),
        None => JsonValue::Null,
    };
    let mut raw: Vec<(String, JsonValue)> = Vec::new();
    raw.push((owned("flowType"), JsonValue::String(owned(flow_type(section)))));
    raw.push((owned("unitName"), unit));
    let raw = JsonValue::Object(raw);
    proof {
        reveal_strlit("flowType");
        reveal_strlit("unitName");
        crate::json::lemma_member_index(raw->Object_0@, "flowType"@);
        crate::json::lemma_member_index(raw->Object_0@, "unitName"@);
        assert(raw->Object_0@[0].0@ == "flowType"@);
        assert("flowType"@[0] != "unitName"@[0]);
        assert(raw->Object_0@[0].0@ != "unitName"@);
        assert(raw->Object_0@.drop_first()[0].0@ == "unitName"@);
        assert(crate::json::member_index(raw->Object_0@.drop_first(), "unitName"@) == Some(0int));
        assert(crate::json::member_index(raw->Object_0@, "unitName"@) == Some(1int));
        assert(raw->Object_0@[1].1 == (match exchange.unit_name {
            Some(u) => JsonValue::String(u),
            None => JsonValue::Null,
        }));
    }
    let mut path: Vec<String> = Vec::new();
    path.push(owned(section));
    assert(texts(path@) =~= seq![section@]);
    CanonicalEntity {
        entity_type: owned("flows"),
        internal_id: id,
        external_id: None,
        name: Some(exchange.flow_name.clone()),
        category_path: path,
        raw,
    }
}

} // verus!
