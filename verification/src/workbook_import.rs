//! Importing an openLCA process workbook: its archive entries and sheets are
//! read (see `workbook_reader`), and its rows become the process, the flows
//! and the process exchanges (see `openlca_workbook`).
use vstd::prelude::*;

use crate::json::{JsonData, JsonValue, data, lemma_members_view_data, members_view};
use crate::model::CanonicalEntity;
use crate::normalization::{clone_strings, opt_view, texts};
use crate::openlca_entities::entity_facts;
use crate::openlca_workbook::{
    cell, exchange_flow_key, exchange_from_row, flow_from_row, flow_key_of, new_exchange_flow, process_entity,
    row_exchange_of, row_flow_of, workbook_process_of,
};
use crate::process_writer::text_or;
use crate::table::TextMap;
use crate::text::str_eq;
use crate::units::json_view;
use crate::workbook_reader::{
    WorkbookError, bytes_result, entry_read, general_information, general_scan, keyed_views, layout_of,
    read_workbook_entry, rows_result, shared_strings, shared_strings_of, sheet_reads_to, sheet_rows, table_rows,
    table_scan, text_views, workbook_layout, zip_entry_content, zip_entry_facts, zip_entry_info,
};
use crate::xml::{XmlNode, XmlNodeError};
use crate::xml_parse::parses_to;

verus! {

/// What an entity states: type, id, external id, name, category path and fields.
pub type EntityFacts = (Seq<char>, Seq<char>, Option<Seq<char>>, Option<Seq<char>>, Seq<Seq<char>>, Map<Seq<char>, JsonData>);

/// What one workbook gives: its process (none where the General information
/// sheet holds no field), the flows to store in order, and the exchanges of
/// the process.
#[derive(Debug)]
pub struct WorkbookImport {
    pub process: Option<CanonicalEntity>,
    pub flows: Vec<CanonicalEntity>,
    pub exchanges: Vec<TextMap<JsonValue>>,
}

pub open spec fn opt_facts(o: Option<CanonicalEntity>) -> Option<EntityFacts> {
    match o {
        Some(e) => Some(entity_facts(e)),
        None => None,
    }
}

pub open spec fn all_facts(s: Seq<CanonicalEntity>) -> Seq<EntityFacts> {
    s.map_values(|e: CanonicalEntity| entity_facts(e))
}

pub open spec fn exchange_views(s: Seq<TextMap<JsonValue>>) -> Seq<Map<Seq<char>, JsonData>> {
    s.map_values(|x: TextMap<JsonValue>| json_view(x.view()))
}

/// The import as values: the process, the flows and the exchanges.
pub open spec fn import_facts(i: WorkbookImport) -> (Option<EntityFacts>, Seq<EntityFacts>, Seq<Map<Seq<char>, JsonData>>) {
    (opt_facts(i.process), all_facts(i.flows@), exchange_views(i.exchanges@))
}

/// A copy of an entity.
pub fn copy_entity(e: &CanonicalEntity) -> (r: CanonicalEntity)
    ensures
        entity_facts(r) == entity_facts(*e),
{
    let raw = e.raw.duplicate();
    proof {
        lemma_members_view_data(raw, e.raw);
    }
    CanonicalEntity {
        entity_type: e.entity_type.clone(),
        internal_id: e.internal_id.clone(),
        external_id: match &e.external_id {
            Some(x) => Some(x.clone()),
            None => None,
        },
        name: match &e.name {
            Some(x) => Some(x.clone()),
            None => None,
        },
        category_path: clone_strings(&e.category_path),
        raw,
    }
}

/// The last entity of a list whose external id is `key`.
pub open spec fn last_keyed(s: Seq<EntityFacts>, key: Seq<char>) -> Option<EntityFacts>
    decreases s.len(),
{
    if s.len() == 0 {
        None
    } else if s.last().2 == Some(key) {
        Some(s.last())
    } else {
        last_keyed(s.drop_last(), key)
    }
}

fn last_keyed_in<'a>(s: &'a Vec<CanonicalEntity>, key: &str) -> (r: Option<&'a CanonicalEntity>)
    ensures
        match last_keyed(all_facts(s@), key@) {
            Some(f) => r matches Some(e) && entity_facts(*e) == f,
            None => r is None,
        },
{
    let mut i: usize = s.len();
    assert(all_facts(s@).subrange(0, i as int) =~= all_facts(s@));
    while i > 0
        invariant
            i <= s@.len(),
            last_keyed(all_facts(s@), key@) == last_keyed(all_facts(s@).subrange(0, i as int), key@),
        decreases i,
    {
        let ghost sub = all_facts(s@).subrange(0, i as int);
        assert(sub.last() == entity_facts(s@[i - 1]));
        assert(sub.drop_last() =~= all_facts(s@).subrange(0, i - 1));
        let hit = match &s[i - 1].external_id {
            Some(x) => str_eq(x.as_str(), key),
            None => false,
        };
        if hit {
            return Some(&s[i - 1]);
        }
        i = i - 1;
    }
    assert(all_facts(s@).subrange(0, 0) =~= Seq::<EntityFacts>::empty());
    None
}

/// The flow that a key finds: the last flow of the workbook so far with that
/// external id, else the last one the store already holds; none without a key.
fn find_flow(known: &Vec<CanonicalEntity>, added: &Vec<CanonicalEntity>, key: &Option<String>) -> (r: Option<CanonicalEntity>)
    ensures
        opt_facts(r) == match key {
            Some(k) => last_keyed(all_facts(known@) + all_facts(added@), k@),
            None => None,
        },
{
    let key = match key {
        Some(k) => k.as_str(),
        None => {
            return None;
        },
    };
    proof {
        lemma_last_keyed_append(all_facts(known@), all_facts(added@), key@);
    }
    match last_keyed_in(added, key) {
        Some(e) => Some(copy_entity(e)),
        None => match last_keyed_in(known, key) {
            Some(e) => Some(copy_entity(e)),
            None => None,
        },
    }
}

proof fn lemma_last_keyed_append(a: Seq<EntityFacts>, b: Seq<EntityFacts>, key: Seq<char>)
    ensures
        last_keyed(a + b, key) == match last_keyed(b, key) {
            Some(f) => Some(f),
            None => last_keyed(a, key),
        },
    decreases b.len(),
{
    if b.len() == 0 {
        assert(a + b =~= a);
    } else {
        assert((a + b).drop_last() =~= a + b.drop_last());
        assert((a + b).last() == b.last());
        lemma_last_keyed_append(a, b.drop_last(), key);
    }
}

// ---------------------------------------------------------------------------
// Rows into flows and exchanges
// ---------------------------------------------------------------------------

/// The flows of the Flows rows, in order (see `row_flow_of`).
pub open spec fn flow_rows_of(rows: Seq<TextMap<String>>, source: Seq<char>) -> Seq<EntityFacts>
    decreases rows.len(),
{
    if rows.len() == 0 {
        Seq::empty()
    } else {
        let before = flow_rows_of(rows.drop_last(), source);
        match row_flow_of(rows.last().view(), source) {
            Some(f) => before.push(f),
            None => before,
        }
    }
}

/// The number of the next exchange: one more than those so far, at most the
/// largest `usize`.
pub open spec fn next_index(n: nat) -> nat {
    if n + 1 > usize::MAX {
        usize::MAX as nat
    } else {
        n + 1
    }
}

/// The flow of an exchange row: the flow the key finds, or a new one, with
/// the row's unit.
pub open spec fn exchange_flow_of(row: Map<Seq<char>, String>, name: Seq<char>, source: Seq<char>, found: Option<EntityFacts>) -> EntityFacts {
    let category = text_or(cell(row, "category"@), Seq::empty());
    let base = match found {
        Some(k) => k,
        None => new_exchange_flow(name, category, source),
    };
    (base.0, base.1, base.2, base.3, base.4, match cell(row, "unit"@) {
        Some(u) => base.5.insert("unitName"@, JsonData::Text(u)),
        None => base.5,
    })
}

/// The flows and exchanges after the rows of an Inputs or Outputs sheet: each
/// row that names a flow adds its flow, found by its key among the flows the
/// store holds and those added so far, and its exchange, numbered on.
pub open spec fn exchange_rows_of(
    rows: Seq<TextMap<String>>,
    source: Seq<char>,
    is_input: bool,
    known: Seq<EntityFacts>,
    flows: Seq<EntityFacts>,
    exchanges: Seq<Map<Seq<char>, JsonData>>,
) -> (Seq<EntityFacts>, Seq<Map<Seq<char>, JsonData>>)
    decreases rows.len(),
{
    if rows.len() == 0 {
        (flows, exchanges)
    } else {
        let (fs, xs) = exchange_rows_of(rows.drop_last(), source, is_input, known, flows, exchanges);
        let row = rows.last().view();
        match cell(row, "flow"@) {
            None => (fs, xs),
            Some(name) => {
                let key = flow_key_of(name, text_or(cell(row, "category"@), Seq::empty()));
                let flow = exchange_flow_of(row, name, source, last_keyed(known + fs, key));
                (fs.push(flow), xs.push(row_exchange_of(row, is_input, next_index(xs.len()), flow.1, flow.3)))
            },
        }
    }
}

/// Law: every exchange an Inputs or Outputs sheet adds comes with exactly one
/// flow, so the sheet adds as many flows as exchanges; the flows and
/// exchanges before it stay as they were.
pub proof fn law_each_exchange_adds_one_flow(
    rows: Seq<TextMap<String>>,
    source: Seq<char>,
    is_input: bool,
    known: Seq<EntityFacts>,
    flows: Seq<EntityFacts>,
    exchanges: Seq<Map<Seq<char>, JsonData>>,
)
    ensures
        ({
            let (fs, xs) = exchange_rows_of(rows, source, is_input, known, flows, exchanges);
            &&& fs.len() >= flows.len() && xs.len() >= exchanges.len()
            &&& fs.len() - flows.len() == xs.len() - exchanges.len()
            &&& fs.subrange(0, flows.len() as int) == flows
            &&& xs.subrange(0, exchanges.len() as int) == exchanges
        }),
    decreases rows.len(),
{
    if rows.len() > 0 {
        law_each_exchange_adds_one_flow(rows.drop_last(), source, is_input, known, flows, exchanges);
        let (fs, xs) = exchange_rows_of(rows.drop_last(), source, is_input, known, flows, exchanges);
        let (gs, ys) = exchange_rows_of(rows, source, is_input, known, flows, exchanges);
        let row = rows.last().view();
        match cell(row, "flow"@) {
            Some(name) => {
                let key = flow_key_of(name, text_or(cell(row, "category"@), Seq::empty()));
                let flow = exchange_flow_of(row, name, source, last_keyed(known + fs, key));
                let x = row_exchange_of(row, is_input, next_index(xs.len()), flow.1, flow.3);
                assert(gs == fs.push(flow));
                assert(ys == xs.push(x));
                assert(gs.subrange(0, flows.len() as int) =~= fs.subrange(0, flows.len() as int));
                assert(ys.subrange(0, exchanges.len() as int) =~= xs.subrange(0, exchanges.len() as int));
            },
            None => {},
        }
    }
}

/// Adds the flows of the Flows rows.
fn add_flow_rows(import: &mut WorkbookImport, rows: &Vec<TextMap<String>>, source: &str)
    ensures
        import_facts(*final(import)) == (
            import_facts(*old(import)).0,
            import_facts(*old(import)).1 + flow_rows_of(rows@, source@),
            import_facts(*old(import)).2,
        ),
{
    let ghost start = import_facts(*import);
    let mut i: usize = 0;
    assert(rows@.subrange(0, 0) =~= Seq::<TextMap<String>>::empty());
    assert(start.1 + Seq::<EntityFacts>::empty() =~= start.1);
    while i < rows.len()
        invariant
            i <= rows@.len(),
            import_facts(*import) == (start.0, start.1 + flow_rows_of(rows@.subrange(0, i as int), source@), start.2),
        decreases rows@.len() - i,
    {
        let ghost before = import.flows@;
        assert(rows@.subrange(0, i + 1).drop_last() =~= rows@.subrange(0, i as int));
        match flow_from_row(&rows[i], source) {
            Some(f) => {
                import.flows.push(f);
                assert(all_facts(import.flows@) =~= all_facts(before).push(entity_facts(f)));
                assert(import_facts(*import).1 =~= start.1 + flow_rows_of(rows@.subrange(0, i + 1), source@));
            },
            None => {},
        }
        i = i + 1;
    }
    assert(rows@.subrange(0, i as int) =~= rows@);
}

/// Adds the flows and exchanges of the rows of an Inputs or Outputs sheet
/// (see `exchange_rows_of`).
fn add_exchange_rows(
    import: &mut WorkbookImport,
    rows: &Vec<TextMap<String>>,
    source: &str,
    is_input: bool,
    known: &Vec<CanonicalEntity>,
)
    ensures
        import_facts(*final(import)).0 == import_facts(*old(import)).0,
        (import_facts(*final(import)).1, import_facts(*final(import)).2) == exchange_rows_of(
            rows@,
            source@,
            is_input,
            all_facts(known@),
            import_facts(*old(import)).1,
            import_facts(*old(import)).2,
        ),
{
    let ghost start = import_facts(*import);
    let ghost kf = all_facts(known@);
    let mut i: usize = 0;
    assert(rows@.subrange(0, 0) =~= Seq::<TextMap<String>>::empty());
    while i < rows.len()
        invariant
            i <= rows@.len(),
            kf == all_facts(known@),
            import_facts(*import).0 == start.0,
            (import_facts(*import).1, import_facts(*import).2) == exchange_rows_of(
                rows@.subrange(0, i as int),
                source@,
                is_input,
                kf,
                start.1,
                start.2,
            ),
        decreases rows@.len() - i,
    {
        let ghost fb = import.flows@;
        let ghost xb = import.exchanges@;
        assert(rows@.subrange(0, i + 1).drop_last() =~= rows@.subrange(0, i as int));
        assert(rows@.subrange(0, i + 1).last() == rows@[i as int]);
        let row = &rows[i];
        let flow_key = exchange_flow_key(row);
        let found = find_flow(known, &import.flows, &flow_key);
        assert(flow_key matches Some(k) ==> opt_facts(found) == last_keyed(kf + all_facts(fb), k@));
        let index = if import.exchanges.len() < usize::MAX {
            import.exchanges.len() + 1
        } else {
            import.exchanges.len()
        };
        match exchange_from_row(row, source, is_input, index, found) {
            Some((flow, x)) => {
                let ghost ff = entity_facts(flow);
                let ghost xv = json_view(x.view());
                proof {
                    let rv = row.view();
                    let name = cell(rv, "flow"@)->0;
                    let key = flow_key_of(name, text_or(cell(rv, "category"@), Seq::empty()));
                    assert(opt_facts(found) == last_keyed(kf + all_facts(fb), key));
                    assert(ff == exchange_flow_of(rv, name, source@, last_keyed(kf + all_facts(fb), key)));
                    assert(index as nat == next_index(exchange_views(xb).len()));
                }
                import.flows.push(flow);
                import.exchanges.push(x);
                assert(all_facts(import.flows@) =~= all_facts(fb).push(ff));
                assert(exchange_views(import.exchanges@) =~= exchange_views(xb).push(xv));
            },
            None => {},
        }
        i = i + 1;
    }
    assert(rows@.subrange(0, i as int) =~= rows@);
}

/// What the sheets of a workbook give: where the General information holds no
/// field, nothing; else the flows of the Flows rows, then the flows and
/// exchanges of the Outputs rows and of the Inputs rows, and the process.
pub open spec fn workbook_import_of(
    general: Map<Seq<char>, String>,
    flows: Seq<TextMap<String>>,
    outputs: Seq<TextMap<String>>,
    inputs: Seq<TextMap<String>>,
    source: Seq<char>,
    known: Seq<EntityFacts>,
) -> (Option<EntityFacts>, Seq<EntityFacts>, Seq<Map<Seq<char>, JsonData>>) {
    if general.dom() =~= Set::empty() {
        (None, Seq::empty(), Seq::empty())
    } else {
        let f0 = flow_rows_of(flows, source);
        let (f1, x1) = exchange_rows_of(outputs, source, false, known, f0, Seq::empty());
        let (f2, x2) = exchange_rows_of(inputs, source, true, known, f1, x1);
        (Some(workbook_process_of(general, source)), f2, x2)
    }
}

/// Imports the sheets of a workbook (see `workbook_import_of`); `known` are
/// the flows the store already holds.
pub fn import_sheets(
    general: &TextMap<String>,
    flows: &Vec<TextMap<String>>,
    outputs: &Vec<TextMap<String>>,
    inputs: &Vec<TextMap<String>>,
    source: &str,
    known: &Vec<CanonicalEntity>,
) -> (r: WorkbookImport)
    ensures
        import_facts(r) == workbook_import_of(general.view(), flows@, outputs@, inputs@, source@, all_facts(known@)),
{
    let mut import = WorkbookImport { process: None, flows: Vec::new(), exchanges: Vec::new() };
    assert(import_facts(import).1 =~= Seq::<EntityFacts>::empty());
    assert(import_facts(import).2 =~= Seq::<Map<Seq<char>, JsonData>>::empty());
    if general.is_empty() {
        return import;
    }
    add_flow_rows(&mut import, flows, source);
    assert(Seq::<EntityFacts>::empty() + flow_rows_of(flows@, source@) =~= flow_rows_of(flows@, source@));
    add_exchange_rows(&mut import, outputs, source, false, known);
    add_exchange_rows(&mut import, inputs, source, true, known);
    import.process = Some(process_entity(general, source));
    import
}

// ---------------------------------------------------------------------------
// Reading a workbook
// ---------------------------------------------------------------------------

/// The bytes of an entry that can be taken (see `entry_read`).
pub open spec fn entry_bytes(a: Seq<u8>, name: Seq<char>, limit: u64) -> Option<Seq<u8>> {
    match zip_entry_facts(a, name) {
        Ok((enclosed, link, size)) => if enclosed && !link && size <= limit {
            match zip_entry_content(a, name) {
                Ok(b) => Some(b),
                Err(_) => None,
            }
        } else {
            None
        },
        Err(_) => None,
    }
}

/// The read ends with the error that reading the entry gives.
pub open spec fn fails_reading(a: Seq<u8>, name: Seq<char>, limit: u64, r: Result<WorkbookImport, WorkbookError>) -> bool {
    r matches Err(e) && entry_read(a, name, limit, Err(e))
}

pub open spec fn xml_failure(x: XmlNodeError) -> Result<WorkbookImport, WorkbookError> {
    Err(WorkbookError::Xml(x))
}

/// What reading a table sheet gives: no rows where the workbook has no sheet
/// of that name, else its rows by header (see `table_scan`), or the error.
pub open spec fn table_read(
    a: Seq<u8>,
    limit: u64,
    layout: Map<Seq<char>, Seq<char>>,
    name: Seq<char>,
    shared: Seq<Seq<char>>,
    t: Result<Seq<Map<Seq<char>, Seq<char>>>, WorkbookError>,
) -> bool {
    if !layout.contains_key(name) {
        t == Ok::<Seq<Map<Seq<char>, Seq<char>>>, WorkbookError>(Seq::empty())
    } else {
        match entry_bytes(a, layout[name], limit) {
            None => t matches Err(e) && entry_read(a, layout[name], limit, Err(e)),
            Some(b) => exists|s: Result<Seq<Seq<Option<Seq<char>>>>, XmlNodeError>| #[trigger]
                sheet_reads_to(b, shared, s) && match s {
                    Err(x) => t == Err::<Seq<Map<Seq<char>, Seq<char>>>, WorkbookError>(WorkbookError::Xml(x)),
                    Ok(rows) => t == Ok::<Seq<Map<Seq<char>, Seq<char>>>, WorkbookError>(table_scan(rows).1),
                },
        }
    }
}

/// The import, from the General information fields and the rows of the
/// Flows, Outputs and Inputs sheets.
pub open spec fn imported(
    general: Map<Seq<char>, Seq<char>>,
    flows: Seq<Map<Seq<char>, Seq<char>>>,
    outputs: Seq<Map<Seq<char>, Seq<char>>>,
    inputs: Seq<Map<Seq<char>, Seq<char>>>,
    source: Seq<char>,
    known: Seq<EntityFacts>,
    r: Result<WorkbookImport, WorkbookError>,
) -> bool {
    r matches Ok(imp) && exists|g: TextMap<String>, fr: Seq<TextMap<String>>, or: Seq<TextMap<String>>, ir: Seq<TextMap<String>>|
        #![trigger workbook_import_of(g.view(), fr, or, ir, source, known)]
        text_views(g.view()) == general && keyed_views(fr) == flows && keyed_views(or) == outputs && keyed_views(ir) == inputs
            && import_facts(imp) == workbook_import_of(g.view(), fr, or, ir, source, known)
}

pub open spec fn after_outputs(
    a: Seq<u8>,
    source: Seq<char>,
    limit: u64,
    known: Seq<EntityFacts>,
    layout: Map<Seq<char>, Seq<char>>,
    shared: Seq<Seq<char>>,
    general: Map<Seq<char>, Seq<char>>,
    flows: Seq<Map<Seq<char>, Seq<char>>>,
    outputs: Seq<Map<Seq<char>, Seq<char>>>,
    r: Result<WorkbookImport, WorkbookError>,
) -> bool {
    exists|t: Result<Seq<Map<Seq<char>, Seq<char>>>, WorkbookError>| #[trigger]
        table_read(a, limit, layout, "Inputs"@, shared, t) && match t {
            Err(e) => r == Err::<WorkbookImport, WorkbookError>(e),
            Ok(inputs) => imported(general, flows, outputs, inputs, source, known, r),
        }
}

pub open spec fn after_flows(
    a: Seq<u8>,
    source: Seq<char>,
    limit: u64,
    known: Seq<EntityFacts>,
    layout: Map<Seq<char>, Seq<char>>,
    shared: Seq<Seq<char>>,
    general: Map<Seq<char>, Seq<char>>,
    flows: Seq<Map<Seq<char>, Seq<char>>>,
    r: Result<WorkbookImport, WorkbookError>,
) -> bool {
    exists|t: Result<Seq<Map<Seq<char>, Seq<char>>>, WorkbookError>| #[trigger]
        table_read(a, limit, layout, "Outputs"@, shared, t) && match t {
            Err(e) => r == Err::<WorkbookImport, WorkbookError>(e),
            Ok(outputs) => after_outputs(a, source, limit, known, layout, shared, general, flows, outputs, r),
        }
}

/// Once the General information holds fields: the Flows, Outputs and Inputs
/// sheets are read in turn, and the first that fails ends the read.
pub open spec fn after_general(
    a: Seq<u8>,
    source: Seq<char>,
    limit: u64,
    known: Seq<EntityFacts>,
    layout: Map<Seq<char>, Seq<char>>,
    shared: Seq<Seq<char>>,
    general: Map<Seq<char>, Seq<char>>,
    r: Result<WorkbookImport, WorkbookError>,
) -> bool {
    exists|t: Result<Seq<Map<Seq<char>, Seq<char>>>, WorkbookError>| #[trigger]
        table_read(a, limit, layout, "Flows"@, shared, t) && match t {
            Err(e) => r == Err::<WorkbookImport, WorkbookError>(e),
            Ok(flows) => after_flows(a, source, limit, known, layout, shared, general, flows, r),
        }
}

/// Once the layout and the shared strings are known: the General information
/// sheet must be there; where it holds no field, nothing is imported.
pub open spec fn after_shared(
    a: Seq<u8>,
    source: Seq<char>,
    limit: u64,
    known: Seq<EntityFacts>,
    layout: Map<Seq<char>, Seq<char>>,
    shared: Seq<Seq<char>>,
    r: Result<WorkbookImport, WorkbookError>,
) -> bool {
    let name = "General information"@;
    if !layout.contains_key(name) {
        r matches Err(WorkbookError::MissingGeneralInformation)
    } else {
        match entry_bytes(a, layout[name], limit) {
            None => fails_reading(a, layout[name], limit, r),
            Some(b) => exists|s: Result<Seq<Seq<Option<Seq<char>>>>, XmlNodeError>| #[trigger]
                sheet_reads_to(b, shared, s) && match s {
                    Err(x) => r == xml_failure(x),
                    Ok(rows) => if general_scan(rows).1.dom() =~= Set::empty() {
                        r matches Ok(imp) && import_facts(imp) == (
                            None::<EntityFacts>,
                            Seq::<EntityFacts>::empty(),
                            Seq::<Map<Seq<char>, JsonData>>::empty(),
                        )
                    } else {
                        after_general(a, source, limit, known, layout, shared, general_scan(rows).1, r)
                    },
                },
        }
    }
}

/// What reading the shared strings gives: none where the archive has no such
/// entry, else those of its parsed entry (see `shared_strings_of`), or the
/// error.
pub open spec fn shared_read(a: Seq<u8>, limit: u64, t: Result<Seq<Seq<char>>, WorkbookError>) -> bool {
    let name = "xl/sharedStrings.xml"@;
    match zip_entry_facts(a, name) {
        Err(_) => t == Ok::<Seq<Seq<char>>, WorkbookError>(Seq::empty()),
        Ok(_) => match entry_bytes(a, name, limit) {
            None => t matches Err(e) && entry_read(a, name, limit, Err(e)),
            Some(b) => exists|p: Result<XmlNode, XmlNodeError>| #[trigger] parses_to(b, p) && match p {
                Err(x) => t == Err::<Seq<Seq<char>>, WorkbookError>(WorkbookError::Xml(x)),
                Ok(root) => t == Ok::<Seq<Seq<char>>, WorkbookError>(shared_strings_of(root)),
            },
        },
    }
}

/// Once the layout is known: the shared strings, then the sheets.
pub open spec fn after_layout(
    a: Seq<u8>,
    source: Seq<char>,
    limit: u64,
    known: Seq<EntityFacts>,
    layout: Map<Seq<char>, Seq<char>>,
    r: Result<WorkbookImport, WorkbookError>,
) -> bool {
    exists|t: Result<Seq<Seq<char>>, WorkbookError>| #[trigger] shared_read(a, limit, t) && match t {
        Err(e) => r == Err::<WorkbookImport, WorkbookError>(e),
        Ok(shared) => after_shared(a, source, limit, known, layout, shared, r),
    }
}

/// What reading a workbook gives: its workbook and relationship entries are
/// read and parsed into the sheets' layout, then the shared strings and the
/// sheets follow (see `after_layout`); the first step that fails ends the read
/// with its error.
pub open spec fn workbook_read(
    a: Seq<u8>,
    source: Seq<char>,
    limit: u64,
    known: Seq<EntityFacts>,
    r: Result<WorkbookImport, WorkbookError>,
) -> bool {
    let wname = "xl/workbook.xml"@;
    let rname = "xl/_rels/workbook.xml.rels"@;
    match entry_bytes(a, wname, limit) {
        None => fails_reading(a, wname, limit, r),
        Some(wb) => match entry_bytes(a, rname, limit) {
            None => fails_reading(a, rname, limit, r),
            Some(rb) => exists|pw: Result<XmlNode, XmlNodeError>| #[trigger] parses_to(wb, pw) && match pw {
                Err(x) => r == xml_failure(x),
                Ok(w) => exists|pr: Result<XmlNode, XmlNodeError>| #[trigger] parses_to(rb, pr) && match pr {
                    Err(x) => r == xml_failure(x),
                    Ok(rl) => match layout_of(w, rl) {
                        None => r matches Err(WorkbookError::UnsafeTarget),
                        Some(layout) => after_layout(a, source, limit, known, layout, r),
                    },
                },
            },
        },
    }
}

proof fn lemma_entry_read(a: Seq<u8>, name: Seq<char>, limit: u64, r: Result<Seq<u8>, WorkbookError>)
    requires
        entry_read(a, name, limit, r),
    ensures
        r matches Ok(b) ==> entry_bytes(a, name, limit) == Some(b),
        r is Err ==> entry_bytes(a, name, limit) is None,
{
}

pub open spec fn table_result(r: Result<Vec<TextMap<String>>, WorkbookError>) -> Result<Seq<Map<Seq<char>, Seq<char>>>, WorkbookError> {
    match r {
        Ok(v) => Ok(keyed_views(v@)),
        Err(e) => Err(e),
    }
}

fn read_table(
    archive: &[u8],
    layout: &TextMap<String>,
    name: &str,
    shared: &Vec<String>,
    limit: u64,
) -> (r: Result<Vec<TextMap<String>>, WorkbookError>)
    ensures
        table_read(archive@, limit, text_views(layout.view()), name@, texts(shared@), table_result(r)),
{
    let path = match layout.get(name) {
        Some(p) => p,
        None => {
            let v: Vec<TextMap<String>> = Vec::new();
            assert(keyed_views(v@) =~= Seq::<Map<Seq<char>, Seq<char>>>::empty());
            return Ok(v);
        },
    };
    assert(text_views(layout.view()).contains_key(name@) && text_views(layout.view())[name@] == path@);
    let er = read_workbook_entry(archive, path.as_str(), limit);
    proof {
        lemma_entry_read(archive@, path@, limit, bytes_result(er));
    }
    let bytes = match er {
        Ok(b) => b,
        Err(e) => {
            return Err(e);
        },
    };
    let sr = sheet_rows(&bytes, shared);
    let ghost gsr = rows_result(sr);
    proof {
        let b = entry_bytes(archive@, text_views(layout.view())[name@], limit)->0;
        assert(sheet_reads_to(b, texts(shared@), gsr));
    }
    match sr {
        Ok(rows) => Ok(table_rows(&rows)),
        Err(x) => Err(WorkbookError::Xml(x)),
    }
}

pub open spec fn shared_result(r: Result<Vec<String>, WorkbookError>) -> Result<Seq<Seq<char>>, WorkbookError> {
    match r {
        Ok(v) => Ok(texts(v@)),
        Err(e) => Err(e),
    }
}

fn read_shared(archive: &[u8], limit: u64) -> (r: Result<Vec<String>, WorkbookError>)
    ensures
        shared_read(archive@, limit, shared_result(r)),
{
    if zip_entry_info(archive, "xl/sharedStrings.xml").is_err() {
        let v: Vec<String> = Vec::new();
        assert(texts(v@) =~= Seq::<Seq<char>>::empty());
        return Ok(v);
    }
    let er = read_workbook_entry(archive, "xl/sharedStrings.xml", limit);
    proof {
        lemma_entry_read(archive@, "xl/sharedStrings.xml"@, limit, bytes_result(er));
    }
    let bytes = match er {
        Ok(b) => b,
        Err(e) => {
            return Err(e);
        },
    };
    let ps = XmlNode::parse(&bytes);
    let ghost gps = ps;
    proof {
        let b = entry_bytes(archive@, "xl/sharedStrings.xml"@, limit)->0;
        assert(parses_to(b, gps));
    }
    match ps {
        Ok(root) => Ok(shared_strings(&root)),
        Err(x) => Err(WorkbookError::Xml(x)),
    }
}

/// Reads an openLCA process workbook from the bytes of its archive (see
/// `workbook_read`): `limit` bounds each entry, and `known` are the flows the
/// store already holds, which exchange rows find by their key.
pub fn read_workbook(archive: &[u8], source: &str, limit: u64, known: &Vec<CanonicalEntity>) -> (r: Result<
    WorkbookImport,
    WorkbookError,
>)
    ensures
        workbook_read(archive@, source@, limit, all_facts(known@), r),
{
    let ghost a = archive@;
    let ghost kf = all_facts(known@);
    let wr = read_workbook_entry(archive, "xl/workbook.xml", limit);
    proof {
        lemma_entry_read(a, "xl/workbook.xml"@, limit, bytes_result(wr));
    }
    let workbook = match wr {
        Ok(b) => b,
        Err(e) => {
            return Err(e);
        },
    };
    let rr = read_workbook_entry(archive, "xl/_rels/workbook.xml.rels", limit);
    proof {
        lemma_entry_read(a, "xl/_rels/workbook.xml.rels"@, limit, bytes_result(rr));
    }
    let relationships = match rr {
        Ok(b) => b,
        Err(e) => {
            return Err(e);
        },
    };
    let pw = XmlNode::parse(&workbook);
    let ghost gpw = pw;
    proof {
        let wb = entry_bytes(a, "xl/workbook.xml"@, limit)->0;
        assert(parses_to(wb, gpw));
    }
    let wnode = match pw {
        Ok(n) => n,
        Err(x) => {
            return Err(WorkbookError::Xml(x));
        },
    };
    let pr = XmlNode::parse(&relationships);
    let ghost gpr = pr;
    proof {
        let rb = entry_bytes(a, "xl/_rels/workbook.xml.rels"@, limit)->0;
        assert(parses_to(rb, gpr));
    }
    let rnode = match pr {
        Ok(n) => n,
        Err(x) => {
            return Err(WorkbookError::Xml(x));
        },
    };
    let layout = match workbook_layout(&wnode, &rnode) {
        Ok(l) => l,
        Err(e) => {
            return Err(e);
        },
    };
    let ghost lv = text_views(layout.view());
    assert(layout_of(wnode, rnode) == Some(lv));
    let sr = read_shared(archive, limit);
    let ghost gsr = shared_result(sr);
    let shared = match sr {
        Ok(v) => v,
        Err(e) => {
            return Err(e);
        },
    };
    let ghost sh = texts(shared@);
    let gpath = match layout.get("General information") {
        Some(p) => p,
        None => {
            return Err(WorkbookError::MissingGeneralInformation);
        },
    };
    assert(lv.contains_key("General information"@) && lv["General information"@] == gpath@);
    let gr = read_workbook_entry(archive, gpath.as_str(), limit);
    proof {
        lemma_entry_read(a, gpath@, limit, bytes_result(gr));
    }
    let gbytes = match gr {
        Ok(b) => b,
        Err(e) => {
            return Err(e);
        },
    };
    let gs = sheet_rows(&gbytes, &shared);
    let ghost ggs = rows_result(gs);
    proof {
        let gb = entry_bytes(a, lv["General information"@], limit)->0;
        assert(sheet_reads_to(gb, sh, ggs));
    }
    let grows = match gs {
        Ok(v) => v,
        Err(x) => {
            return Err(WorkbookError::Xml(x));
        },
    };
    let general = general_information(&grows);
    assert(text_views(general.view()).dom() =~= general.view().dom());
    if general.is_empty() {
        let import = WorkbookImport { process: None, flows: Vec::new(), exchanges: Vec::new() };
        assert(import_facts(import).1 =~= Seq::<EntityFacts>::empty());
        assert(import_facts(import).2 =~= Seq::<Map<Seq<char>, JsonData>>::empty());
        return Ok(import);
    }
    let ghost gv = text_views(general.view());
    let ft = read_table(archive, &layout, "Flows", &shared, limit);
    let ghost gft = table_result(ft);
    let flows = match ft {
        Ok(v) => v,
        Err(e) => {
            return Err(e);
        },
    };
    let ot = read_table(archive, &layout, "Outputs", &shared, limit);
    let ghost got = table_result(ot);
    let outputs = match ot {
        Ok(v) => v,
        Err(e) => {
            return Err(e);
        },
    };
    let it = read_table(archive, &layout, "Inputs", &shared, limit);
    let ghost git = table_result(it);
    let inputs = match it {
        Ok(v) => v,
        Err(e) => {
            return Err(e);
        },
    };
    let import = import_sheets(&general, &flows, &outputs, &inputs, source, known);
    assert(import_facts(import) == workbook_import_of(general.view(), flows@, outputs@, inputs@, source@, kf));
    Ok(import)
}

} // verus!
