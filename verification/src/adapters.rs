//! The source adapters: which adapter reads each detected format, the bounded
//! context they read in, and the rules they apply to source text.
use vstd::prelude::*;

use crate::detect::SourceFormat;
use crate::runtime::{MemoryBudget, MemoryReservation, RuntimeError, budget_wf, fits, reserved};

verus! {

/// Reads EcoSpold 1 XML datasets.
#[derive(Debug)]
pub struct EcoSpold1Adapter;

/// Reads EcoSpold 2 (`.spold`) datasets.
#[derive(Debug)]
pub struct EcoSpold2Adapter;

/// Reads ILCD XML packages.
#[derive(Debug)]
pub struct IlcdAdapter;

/// Reads openLCA JSON-LD exports.
#[derive(Debug)]
pub struct OpenLcaJsonLdAdapter;

/// Reads openLCA process workbooks.
#[derive(Debug)]
pub struct OpenLcaProcessXlsxAdapter;

/// Reads SimaPro CSV exports.
#[derive(Debug)]
pub struct SimaProCsvAdapter;

impl EcoSpold1Adapter {
    pub fn format(&self) -> (r: SourceFormat)
        ensures
            r == SourceFormat::Ecospold1,
    {
        SourceFormat::Ecospold1
    }
}

impl EcoSpold2Adapter {
    pub fn format(&self) -> (r: SourceFormat)
        ensures
            r == SourceFormat::Ecospold2,
    {
        SourceFormat::Ecospold2
    }
}

impl IlcdAdapter {
    pub fn format(&self) -> (r: SourceFormat)
        ensures
            r == SourceFormat::Ilcd,
    {
        SourceFormat::Ilcd
    }
}

impl OpenLcaJsonLdAdapter {
    pub fn format(&self) -> (r: SourceFormat)
        ensures
            r == SourceFormat::OpenlcaJsonld,
    {
        SourceFormat::OpenlcaJsonld
    }
}

impl OpenLcaProcessXlsxAdapter {
    pub fn format(&self) -> (r: SourceFormat)
        ensures
            r == SourceFormat::OpenlcaProcessXlsx,
    {
        SourceFormat::OpenlcaProcessXlsx
    }
}

impl SimaProCsvAdapter {
    pub fn format(&self) -> (r: SourceFormat)
        ensures
            r == SourceFormat::SimaproCsv,
    {
        SourceFormat::SimaproCsv
    }
}

/// The adapter that reads a format.
#[derive(Debug)]
pub enum Adapter {
    EcoSpold1(EcoSpold1Adapter),
    EcoSpold2(EcoSpold2Adapter),
    Ilcd(IlcdAdapter),
    OpenLcaJsonLd(OpenLcaJsonLdAdapter),
    OpenLcaProcessXlsx(OpenLcaProcessXlsxAdapter),
    SimaProCsv(SimaProCsvAdapter),
}

impl Adapter {
    pub open spec fn spec_format(&self) -> SourceFormat {
        match self {
            Adapter::EcoSpold1(_) => SourceFormat::Ecospold1,
            Adapter::EcoSpold2(_) => SourceFormat::Ecospold2,
            Adapter::Ilcd(_) => SourceFormat::Ilcd,
            Adapter::OpenLcaJsonLd(_) => SourceFormat::OpenlcaJsonld,
            Adapter::OpenLcaProcessXlsx(_) => SourceFormat::OpenlcaProcessXlsx,
            Adapter::SimaProCsv(_) => SourceFormat::SimaproCsv,
        }
    }

    /// The format the adapter reads.
    pub fn format(&self) -> (r: SourceFormat)
        ensures
            r == self.spec_format(),
    {
        match self {
            Adapter::EcoSpold1(a) => a.format(),
            Adapter::EcoSpold2(a) => a.format(),
            Adapter::Ilcd(a) => a.format(),
            Adapter::OpenLcaJsonLd(a) => a.format(),
            Adapter::OpenLcaProcessXlsx(a) => a.format(),
            Adapter::SimaProCsv(a) => a.format(),
        }
    }
}

/// The adapter for a detected format: every format but the unsupported archive
/// and the unknown one has one, and it reads that format.
pub fn adapter_for(format: SourceFormat) -> (r: Option<Adapter>)
    ensures
        r is None <==> (format == SourceFormat::UnsupportedZolca || format == SourceFormat::Unknown),
        r matches Some(a) ==> a.spec_format() == format,
{
    match format {
        SourceFormat::Ecospold1 => Some(Adapter::EcoSpold1(EcoSpold1Adapter)),
        SourceFormat::Ecospold2 => Some(Adapter::EcoSpold2(EcoSpold2Adapter)),
        SourceFormat::Ilcd => Some(Adapter::Ilcd(IlcdAdapter)),
        SourceFormat::OpenlcaJsonld => Some(Adapter::OpenLcaJsonLd(OpenLcaJsonLdAdapter)),
        SourceFormat::OpenlcaProcessXlsx => Some(Adapter::OpenLcaProcessXlsx(OpenLcaProcessXlsxAdapter)),
        SourceFormat::SimaproCsv => Some(Adapter::SimaProCsv(SimaProCsvAdapter)),
        _ => None,
    }
}

/// Why an adapter stopped; failures of the layers below carry their messages.
#[derive(Debug)]
pub enum AdapterError {
    Source(String),
    Store(String),
    Issue(String),
    Json(String),
    Zip(String),
    Xml(String),
    XmlAttribute(String),
    XmlEncoding(String),
    Io(String),
    Runtime(RuntimeError),
}

/// What an adapter reads: the source and the bound on each entry.
#[derive(Debug)]
pub struct AdapterContext {
    pub source: String,
    pub max_entry_bytes: u64,
}

impl AdapterContext {
    /// Reserves memory for a structure expanded from `input_bytes` of input by
    /// `expansion_factor`; an expansion that does not fit a `u64` is a size
    /// overflow, and one that does not fit the budget is refused by it.
    pub fn reserve_structured_expansion(
        &self,
        budget: &mut MemoryBudget,
        input_bytes: usize,
        expansion_factor: u64,
    ) -> (r: Result<MemoryReservation, AdapterError>)
        ensures
            final(budget).id() == old(budget).id(),
            r matches Ok(res) ==> res.budget() == old(budget).id(),
            input_bytes * expansion_factor > u64::MAX ==> (r matches Err(AdapterError::Runtime(e))
                && e is SizeOverflow && final(budget).state() == old(budget).state()),
            input_bytes * expansion_factor <= u64::MAX ==> ({
                let bytes = (input_bytes * expansion_factor) as nat;
                &&& r is Ok <==> fits(old(budget).state(), bytes)
                &&& r matches Ok(res) ==> res.size() == bytes && final(budget).state() == reserved(
                    old(budget).state(),
                    bytes,
                ) && budget_wf(final(budget).state())
                &&& r is Err ==> final(budget).state() == old(budget).state()
            }),
    {
        let input = input_bytes as u64;
        let expanded = match input.checked_mul(expansion_factor) {
            Some(v) => v,
            None => return Err(AdapterError::Runtime(RuntimeError::SizeOverflow)),
        };
        match budget.reserve(expanded) {
            Ok(res) => Ok(res),
            Err(e) => Err(AdapterError::Runtime(e)),
        }
    }
}

} // verus!
