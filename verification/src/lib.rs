pub mod text;
pub mod runtime;
pub mod json;
pub mod paths;
pub mod detect;
pub mod xml;
pub mod release;
pub mod model;
pub mod normalization;
pub mod writers;
pub mod report;
pub mod source;
pub mod adapters;
pub mod pipeline;
pub mod references;
pub mod simapro;
pub mod roundtrip;
pub mod mapping;
pub mod sorted;
pub mod table;
pub mod rulesets;
pub mod openlca;
pub mod lifecycle;
pub mod units;
pub mod flow_properties;
pub mod generated_units;
pub mod bundles;
pub mod process_writer;
pub mod openlca_exchange;
pub mod openlca_entities;
pub mod openlca_workbook;
pub mod ilcd;
pub mod process_dataset;
pub mod xml_parse;
pub mod workbook_reader;
pub mod ecospold;
pub mod workbook_import;
