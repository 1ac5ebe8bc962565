//! A formatter for Salesforce Apex source code.
pub mod doc;
pub mod syntax;
pub mod ts;
pub mod strs;
pub mod accessor;
pub mod doc_builder;
pub mod context;
pub mod utility;
pub mod data_model;
pub mod enum_def;
pub mod message_helper;
pub mod source_formatter;
pub mod config;
pub mod selection;
pub mod shape;
pub mod node;
pub mod enrich;
pub mod query;
pub mod notation;
pub mod print;
pub mod fmt_push;
pub mod formatter;
pub mod args;
pub mod report;
