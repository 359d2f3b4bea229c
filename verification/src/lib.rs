//! A verified library around a DJ-software collection export: a typed
//! document model, a lossless text codec for it, and a reconciliation
//! engine that cross-references the declared track locations against a
//! directory listing.

pub mod analyzer;
pub mod codec;
pub mod laws;
pub mod locator;
pub mod model;
pub mod num;
pub mod parser;
pub mod paths;
pub mod rekordbox_xml;
pub mod xml;

pub use analyzer::{Analyzer, AnalyzerReport};
pub use rekordbox_xml::RekordboxXml;
