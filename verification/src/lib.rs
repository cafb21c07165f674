//! Verified core of the Log4TC logging bridge: log levels, the ADS binary
//! log-entry protocol, message-template formatting, OpenTelemetry record
//! mapping, AMS/TCP frame handling and service-control decisions.

pub mod level;
pub mod text;
pub mod maps;
pub mod timestamp;
pub mod errors;
pub mod values;
pub mod reader;
pub mod parser;
pub mod json;
pub mod formatter;
pub mod models;
pub mod ams;
pub mod pipeline;
pub mod service;
pub mod encoding;
pub mod entry_stream;
pub mod value_laws;
pub mod format_laws;
