//! Change data capture for Postgres: the text that the logical decoding
//! plugin writes for each transaction, table, row change and message.
//!
//! Every record the plugin emits is a JSON object on a line of its own:
//!
//! ```text
//! { "begin": <xid> }
//! { "table": "<name>", "schema": [{"<column>":"<type>"},...] }
//! { "insert": <row>, "table": "<name>" }
//! { "update": <row>, "@": <old row>, "table": "<name>" }
//! { "delete": <row>, "table": "<name>" }
//! { "prefix": "<prefix>", "message": "<text>", "transactional": <bool> }
//! { "commit": <xid>, "t": "<timestamp>" }
//! ```
//!
//! The modules build those records as bytes from plain values that the
//! server side hands over (table ids, names, column descriptions, row
//! texts, message payloads), and keep the one piece of state the plugin
//! carries between callbacks.

pub mod text;
pub mod json;
pub mod tuple;
pub mod change;
pub mod schema;
pub mod message;
pub mod decoder;
pub mod name;
pub mod lines;
