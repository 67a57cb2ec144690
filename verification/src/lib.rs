//! A verified core for streaming logical-replication change events.
//!
//! The library decodes the replication output plugin's binary messages into
//! typed [`Change`](change::Change) events against a
//! [`Catalog`](catalog::Catalog) of relation schemas, renders and parses
//! their wire-level JSON representation, computes sink routing, and models
//! the polling stream driver and the fan-out dispatcher as verified state
//! machines. All I/O stays outside.

pub mod catalog;
pub mod change;
pub mod decoder;
pub mod driver;
pub mod json;
pub mod lsn;
mod num;
pub mod output;
pub mod render;
mod util;

pub use catalog::{get_relation_columns, Catalog, RelationInfo};
pub use change::{Change, ChangeV, ColumnInfo, ColumnInfoV, FieldV, Tuple};
pub use decoder::{
    decode_begin, decode_commit, decode_delete, decode_insert, decode_pgoutput_message,
    decode_relation, decode_tuple, decode_update, read_string, DecodeError,
};
pub use driver::{
    create_slot_query, fetch_changes_query, slot_status_query, FetchedRow, PollStep,
    ReplicationState, SlotStatus, IDLE_DELAY_MS,
};
pub use lsn::format_lsn;
pub use json::from_json;
pub use render::{render_change, render_text};
pub use output::{
    feldera_destination, first_failure, nats_subject, ConfigError, DeliveryOutcome, OutputFormat,
};
