//! Recording of scheduling events in a slot-numbered key-value store.
//!
//! Events are kept under keys `event:1`, `event:2`, ... with no gaps. A new
//! event goes to the first slot whose record lacks an `organizer` field, and a
//! listing reads the slots from the first one up to the first free one.
//! The store itself is reached by the caller: the scans here are state
//! machines that say which key to test, read or write next.

pub mod event;
pub mod store;
pub mod text;

pub use event::{record_fields, Event, ID_LEN};
pub use store::{AppendProbe, AppendStep, ListScan, ListStep};
pub use text::{
    bracket_list, compose_confirmation, confirmation, listing_text, parse_port, port_from,
    slot_key, DEFAULT_PORT,
};
