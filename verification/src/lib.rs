//! Live-view coordination layer for a terminal mDNS service browser.
//!
//! The crate models the canonical set of discovered services, the sorted and
//! deduplicated index of service types, the filtered/sorted view projection
//! with its two-bit staleness cache, the selection and scroll state, and the
//! input-mode automaton that routes keystrokes.  Every operation carries a
//! contract; the I/O shell around it lives outside this crate.

pub mod controls;
pub mod entry;
pub mod events;
pub mod format;
pub mod input;
pub mod ip;
pub mod laws;
pub mod metrics;
pub mod nav;
pub mod order;
pub mod state;
pub mod store;
pub mod time;
pub mod types_index;

pub mod text;
