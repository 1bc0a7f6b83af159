//! Core of a reverse-beacon spot monitor: a verified parser for the feed's
//! spot lines, a deduplicating time-bounded store of aggregated spots, and
//! the decision state machine of the feed connection.

pub mod models;
pub mod omnirig;
pub mod rbn_client;
pub mod spot_parser;
pub mod spot_store;
