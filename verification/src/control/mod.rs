//! Authoritative runtime control state.

pub mod retirement;
pub mod request_ledger;
pub mod command_ledger;
pub mod opportunity;
pub mod appraisal;
pub mod lifecycle;
pub mod state;
pub mod schedule_key;
pub mod ids;
pub mod reservation;
pub mod draft;
