//! Verified runtime-control core of a turn-based world simulation: the
//! retained request ledgers, action opportunities, appraisal and lifecycle
//! scheduling control, identifier issuing and the small checks that the
//! authority-record sealer applies.

pub mod ids;
pub mod kernel;
pub mod session;
pub mod control;
pub mod model;
pub mod error;
pub mod builtin;
pub mod commit;
pub mod effects;
pub mod validation;
pub mod authority;
