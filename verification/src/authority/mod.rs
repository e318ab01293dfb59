//! Checks that an authority-record draft must pass before it is sealed.

pub mod seal;
pub mod transition;
pub mod lifecycle_mutation;
pub mod moment;
pub mod record;
