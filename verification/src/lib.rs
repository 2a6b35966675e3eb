//! Simulator for small Turing machines of the kind studied in Busy-Beaver
//! searches, together with a detector for Lin–Rado space-time recurrence and
//! quasihalting.

pub mod checks;
pub mod driver;
pub mod machine;
pub mod model;
pub mod parse;
pub mod program;
pub mod tape;
pub mod types;

pub use types::Direction;
