//! Repository discovery: extract facts, then ask about what cannot be known.
//!
//! Discovery never executes anything from the repository and never guesses. It returns facts with a
//! confidence and a closed list of unknowns. `init` refuses to write a manifest while any unknown is
//! unanswered, so the manifest is only ever produced from information that was actually determined.

pub mod asking;
pub mod extractors;
pub mod finding;
pub mod laws;
pub mod pins;
pub mod places;
pub mod ports;
pub mod report;
pub mod snapshot;
pub mod unknowns;
