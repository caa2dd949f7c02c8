//! Client-side logic for the BRouter routing engine.
//!
//! The crate covers the two parts of a BRouter client that carry real design
//! content: the query-string encoding and response decoding of the engine's
//! wire protocol, and the state machine that supervises a locally run engine
//! process.  Network, file-system and process work is left to the caller,
//! which feeds observations (directory listings, HTTP statuses, process
//! polls) into the verified decision functions here.

pub mod codec;
pub mod error;
pub mod geo;
pub mod lifecycle;
pub mod text;
pub mod urlenc;

pub use error::Error;
pub use geo::Nogo;
pub use geo::Point;
pub use geo::TurnInstructionMode;
