//! A binary codec with bounds: values are encoded by appending bytes to a
//! buffer and decoded from the front of a byte slice, and every size read
//! while decoding is checked against a chain of declared bounds.
//!
//! Each decoder's result is stated by `Absorb::spec_absorb`, each encoding by
//! `Emit::spec_emit`; the module `laws` proves that they agree.

mod absorb;
mod buffer;
mod codec;
mod composite;
mod emit;
mod error;
pub mod laws;
mod limit;
mod primitives;
mod seq;
mod tagged;

pub use absorb::{Absorb, AbsorbExt};
pub use buffer::{CsBuffer, RadiationBuffer};
pub use codec::Codec;
pub use emit::Emit;
pub use error::{ParseError, ParseErrorKind};
pub use laws::RoundTrip;
pub use limit::{field_limits, Limit, LimitDescriptor, LimitError};
pub use seq::{Collection, DynSized, MALFORMED_TEXT, ZERO_PROGRESS};
pub use tagged::{find_variant, variant_tags};
