//! Resolution of FIID addresses, the six-byte crypto framing header, and the
//! priority/expiry merge of contextual overlays into one routing entry.

pub mod crypto;
pub mod dim;
pub mod models;
pub mod protocols;
pub mod registry;
pub mod text;

pub use crate::crypto::derive_isolated_key;
pub use crate::dim::{resolve_overlays, DimContext, DimOverlay};
pub use crate::models::{CryptoHeader, Fiid};
pub use crate::protocols::{build_sul_entry, parse_fiid_uri, FiidProtocol, QidRequest, SulEntry};
pub use crate::registry::SridRegistry;

use vstd::prelude::*;

verus! {

/// The flat error taxonomy shared by every component of the library.
#[derive(Debug, Clone, Copy, PartialEq, Eq, Structural)]
pub enum AideError {
    InvalidCryptoHeader,
    InvalidHeaderLength,
    InvalidUri,
    UnsupportedProtocol,
    MissingAlias,
    HkdfError,
}

} // verus!
