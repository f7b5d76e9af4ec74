//! The crate-wide typed error.

use vstd::prelude::*;

verus! {

/// Every failure the library reports is one of these typed kinds; no
/// operation panics on hostile input.
#[derive(Debug, Clone, Copy, PartialEq, Eq, Structural)]
pub enum VoleError {
    ApiConstraint,
    ArithmeticOverflow,
    BadMagic,
    BridgeDecodeFailed,
    BridgeNotFound,
    BridgeOutputLimit,
    BridgeProbeFailed,
    BridgeTimeout,
    CanonicalHashMismatch,
    CheckpointOutOfEnvelope,
    DimensionTooLarge,
    DuplicateId,
    EntropyCorrupt,
    EntropyOverread,
    EpochViolation,
    GeometryMismatch,
    IntegrityMismatch,
    InvalidSamples,
    InvalidTimeBase,
    LengthMismatch,
    MaterializationBudgetExceeded,
    NonCanonicalEncoding,
    NonConsecutiveInterval,
    OutOfBounds,
    ScriptParse,
    StoreFailure,
    TimeNotRepresentable,
    Truncated,
    UnknownInstance,
    UnknownObject,
    UnknownPalette,
    UnsupportedFeature,
    UnsupportedLimitProfile,
    UnsupportedPixelLayout,
    UnsupportedUniverse,
}

} // verus!
