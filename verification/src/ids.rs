//! Identifiers of compiled elements and packages.

use vstd::prelude::*;

verus! {

/// Identity of a compiled element: the chunk it lives in and its index
/// inside that chunk's parallel arenas.
#[derive(Clone, Copy, Debug, PartialEq, Eq, Hash, Structural)]
pub struct ElementId {
    /// Chunk number (0 is the bootstrap chunk).
    pub chunk_id: u16,
    /// Index inside the chunk.
    pub local_idx: u32,
}

/// Index of a package in the model's global package arena.
#[derive(Clone, Copy, Debug, PartialEq, Eq, Hash, Structural)]
pub struct PackageId(pub u32);

/// The top type `Any` (bootstrap chunk, slot 0).
#[verifier::allow_in_spec]
pub fn any_id() -> ElementId
    returns
        (ElementId { chunk_id: 0, local_idx: 0 }),
{
    ElementId { chunk_id: 0, local_idx: 0 }
}

/// The bottom type `Nil` (bootstrap chunk, slot 1).
#[verifier::allow_in_spec]
pub fn nil_id() -> ElementId
    returns
        (ElementId { chunk_id: 0, local_idx: 1 }),
{
    ElementId { chunk_id: 0, local_idx: 1 }
}

/// The primitive `Boolean` (bootstrap chunk, slot 2).
#[verifier::allow_in_spec]
pub fn boolean_id() -> ElementId
    returns
        (ElementId { chunk_id: 0, local_idx: 2 }),
{
    ElementId { chunk_id: 0, local_idx: 2 }
}

/// The primitive `String` (bootstrap chunk, slot 3).
#[verifier::allow_in_spec]
pub fn string_id() -> ElementId
    returns
        (ElementId { chunk_id: 0, local_idx: 3 }),
{
    ElementId { chunk_id: 0, local_idx: 3 }
}

/// The primitive `Date` (bootstrap chunk, slot 4).
#[verifier::allow_in_spec]
pub fn date_id() -> ElementId
    returns
        (ElementId { chunk_id: 0, local_idx: 4 }),
{
    ElementId { chunk_id: 0, local_idx: 4 }
}

} // verus!
