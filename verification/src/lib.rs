//! Rendering and comparison of tile-based room levels.
//!
//! The crate decodes binary tileset assets (planar 4-bit-per-pixel 8x8
//! bitmaps, 16x16 composite tile tables, RGB555 palettes), parses the textual
//! room description model, resolves logical paths against either a live
//! directory tree or an immutable historical tree with symbolic links, renders
//! a room's layers into RGBA raster images, and compares two renderings
//! pixel by pixel.

use vstd::prelude::*;

pub mod diff;
pub mod file_system;
pub mod numerals;
pub mod room;
pub mod smart_xml;
pub mod tile;

verus! {

/// Every failure the library reports.
///
/// Path resolution on the historical tree yields `NotFound`,
/// `OutOfRootTraversal`, `SymlinkCycle`, `NotADirectory` or `NotABlob`; a live
/// provider reports `NotFound` or `IOError`; the metadata decoder reports
/// `MalformedNumericField`, `MalformedDocument` or `EmptyRoomStateList`; the
/// asset decoders and the renderer report `UnsupportedAssetShape` when a
/// binary asset has an impossible size or references fall outside the merged
/// tileset.
#[derive(Clone, Copy, Debug, PartialEq, Eq, Structural)]
pub enum Error {
    NotFound,
    IOError,
    OutOfRootTraversal,
    SymlinkCycle,
    NotADirectory,
    NotABlob,
    MalformedNumericField,
    MalformedDocument,
    EmptyRoomStateList,
    UnsupportedAssetShape,
}

} // verus!
