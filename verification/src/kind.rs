//! What kind of thing a file is, and what the map makes of it.

use vstd::prelude::*;

verus! {

/// What kind of thing a file is.
#[derive(Clone, Copy, Debug, PartialEq, Eq, Structural)]
pub enum FileKind {
    Folder,
    Image,
    Text,
    Code,
    Audio,
    Video,
    Archive,
    Pdf,
    Generic,
}

/// The kinds in the order of their tags, so the byte that a scan carried can be read back.
pub const FILE_KINDS: [FileKind; 9] = [
    FileKind::Folder,
    FileKind::Image,
    FileKind::Text,
    FileKind::Code,
    FileKind::Audio,
    FileKind::Video,
    FileKind::Archive,
    FileKind::Pdf,
    FileKind::Generic,
];

/// The kind tag of the "N smaller items" rectangle.
pub const KIND_BUNDLE: u8 = 255;
/// The palette class everything unrecognised falls into.
pub const OTHER_CLASS: u8 = 6;
/// How many classes a palette has a hue for.
pub const KIND_CLASSES: usize = 7;

/// The byte that stands for a kind.
pub open spec fn tag_of(kind: FileKind) -> u8 {
    match kind {
        FileKind::Folder => 0,
        FileKind::Image => 1,
        FileKind::Text => 2,
        FileKind::Code => 3,
        FileKind::Audio => 4,
        FileKind::Video => 5,
        FileKind::Archive => 6,
        FileKind::Pdf => 7,
        FileKind::Generic => 8,
    }
}

/// The byte that stands for a kind.
pub fn kind_tag(kind: FileKind) -> (r: u8)
    ensures
        r == tag_of(kind),
{
    match kind {
        FileKind::Folder => 0,
        FileKind::Image => 1,
        FileKind::Text => 2,
        FileKind::Code => 3,
        FileKind::Audio => 4,
        FileKind::Video => 5,
        FileKind::Archive => 6,
        FileKind::Pdf => 7,
        FileKind::Generic => 8,
    }
}

/// The class that a kind's colour comes from.
pub open spec fn class_of(kind: FileKind) -> u8 {
    match kind {
        FileKind::Video => 0,
        FileKind::Image => 1,
        FileKind::Audio => 2,
        FileKind::Code => 3,
        FileKind::Text => 4,
        FileKind::Pdf => 4,
        FileKind::Archive => 5,
        FileKind::Folder => 6,
        FileKind::Generic => 6,
    }
}

/// The class that a kind's colour comes from: an index into the palette's hues. It is a
/// property of the picture, not of the file.
pub fn kind_class(kind: FileKind) -> (r: u8)
    ensures
        r == class_of(kind),
        r < KIND_CLASSES,
{
    match kind {
        FileKind::Video => 0,
        FileKind::Image => 1,
        FileKind::Audio => 2,
        FileKind::Code => 3,
        // A PDF reads as a document, which is what the text hue means here.
        FileKind::Text | FileKind::Pdf => 4,
        FileKind::Archive => 5,
        FileKind::Folder | FileKind::Generic => 6,
    }
}

/// The kind that a tag stands for. A tag that stands for none is a plain file's.
pub open spec fn kind_of_tag(tag: u8) -> FileKind {
    if tag < FILE_KINDS@.len() {
        FILE_KINDS@[tag as int]
    } else {
        FileKind::Generic
    }
}

/// The kind that a tag stands for.
pub fn tag_kind(tag: u8) -> (r: FileKind)
    ensures
        r == kind_of_tag(tag),
{
    if (tag as usize) < FILE_KINDS.len() {
        FILE_KINDS[tag as usize]
    } else {
        FileKind::Generic
    }
}

// --------------------------------------------------------------------- laws

/// A kind survives the round trip through its byte.
pub proof fn a_kind_survives_its_tag(kind: FileKind)
    ensures
        kind_of_tag(tag_of(kind)) == kind,
        FILE_KINDS@[tag_of(kind) as int] == kind,
        tag_of(kind) < FILE_KINDS@.len(),
{
}

/// The bundle's tag is no kind's, and the map paints it in the class of everything
/// unrecognised.
pub proof fn the_bundle_is_no_kind(kind: FileKind)
    ensures
        tag_of(kind) != KIND_BUNDLE,
        KIND_BUNDLE >= FILE_KINDS@.len(),
        class_of(kind_of_tag(KIND_BUNDLE)) == OTHER_CLASS,
{
}

/// Every tag whatever lands on a hue of the palette.
pub proof fn every_tag_has_a_hue(tag: u8)
    ensures
        class_of(kind_of_tag(tag)) < KIND_CLASSES,
{
}

} // verus!
