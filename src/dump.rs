//! Verifying dump files: which files can be checked or converted, and the
//! verdict from what the checks found.
use vstd::prelude::*;

use crate::catalog::text_is;
use crate::cuesheet::{after_last, base_name, base_name_chars, last_after};
use crate::schedule::GameConsole;
use crate::text::{chars_of, slice_chars, string_of};

verus! {

/// What the catalog says of a game dump.
pub struct ROMInfo {
    pub console: GameConsole,
    pub game_name: String,
    pub preferred_file_name: String,
}

/// The verdict on a dump file.
#[derive(Clone, Copy, PartialEq, Eq, Structural, Debug)]
pub enum ROMStatus {
    /// Its hash is a known ROM.
    Verified,
    /// It is intact as far as can be told, but not known.
    Unverified,
    /// A file it needs is missing, or it could not be read back.
    Broken,
}

/// The extension of the file a path names: what follows the last `.` of its
/// last component, unless that `.` opens it.
pub open spec fn extension_of(path: Seq<char>) -> Option<Seq<char>> {
    let name = base_name(path);
    let d = after_last(name, name.len() as int, '.');
    if d > 1 {
        Some(name.subrange(d, name.len() as int))
    } else {
        None
    }
}

/// The extension of the file a path names, as `extension_of` states.
pub fn extension(path: &str) -> (r: Option<String>)
    ensures
        match r {
            Some(e) => extension_of(path@) == Some(e@),
            None => extension_of(path@) is None,
        },
{
    let p = chars_of(path);
    let name = base_name_chars(&p);
    let d = last_after(&name, name.len(), '.');
    if d > 1 {
        Some(string_of(&slice_chars(&name, d, name.len())))
    } else {
        None
    }
}

/// How a dump file is checked.
#[derive(Clone, Copy, PartialEq, Eq, Structural, Debug)]
pub enum FileKind {
    /// A cuesheet: its track files must exist, and its canonical form is
    /// looked up.
    Cue,
    /// A compressed disc image, checked through the external tool.
    Chd,
    /// A `.bin` or `.iso` image, checked by its SHA-1.
    Image,
    /// Anything else, which is never verified.
    Other,
}

pub open spec fn kind_of(ext: Option<Seq<char>>) -> FileKind {
    match ext {
        Some(e) => if e == "cue"@ {
            FileKind::Cue
        } else if e == "chd"@ {
            FileKind::Chd
        } else if e == "bin"@ || e == "iso"@ {
            FileKind::Image
        } else {
            FileKind::Other
        },
        None => FileKind::Other,
    }
}

/// How the file at `path` is checked, by its extension.
pub fn file_kind(path: &str) -> (r: FileKind)
    ensures
        r == kind_of(extension_of(path@)),
{
    match extension(path) {
        None => FileKind::Other,
        Some(e) => {
            if text_is(e.as_str(), "cue") {
                FileKind::Cue
            } else if text_is(e.as_str(), "chd") {
                FileKind::Chd
            } else if text_is(e.as_str(), "bin") || text_is(e.as_str(), "iso") {
                FileKind::Image
            } else {
                FileKind::Other
            }
        },
    }
}

/// Whether the file at `path` can be converted: an `.iso` or a `.cue`.
pub fn can_convert(path: &str) -> (r: bool)
    ensures
        r == (extension_of(path@) == Some("iso"@) || extension_of(path@) == Some("cue"@)),
{
    match extension(path) {
        None => false,
        Some(e) => text_is(e.as_str(), "iso") || text_is(e.as_str(), "cue"),
    }
}

/// Whether the file at `path` can be verified: an `.iso`, a `.cue` or a
/// `.chd`.
pub fn can_verify(path: &str) -> (r: bool)
    ensures
        r == (extension_of(path@) == Some("iso"@) || extension_of(path@) == Some("cue"@)
            || extension_of(path@) == Some("chd"@)),
{
    match extension(path) {
        None => false,
        Some(e) => text_is(e.as_str(), "iso") || text_is(e.as_str(), "cue") || text_is(
            e.as_str(),
            "chd",
        ),
    }
}

/// The verdict on a cuesheet: broken when a track file is missing;
/// otherwise verified exactly when its canonical form matched a reference
/// cuesheet (`reference` is whether that reference's hash is a known ROM).
pub fn cue_status(tracks_present: bool, reference: Option<bool>) -> (r: ROMStatus)
    ensures
        !tracks_present ==> r == ROMStatus::Broken,
        tracks_present ==> (r == ROMStatus::Verified <==> reference == Some(true)),
        tracks_present ==> r != ROMStatus::Broken,
{
    if !tracks_present {
        ROMStatus::Broken
    } else {
        match reference {
            Some(true) => ROMStatus::Verified,
            _ => ROMStatus::Unverified,
        }
    }
}

/// The verdict on an image checked by its hash.
pub fn image_status(known: bool) -> (r: ROMStatus)
    ensures
        r == (if known {
            ROMStatus::Verified
        } else {
            ROMStatus::Unverified
        }),
{
    if known {
        ROMStatus::Verified
    } else {
        ROMStatus::Unverified
    }
}

} // verus!
