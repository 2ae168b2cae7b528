//! The crate's only window onto the filesystem: directory listings and
//! file probes, reduced to plain values.
//!
//! Everything here goes through `walkdir`; what the disk actually holds
//! cannot be promised, so the contracts state only the shape of what a
//! listing reports, never its content.

use vstd::prelude::*;

verus! {

/// One entry of a directory listing, reduced to plain values.
pub struct RawEntry {
    /// False when the entry's metadata could not be read; such an entry
    /// carries nothing else and is dropped by the scan.
    pub ok: bool,
    /// The entry's base name, one path component.
    pub name: String,
    /// Whether the entry is a regular file.
    pub is_file: bool,
    /// Whether the entry is a directory.
    pub is_dir: bool,
    /// Byte length reported for the entry.
    pub size: u64,
}

/// A name a directory listing may report: one nonempty path component,
/// free of separators.
pub open spec fn valid_entry_name(name: Seq<char>) -> bool {
    name.len() > 0 && forall|i: int| 0 <= i < name.len() ==> name[i] != '/'
}

/// Relies on walkdir::WalkDir with min_depth 1 and max_depth 1: the walk
/// yields exactly the immediate children of `path`, each under its base
/// name, which is a single nonempty path component without a separator.
/// Returns Err when the directory itself cannot be read.
#[verifier::external_body]
pub(crate) fn list_dir(path: &str) -> (r: Result<Vec<RawEntry>, ()>)
    ensures
        r matches Ok(entries) ==> forall|i: int|
            0 <= i < entries@.len() && (#[trigger] entries@[i]).ok ==> valid_entry_name(
                entries@[i].name@,
            ),
{
    let mut out = Vec::new();
    for item in walkdir::WalkDir::new(path).min_depth(1).max_depth(1) {
        let entry = match item { Ok(e) => e, Err(_) => return Err(()) };
        let name = entry.file_name().to_string_lossy().to_string();
        out.push(match entry.metadata() {
            Ok(m) => RawEntry {
                ok: true, name, is_file: m.is_file(), is_dir: m.is_dir(), size: m.len(),
            },
            Err(_) => RawEntry {
                ok: false, name: String::new(), is_file: false, is_dir: false, size: 0,
            },
        });
    }
    Ok(out)
}

/// Relies on walkdir::WalkDir with max_depth 0: the walk yields the path
/// itself, whose metadata says whether it is a regular file. Whether a
/// path names a regular file is a fact of the disk at the moment of the
/// call, so nothing is promised of the result.
#[verifier::external_body]
pub(crate) fn stat_is_file(path: &str) -> bool {
    match walkdir::WalkDir::new(path).max_depth(0).into_iter().next() {
        Some(Ok(entry)) => entry.metadata().map(|m| m.is_file()).unwrap_or(false),
        _ => false,
    }
}

} // verus!
