//! Reading import sources: which entries are read, the bound on each entry, and
//! the summary of what was read. The caller walks directories and archives and
//! reads the bytes; the rules here decide.
use vstd::prelude::*;

use crate::paths::{components, components_of, extension, extension_of};
use crate::text::{chars_eq, chars_of, join, join_strings, lower, lower_chars, owned, string_of};

verus! {

/// What a source read is asked to do.
#[derive(Debug)]
pub struct SourceReadRequest {
    pub source: String,
    pub allowed_extensions: Vec<String>,
    pub max_entry_bytes: u64,
}

/// One entry read from a source.
#[derive(Debug)]
pub struct SourceEntry {
    pub label: String,
    pub stable_key: String,
    pub relative_path: String,
    pub bytes: Vec<u8>,
}

/// How many entries, and how many bytes, a read visited.
#[derive(Debug, PartialEq, Eq)]
pub struct SourceReadSummary {
    pub entries_visited: u64,
    pub bytes_read: u64,
}

/// Why reading a source stopped.
#[derive(Debug)]
pub enum SourceReadError {
    MissingSource(String),
    InvalidSourceName(String),
    UnsupportedSource(String),
    Symlink(String),
    ArchiveSymlink(String),
    UnsafeArchivePath(String),
    PathOutsideSource(String),
    EntryTooLarge { path: String, actual: u64, limit: u64 },
    ZeroEntryLimit,
    SizeOverflow,
    Io(String),
    Walk(String),
    Zip(String),
    Runtime(String),
}

pub open spec fn sat_add(a: u64, b: u64) -> u64 {
    if a + b > u64::MAX {
        u64::MAX
    } else {
        (a + b) as u64
    }
}

impl SourceReadSummary {
    pub fn new() -> (s: Self)
        ensures
            s.entries_visited == 0,
            s.bytes_read == 0,
    {
        SourceReadSummary { entries_visited: 0, bytes_read: 0 }
    }

    /// Counts one visited entry of `len` bytes; both counts stop at the largest
    /// `u64`.
    pub fn count(&mut self, len: u64)
        ensures
            final(self).entries_visited == sat_add(old(self).entries_visited, 1),
            final(self).bytes_read == sat_add(old(self).bytes_read, len),
    {
        self.entries_visited = self.entries_visited.saturating_add(1);
        self.bytes_read = self.bytes_read.saturating_add(len);
    }
}

/// A request must allow entries of at least one byte.
pub fn check_request(request: &SourceReadRequest) -> (r: Result<(), SourceReadError>)
    ensures
        r is Ok <==> request.max_entry_bytes > 0,
        r matches Err(e) ==> e is ZeroEntryLimit,
{
    if request.max_entry_bytes == 0 {
        Err(SourceReadError::ZeroEntryLimit)
    } else {
        Ok(())
    }
}

/// An entry may not be larger than the limit.
pub fn ensure_size(path: &str, actual: u64, limit: u64) -> (r: Result<(), SourceReadError>)
    ensures
        r is Ok <==> actual <= limit,
        r matches Err(e) ==> (e matches SourceReadError::EntryTooLarge { path: p, actual: a, limit: l }
            && p@ == path@ && a == actual && l == limit),
{
    if actual > limit {
        Err(SourceReadError::EntryTooLarge { path: owned(path), actual, limit })
    } else {
        Ok(())
    }
}

/// Bytes read from an entry's stream, which the caller reads up to one byte past
/// the limit: more than the limit is an error.
pub fn check_read(len: u64, limit: u64) -> (r: Result<(), SourceReadError>)
    ensures
        r is Ok <==> len <= limit,
        r matches Err(e) ==> (e matches SourceReadError::EntryTooLarge { path: p, actual: a, limit: l }
            && p@ == "<stream>"@ && a == len && l == limit),
{
    ensure_size("<stream>", len, limit)
}

/// Whether a path's extension is one of the allowed ones, compared in ASCII
/// lower case.
pub open spec fn extension_allowed_spec(path: Seq<char>, allowed: Seq<Seq<char>>) -> bool {
    match extension(path) {
        Some(e) => exists|i: int| 0 <= i < allowed.len() && lower(#[trigger] allowed[i]) == e,
        None => false,
    }
}

pub fn extension_allowed(path: &str, allowed: &Vec<String>) -> (r: bool)
    ensures
        r == extension_allowed_spec(path@, allowed@.map_values(|s: String| s@)),
{
    let ghost av = allowed@.map_values(|s: String| s@);
    let p = chars_of(path);
    let e = match extension_of(p.as_slice()) {
        Some(e) => e,
        None => return false,
    };
    let mut i: usize = 0;
    while i < allowed.len()
        invariant
            i <= allowed@.len(),
            av == allowed@.map_values(|s: String| s@),
            extension(path@) == Some(e@),
            forall|k: int| 0 <= k < i ==> lower(#[trigger] av[k]) != e@,
        decreases allowed@.len() - i,
    {
        let a = chars_of(allowed[i].as_str());
        let la = lower_chars(a.as_slice());
        assert(av[i as int] == a@);
        if chars_eq(la.as_slice(), e.as_slice()) {
            return true;
        }
        i = i + 1;
    }
    false
}

/// The normal components of a path: without root, empty, `.` and `..`.
pub open spec fn normal_components(c: Seq<Seq<char>>) -> Seq<Seq<char>>
    decreases c.len(),
{
    if c.len() == 0 {
        Seq::empty()
    } else {
        let prev = normal_components(c.drop_last());
        if c.last() == seq!['.', '.'] {
            prev
        } else {
            prev.push(c.last())
        }
    }
}

/// The portable key of an entry: its normal components joined with `/`.
pub open spec fn stable_key_of(path: Seq<char>) -> Seq<char> {
    join(normal_components(components(path)), "/"@)
}

pub fn stable_path_key(path: &str) -> (r: String)
    ensures
        r@ == stable_key_of(path@),
{
    let p = chars_of(path);
    let c = components_of(p.as_slice());
    let ghost cv = c@.map_values(|v: Vec<char>| v@);
    let mut kept: Vec<String> = Vec::new();
    let dots: Vec<char> = vec!['.', '.'];
    assert(dots@ =~= seq!['.', '.']);
    let mut i: usize = 0;
    assert(cv.subrange(0, 0) =~= Seq::<Seq<char>>::empty());
    while i < c.len()
        invariant
            i <= c@.len(),
            cv == c@.map_values(|v: Vec<char>| v@),
            dots@ == seq!['.', '.'],
            kept@.map_values(|s: String| s@) == normal_components(cv.subrange(0, i as int)),
        decreases c@.len() - i,
    {
        let ghost before = kept@.map_values(|s: String| s@);
        let ghost sub = cv.subrange(0, i + 1);
        assert(sub.drop_last() =~= cv.subrange(0, i as int));
        assert(sub.last() == c@[i as int]@);
        if !chars_eq(c[i].as_slice(), dots.as_slice()) {
            kept.push(string_of(c[i].as_slice()));
            assert(kept@.map_values(|s: String| s@) =~= before.push(c@[i as int]@));
        }
        i = i + 1;
    }
    assert(cv.subrange(0, c@.len() as int) =~= cv);
    join_strings(&kept, "/")
}

/// Whether a ZIP entry's Unix mode marks a symbolic link.
pub open spec fn symlink_mode(mode: Option<u32>) -> bool {
    match mode {
        Some(m) => m & 0o170000u32 == 0o120000u32,
        None => false,
    }
}

pub fn zip_entry_is_symlink(mode: Option<u32>) -> (r: bool)
    ensures
        r == symlink_mode(mode),
{
    match mode {
        Some(m) => m & 0o170000u32 == 0o120000u32,
        None => false,
    }
}

/// What to do with one entry that a walk or an archive offers.
#[derive(Clone, Copy, Debug, PartialEq, Eq, Structural)]
pub enum EntryDecision {
    Skip,
    Read,
}

/// Decides an entry: a link is an error; a non-file, or a file whose extension
/// is not allowed, is skipped; a file larger than the limit is an error;
/// anything else is read.
pub fn admit_entry(
    request: &SourceReadRequest,
    relative_path: &str,
    is_symlink: bool,
    is_file: bool,
    size: u64,
) -> (r: Result<EntryDecision, SourceReadError>)
    ensures
        is_symlink ==> (r matches Err(SourceReadError::Symlink(p)) && p@ == relative_path@),
        !is_symlink && !(is_file && extension_allowed_spec(
            relative_path@,
            request.allowed_extensions@.map_values(|s: String| s@),
        )) ==> r == Ok::<EntryDecision, SourceReadError>(EntryDecision::Skip),
        !is_symlink && is_file && extension_allowed_spec(
            relative_path@,
            request.allowed_extensions@.map_values(|s: String| s@),
        ) ==> if size > request.max_entry_bytes {
            r matches Err(SourceReadError::EntryTooLarge { path: p, actual: a, limit: l }) && p@
                == relative_path@ && a == size && l == request.max_entry_bytes
        } else {
            r == Ok::<EntryDecision, SourceReadError>(EntryDecision::Read)
        },
{
    if is_symlink {
        return Err(SourceReadError::Symlink(owned(relative_path)));
    }
    if !is_file || !extension_allowed(relative_path, &request.allowed_extensions) {
        return Ok(EntryDecision::Skip);
    }
    match ensure_size(relative_path, size, request.max_entry_bytes) {
        Ok(()) => Ok(EntryDecision::Read),
        Err(e) => Err(e),
    }
}

/// Decides an archive entry: a directory is skipped; a name that escapes the
/// archive is an error, as is a link; an entry whose extension is not allowed is
/// skipped; one larger than the limit is an error; anything else is read.
pub fn admit_archive_entry(
    request: &SourceReadRequest,
    name: &str,
    enclosed: Option<&str>,
    is_dir: bool,
    mode: Option<u32>,
    size: u64,
) -> (r: Result<EntryDecision, SourceReadError>)
    ensures
        is_dir ==> r == Ok::<EntryDecision, SourceReadError>(EntryDecision::Skip),
        !is_dir && enclosed is None ==> (r matches Err(SourceReadError::UnsafeArchivePath(p)) && p@
            == name@),
        !is_dir && enclosed is Some && symlink_mode(mode) ==> (r matches Err(
            SourceReadError::ArchiveSymlink(p),
        ) && p@ == enclosed->0@),
        !is_dir && enclosed is Some && !symlink_mode(mode) ==> ({
            let path = enclosed->0@;
            if !extension_allowed_spec(path, request.allowed_extensions@.map_values(|s: String| s@)) {
                r == Ok::<EntryDecision, SourceReadError>(EntryDecision::Skip)
            } else if size > request.max_entry_bytes {
                r matches Err(SourceReadError::EntryTooLarge { path: p, actual: a, limit: l }) && p@
                    == path && a == size && l == request.max_entry_bytes
            } else {
                r == Ok::<EntryDecision, SourceReadError>(EntryDecision::Read)
            }
        }),
{
    if is_dir {
        return Ok(EntryDecision::Skip);
    }
    let path = match enclosed {
        Some(p) => p,
        None => return Err(SourceReadError::UnsafeArchivePath(owned(name))),
    };
    if zip_entry_is_symlink(mode) {
        return Err(SourceReadError::ArchiveSymlink(owned(path)));
    }
    if !extension_allowed(path, &request.allowed_extensions) {
        return Ok(EntryDecision::Skip);
    }
    match ensure_size(path, size, request.max_entry_bytes) {
        Ok(()) => Ok(EntryDecision::Read),
        Err(e) => Err(e),
    }
}

} // verus!
