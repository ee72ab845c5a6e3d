//! Pure extraction logic: entry-path safety and extraction planning, plus
//! the progress record the worker thread reports.

use vstd::prelude::*;

use crate::LxeError;

verus! {

/// Progress of a running extraction, as reported to the foreground.
pub struct ExtractProgress {
    pub total_bytes: u64,
    pub extracted_bytes: u64,
    pub files_extracted: u32,
    pub current_file: Vec<u8>,
    pub complete: bool,
    pub error: Option<Vec<u8>>,
}

impl ExtractProgress {
    /// A fresh record for an extraction of `total_bytes`.
    pub fn new(total_bytes: u64) -> (r: ExtractProgress)
        ensures
            r.total_bytes == total_bytes,
            r.extracted_bytes == 0,
            r.files_extracted == 0,
            r.current_file@.len() == 0,
            !r.complete,
            r.error is None,
    {
        ExtractProgress {
            total_bytes,
            extracted_bytes: 0,
            files_extracted: 0,
            current_file: Vec::new(),
            complete: false,
            error: None,
        }
    }
}

/// A tar entry path is safe to unpack when it is relative and never steps
/// upward: not empty, not absolute, and without a `..` segment.
pub open spec fn safe_entry_path(p: Seq<u8>) -> bool {
    &&& p.len() > 0
    &&& p[0] != 0x2f
    &&& !has_dotdot_segment(p, 0)
}

/// A `..` segment starts at some position that begins a path segment and is
/// followed by a segment end.
pub open spec fn has_dotdot_segment(p: Seq<u8>, unused: int) -> bool {
    exists|i: int|
        0 <= i && i + 2 <= p.len() && #[trigger] p[i] == 0x2e && p[i + 1] == 0x2e && (i == 0 || p[i
            - 1] == 0x2f) && (i + 2 == p.len() || p[i + 2] == 0x2f)
}

/// Tests whether a tar entry path is safe to unpack.
pub fn is_safe_entry_path(p: &Vec<u8>) -> (r: bool)
    ensures
        r == safe_entry_path(p@),
{
    let n = p.len();
    if n == 0 {
        return false;
    }
    if p[0] == 0x2f {
        return false;
    }
    let mut i: usize = 0;
    while i < n
        invariant
            i <= n,
            n == p@.len(),
            n > 0,
            p@[0] != 0x2f,
            forall|j: int|
                0 <= j < i ==> !(j + 2 <= p@.len() && #[trigger] p@[j] == 0x2e && p@[j + 1] == 0x2e
                    && (j == 0 || p@[j - 1] == 0x2f) && (j + 2 == p@.len() || p@[j + 2] == 0x2f)),
        decreases n - i,
    {
        if n - i >= 2 && p[i] == 0x2e && p[i + 1] == 0x2e && (i == 0 || p[i - 1] == 0x2f) && (n - i
            == 2 || p[i + 2] == 0x2f) {
            proof {
                assert(has_dotdot_segment(p@, 0));
            }
            return false;
        }
        i = i + 1;
    }
    proof {
        if has_dotdot_segment(p@, 0) {
            let w = choose|j: int|
                0 <= j && j + 2 <= p@.len() && #[trigger] p@[j] == 0x2e && p@[j + 1] == 0x2e && (j
                    == 0 || p@[j - 1] == 0x2f) && (j + 2 == p@.len() || p@[j + 2] == 0x2f);
            assert(0 <= w < n);
            assert(false);
        }
    }
    true
}

/// Checks every entry of an unpacked archive: hands the entries back
/// unchanged when all their paths are safe, and refuses the whole archive
/// with `ExtractionFailed` when any path is absolute or escapes upward.
pub fn plan_extraction(entries: Vec<(Vec<u8>, Vec<u8>)>) -> (r: Result<
    Vec<(Vec<u8>, Vec<u8>)>,
    LxeError,
>)
    ensures
        match r {
            Ok(out) => out@ == entries@ && forall|i: int|
                0 <= i < entries@.len() ==> safe_entry_path(#[trigger] entries@[i].0@),
            Err(e) => e == LxeError::ExtractionFailed && exists|i: int|
                0 <= i < entries@.len() && !safe_entry_path(#[trigger] entries@[i].0@),
        },
{
    let mut i: usize = 0;
    let n = entries.len();
    while i < n
        invariant
            i <= n,
            n == entries@.len(),
            forall|j: int| 0 <= j < i ==> safe_entry_path(#[trigger] entries@[j].0@),
        decreases n - i,
    {
        if !is_safe_entry_path(&entries[i].0) {
            return Err(LxeError::ExtractionFailed);
        }
        i = i + 1;
    }
    Ok(entries)
}

} // verus!
